//! The functions that a verified function calls, directly or through
//! others, and those of them that need an override.

use vstd::prelude::*;

use crate::constraints::{CalledFunction, FunctionInfo, InterfaceMethod, SpecConstraint};
use crate::stl_overrides::{family_text, matches_uncached};
use crate::text::{
    group_append, group_views, lemma_append_assoc, list_has, opt_string, opt_view, owned, same,
    slice_has, starts, starts_with, views,
};

verus! {

/// What tells apart functions: the mangled name, or the name where there
/// is none.
pub open spec fn symbol_of(f: FunctionInfo) -> Seq<char> {
    match f.mangled_name {
        Some(m) => m@,
        None => f.name@,
    }
}

fn symbol(f: &FunctionInfo) -> (r: &str)
    ensures
        r@ == symbol_of(*f),
{
    match &f.mangled_name {
        Some(m) => m.as_str(),
        None => f.name.as_str(),
    }
}

/// The last of the first `n` functions with the given mangled name.
pub open spec fn by_mangled(all: Seq<FunctionInfo>, name: Seq<char>, n: int) -> Option<int>
    decreases n,
{
    if n <= 0 || n > all.len() {
        None
    } else if opt_string(all[n - 1].mangled_name) == Some(name) {
        Some(n - 1)
    } else {
        by_mangled(all, name, n - 1)
    }
}

/// The last of the first `n` functions with the given name.
pub open spec fn by_name(all: Seq<FunctionInfo>, name: Seq<char>, n: int) -> Option<int>
    decreases n,
{
    if n <= 0 || n > all.len() {
        None
    } else if all[n - 1].name@ == name {
        Some(n - 1)
    } else {
        by_name(all, name, n - 1)
    }
}

/// The function with the given mangled name, else the one with the given
/// name.
pub open spec fn lookup(all: Seq<FunctionInfo>, mangled: Option<Seq<char>>, name: Seq<char>) -> Option<
    int,
> {
    let found = match mangled {
        Some(m) => by_mangled(all, m, all.len() as int),
        None => None,
    };
    match found {
        Some(i) => Some(i),
        None => by_name(all, name, all.len() as int),
    }
}

pub open spec fn opt_index(o: Option<usize>) -> Option<int> {
    match o {
        Some(i) => Some(i as int),
        None => None,
    }
}

fn is_mangled_as(f: &FunctionInfo, name: &str) -> (r: bool)
    ensures
        r == (opt_string(f.mangled_name) == Some(name@)),
{
    match &f.mangled_name {
        Some(m) => same(m.as_str(), name),
        None => false,
    }
}

fn find_by_mangled(all: &[FunctionInfo], name: &str) -> (r: Option<usize>)
    ensures
        opt_index(r) == by_mangled(all@, name@, all@.len() as int),
        r matches Some(i) ==> i < all@.len(),
{
    let mut n: usize = all.len();
    while n > 0
        invariant
            n <= all@.len(),
            by_mangled(all@, name@, all@.len() as int) == by_mangled(all@, name@, n as int),
        decreases n,
    {
        if is_mangled_as(&all[n - 1], name) {
            return Some(n - 1);
        }
        n -= 1;
    }
    None
}

fn find_by_name(all: &[FunctionInfo], name: &str) -> (r: Option<usize>)
    ensures
        opt_index(r) == by_name(all@, name@, all@.len() as int),
        r matches Some(i) ==> i < all@.len(),
{
    let mut n: usize = all.len();
    while n > 0
        invariant
            n <= all@.len(),
            by_name(all@, name@, all@.len() as int) == by_name(all@, name@, n as int),
        decreases n,
    {
        if same(all[n - 1].name.as_str(), name) {
            return Some(n - 1);
        }
        n -= 1;
    }
    None
}

fn find_function(all: &[FunctionInfo], mangled: Option<&str>, name: &str) -> (r: Option<usize>)
    ensures
        opt_index(r) == lookup(all@, opt_view(mangled), name@),
        r matches Some(i) ==> i < all@.len(),
{
    if let Some(m) = mangled {
        if let Some(i) = find_by_mangled(all, m) {
            return Some(i);
        }
    }
    find_by_name(all, name)
}

// ---------------------------------------------------------------------
// Which bodies are executed
// ---------------------------------------------------------------------

/// How the bodies that are executed are told from those that are not.
#[derive(Debug)]
pub struct RecursionPolicy<'a> {
    /// The symbols of the system functions whose bodies can be executed.
    pub safe_symbols: &'a [String],
    /// Is no body of a system function executed?
    pub no_system: bool,
    /// Are the overrides of the standard library switched off?
    pub stl_disabled: bool,
}

/// Does the standard library's override cover the name?
pub open spec fn stl_covers(name: Seq<char>, disabled: bool) -> bool {
    !disabled && family_text(name) is Some
}

/// Does the standard library's override cover the function, by its
/// mangled name or by its name?
pub open spec fn stl_function(f: FunctionInfo, disabled: bool) -> bool {
    (f.mangled_name matches Some(m) && stl_covers(m@, disabled)) || stl_covers(f.name@, disabled)
}

/// Can the body of the function be executed?
pub open spec fn body_is_safe(f: FunctionInfo, p: &RecursionPolicy) -> bool {
    !stl_function(f, p.stl_disabled) && !p.no_system && views(p.safe_symbols@).contains(
        symbol_of(f),
    )
}

/// Is the body of the function executed?
pub open spec fn enters(f: FunctionInfo, p: &RecursionPolicy) -> bool {
    f.has_body && !stl_function(f, p.stl_disabled) && (!f.is_system || body_is_safe(f, p))
}

fn stl_override_matches(callee: &FunctionInfo, disabled: bool) -> (r: bool)
    ensures
        r == stl_function(*callee, disabled),
{
    if let Some(m) = &callee.mangled_name {
        if !disabled && matches_uncached(m.as_str()) {
            return true;
        }
    }
    !disabled && matches_uncached(callee.name.as_str())
}

/// Can the body of the function be executed?
pub fn crucible_safe(callee: &FunctionInfo, policy: &RecursionPolicy<'_>) -> (r: bool)
    ensures
        r == body_is_safe(*callee, policy),
{
    if stl_override_matches(callee, policy.stl_disabled) {
        return false;
    }
    if policy.no_system {
        return false;
    }
    slice_has(policy.safe_symbols, symbol(callee))
}

/// Is the body of the function executed?
pub fn should_recurse(callee: &FunctionInfo, policy: &RecursionPolicy<'_>) -> (r: bool)
    ensures
        r == enters(*callee, policy),
{
    if !callee.has_body {
        return false;
    }
    if stl_override_matches(callee, policy.stl_disabled) {
        return false;
    }
    if !callee.is_system {
        return true;
    }
    crucible_safe(callee, policy)
}

// ---------------------------------------------------------------------
// The walk
// ---------------------------------------------------------------------

/// Is the function entered? Without a policy, each is.
pub open spec fn followed(f: FunctionInfo, p: Option<&RecursionPolicy>) -> bool {
    match p {
        Some(policy) => enters(f, policy),
        None => true,
    }
}

/// The function of a number: behind all others stands the verified one.
pub open spec fn function_at(target: FunctionInfo, all: Seq<FunctionInfo>, i: int) -> FunctionInfo {
    if 0 <= i < all.len() {
        all[i]
    } else {
        target
    }
}

/// The functions that are entered from the first `n` calls.
pub open spec fn entered(
    calls: Seq<CalledFunction>,
    n: nat,
    all: Seq<FunctionInfo>,
    p: Option<&RecursionPolicy>,
) -> Seq<int>
    decreases n,
{
    if n == 0 {
        Seq::empty()
    } else {
        let rest = entered(calls, (n - 1) as nat, all, p);
        let c = calls[n - 1];
        match lookup(all, Some(c.mangled_name@), c.name@) {
            Some(i) => if followed(all[i], p) {
                rest.push(i)
            } else {
                rest
            },
            None => rest,
        }
    }
}

/// The functions that are entered from a function.
pub open spec fn callees(f: FunctionInfo, all: Seq<FunctionInfo>, p: Option<&RecursionPolicy>) -> Seq<
    int,
> {
    entered(f.called_functions@, f.called_functions@.len(), all, p)
}

/// The number of the first `n` functions whose symbols are not among those
/// seen.
pub open spec fn unseen(
    target: FunctionInfo,
    all: Seq<FunctionInfo>,
    seen: Seq<Seq<char>>,
    n: nat,
) -> nat
    decreases n,
{
    if n == 0 {
        0
    } else {
        let rest = unseen(target, all, seen, (n - 1) as nat);
        if seen.contains(symbol_of(function_at(target, all, n - 1))) {
            rest
        } else {
            rest + 1
        }
    }
}

pub proof fn lemma_unseen(
    target: FunctionInfo,
    all: Seq<FunctionInfo>,
    seen: Seq<Seq<char>>,
    s: Seq<char>,
    n: nat,
)
    ensures
        unseen(target, all, seen.push(s), n) <= unseen(target, all, seen, n),
        !seen.contains(s) && (exists|i: int|
            0 <= i < n && symbol_of(#[trigger] function_at(target, all, i)) == s) ==> unseen(
            target,
            all,
            seen.push(s),
            n,
        ) < unseen(target, all, seen, n),
    decreases n,
{
    if n > 0 {
        lemma_unseen(target, all, seen, s, (n - 1) as nat);
        let k = symbol_of(function_at(target, all, n - 1));
        let more = seen.push(s);
        if seen.contains(k) {
            let j = choose|j: int| 0 <= j < seen.len() && seen[j] == k;
            assert(more[j] == k);
        }
        if k == s {
            assert(more[seen.len() as int] == k);
        }
        if more.contains(k) && k != s {
            let j = choose|j: int| 0 <= j < more.len() && more[j] == k;
            assert(seen[j] == k);
        }
    }
}

/// The functions that are visited, in order, given those still to be
/// visited and the symbols seen. The last one is visited first, and a
/// symbol is visited once.
pub open spec fn visits(
    target: FunctionInfo,
    all: Seq<FunctionInfo>,
    p: Option<&RecursionPolicy>,
    work: Seq<int>,
    seen: Seq<Seq<char>>,
) -> Seq<int>
    decreases unseen(target, all, seen, all.len() + 1), work.len(),
{
    if work.len() == 0 {
        Seq::empty()
    } else {
        let i = work.last();
        let f = function_at(target, all, i);
        if i < 0 || i > all.len() || seen.contains(symbol_of(f)) {
            visits(target, all, p, work.drop_last(), seen)
        } else {
            proof {
                lemma_unseen(target, all, seen, symbol_of(f), all.len() + 1);
            }
            seq![i] + visits(
                target,
                all,
                p,
                work.drop_last() + callees(f, all, p),
                seen.push(symbol_of(f)),
            )
        }
    }
}

/// The functions that are visited from the verified one on.
pub open spec fn walk_of(
    target: FunctionInfo,
    all: Seq<FunctionInfo>,
    p: Option<&RecursionPolicy>,
) -> Seq<int> {
    visits(target, all, p, seq![all.len() as int], Seq::empty())
}

fn push_callees(
    work: &mut Vec<usize>,
    f: &FunctionInfo,
    all: &[FunctionInfo],
    policy: Option<&RecursionPolicy<'_>>,
)
    ensures
        indices_view(final(work)@) == indices_view(old(work)@) + callees(*f, all@, policy),
        forall|i: int| 0 <= i < old(work)@.len() ==> final(work)@[i] == old(work)@[i],
        forall|i: int|
            old(work)@.len() <= i < final(work)@.len() ==> #[trigger] final(work)@[i] < all@.len(),
        final(work)@.len() >= old(work)@.len(),
{
    broadcast use {group_append, group_views};
    let calls = &f.called_functions;
    let ghost base = indices_view(work@);
    let mut i: usize = 0;
    assert(base + entered(calls@, 0, all@, policy) =~= base);
    while i < calls.len()
        invariant
            calls == f.called_functions,
            base == indices_view(old(work)@),
            i <= calls@.len(),
            work@.len() >= old(work)@.len(),
            forall|k: int| 0 <= k < old(work)@.len() ==> work@[k] == old(work)@[k],
            forall|k: int|
                old(work)@.len() <= k < work@.len() ==> #[trigger] work@[k] < all@.len(),
            indices_view(work@) == base + entered(calls@, i as nat, all@, policy),
        decreases calls@.len() - i,
    {
        let c = &calls[i];
        if let Some(k) = find_function(all, Some(c.mangled_name.as_str()), c.name.as_str()) {
            let enter = match policy {
                Some(p) => should_recurse(&all[k], p),
                None => true,
            };
            if enter {
                let ghost before = indices_view(work@);
                let ghost rest = entered(calls@, i as nat, all@, policy);
                work.push(k);
                assert(indices_view(work@) =~= before.push(k as int));
                assert(base + rest.push(k as int) =~= (base + rest).push(k as int));
            }
        }
        i += 1;
    }
}

pub open spec fn indices_view(v: Seq<usize>) -> Seq<int> {
    Seq::new(v.len(), |i: int| v[i] as int)
}

fn walk_callgraph(
    target_fn: &FunctionInfo,
    all: &[FunctionInfo],
    policy: Option<&RecursionPolicy<'_>>,
) -> (r: Vec<usize>)
    requires
        all@.len() < usize::MAX,
    ensures
        indices_view(r@) == walk_of(*target_fn, all@, policy),
        forall|i: int| 0 <= i < r@.len() ==> #[trigger] r@[i] <= all@.len(),
{
    broadcast use {group_append, group_views};
    let n: usize = all.len();
    let mut visited: Vec<usize> = Vec::new();
    let mut seen: Vec<String> = Vec::new();
    let mut work: Vec<usize> = Vec::new();
    work.push(n);
    let ghost want = walk_of(*target_fn, all@, policy);
    proof {
        assert(indices_view(work@) =~= seq![n as int]);
        assert(views(seen@) =~= Seq::empty());
        assert(indices_view(visited@) + want =~= want);
    }
    while work.len() > 0
        invariant
            n == all@.len(),
            n < usize::MAX,
            forall|i: int| 0 <= i < work@.len() ==> #[trigger] work@[i] <= n,
            forall|i: int| 0 <= i < visited@.len() ==> #[trigger] visited@[i] <= n,
            indices_view(visited@) + visits(
                *target_fn,
                all@,
                policy,
                indices_view(work@),
                views(seen@),
            ) == want,
        decreases unseen(*target_fn, all@, views(seen@), (n + 1) as nat), work@.len(),
    {
        let ghost w = indices_view(work@);
        let ghost v = indices_view(visited@);
        let ghost s = views(seen@);
        let i: usize = work[work.len() - 1];
        work.truncate(work.len() - 1);
        proof {
            assert(w.last() == i as int);
            assert(indices_view(work@) =~= w.drop_last());
        }
        let f = if i < n {
            &all[i]
        } else {
            target_fn
        };
        assert(function_at(*target_fn, all@, i as int) == *f);
        if !list_has(&seen, symbol(f)) {
            proof {
                lemma_unseen(*target_fn, all@, s, symbol_of(*f), (n + 1) as nat);
            }
            seen.push(owned(symbol(f)));
            visited.push(i);
            push_callees(&mut work, f, all, policy);
            proof {
                assert(indices_view(visited@) =~= v + seq![i as int]);
                assert(views(seen@) =~= s.push(symbol_of(*f)));
                lemma_append_assoc(
                    v,
                    seq![i as int],
                    visits(*target_fn, all@, policy, indices_view(work@), views(seen@)),
                );
            }
        }
    }
    assert(indices_view(visited@) =~= want);
    visited
}

// ---------------------------------------------------------------------
// What is reached
// ---------------------------------------------------------------------

/// Does the function call the given target, by mangled name or by name?
pub open spec fn calls_target(f: FunctionInfo, name: Seq<char>) -> bool {
    name.len() > 0 && exists|k: int|
        0 <= k < f.called_functions@.len() && ((#[trigger] f.called_functions@[k]).mangled_name@
            == name || f.called_functions@[k].name@ == name)
}

/// Does the function call the given symbol?
pub open spec fn calls_symbol(f: FunctionInfo, name: Seq<char>) -> bool {
    exists|k: int|
        0 <= k < f.called_functions@.len() && (#[trigger] f.called_functions@[k]).mangled_name@
            == name
}

/// Is the target called by a function that the verified one reaches?
pub open spec fn target_reached(target: FunctionInfo, all: Seq<FunctionInfo>, name: Seq<char>) -> bool {
    exists|k: int|
        0 <= k < walk_of(target, all, None).len() && calls_target(
            function_at(target, all, #[trigger] walk_of(target, all, None)[k]),
            name,
        )
}

/// Is the symbol called by a function whose body is executed?
pub open spec fn symbol_reached(
    target: FunctionInfo,
    all: Seq<FunctionInfo>,
    p: &RecursionPolicy,
    name: Seq<char>,
) -> bool {
    exists|k: int|
        0 <= k < walk_of(target, all, Some(p)).len() && calls_symbol(
            function_at(target, all, #[trigger] walk_of(target, all, Some(p))[k]),
            name,
        )
}

fn does_call_target(f: &FunctionInfo, name: &str) -> (r: bool)
    ensures
        r == calls_target(*f, name@),
{
    if name.is_empty() {
        return false;
    }
    let calls = &f.called_functions;
    let mut i: usize = 0;
    while i < calls.len()
        invariant
            calls == f.called_functions,
            name@.len() > 0,
            i <= calls@.len(),
            forall|k: int|
                0 <= k < i ==> (#[trigger] calls@[k]).mangled_name@ != name@ && calls@[k].name@
                    != name@,
        decreases calls@.len() - i,
    {
        if same(calls[i].mangled_name.as_str(), name) || same(calls[i].name.as_str(), name) {
            return true;
        }
        i += 1;
    }
    false
}

fn does_call_symbol(f: &FunctionInfo, name: &str) -> (r: bool)
    ensures
        r == calls_symbol(*f, name@),
{
    let calls = &f.called_functions;
    let mut i: usize = 0;
    while i < calls.len()
        invariant
            calls == f.called_functions,
            i <= calls@.len(),
            forall|k: int| 0 <= k < i ==> (#[trigger] calls@[k]).mangled_name@ != name@,
        decreases calls@.len() - i,
    {
        if same(calls[i].mangled_name.as_str(), name) {
            return true;
        }
        i += 1;
    }
    false
}

fn is_target_reached(
    target_fn: &FunctionInfo,
    all: &[FunctionInfo],
    walk: &Vec<usize>,
    name: &str,
) -> (r: bool)
    requires
        indices_view(walk@) == walk_of(*target_fn, all@, None),
    ensures
        r == target_reached(*target_fn, all@, name@),
{
    let ghost w = walk_of(*target_fn, all@, None);
    let mut i: usize = 0;
    while i < walk.len()
        invariant
            w == walk_of(*target_fn, all@, None),
            w == indices_view(walk@),
            i <= walk@.len(),
            forall|k: int|
                0 <= k < i ==> !calls_target(function_at(*target_fn, all@, #[trigger] w[k]), name@),
        decreases walk@.len() - i,
    {
        assert(w[i as int] == walk@[i as int] as int);
        let f = if walk[i] < all.len() {
            &all[walk[i]]
        } else {
            target_fn
        };
        if does_call_target(f, name) {
            return true;
        }
        i += 1;
    }
    false
}

fn is_symbol_reached(
    target_fn: &FunctionInfo,
    all: &[FunctionInfo],
    policy: &RecursionPolicy<'_>,
    walk: &Vec<usize>,
    name: &str,
) -> (r: bool)
    requires
        indices_view(walk@) == walk_of(*target_fn, all@, Some(policy)),
    ensures
        r == symbol_reached(*target_fn, all@, policy, name@),
{
    let ghost w = walk_of(*target_fn, all@, Some(policy));
    let mut i: usize = 0;
    while i < walk.len()
        invariant
            w == walk_of(*target_fn, all@, Some(policy)),
            w == indices_view(walk@),
            i <= walk@.len(),
            forall|k: int|
                0 <= k < i ==> !calls_symbol(function_at(*target_fn, all@, #[trigger] w[k]), name@),
        decreases walk@.len() - i,
    {
        assert(w[i as int] == walk@[i as int] as int);
        let f = if walk[i] < all.len() {
            &all[walk[i]]
        } else {
            target_fn
        };
        if does_call_symbol(f, name) {
            return true;
        }
        i += 1;
    }
    false
}

/// Is one of the methods called by a function that the verified one
/// reaches?
pub open spec fn interface_reached(
    target: FunctionInfo,
    all: Seq<FunctionInfo>,
    methods: Seq<InterfaceMethod>,
) -> bool {
    exists|i: int|
        0 <= i < methods.len() && ((#[trigger] methods[i]).method.mangled_name matches Some(m)
            && target_reached(target, all, m@))
}

/// Is one of the methods called by a function that the verified one
/// reaches?
pub fn any_interface_reachable(
    target_fn: &FunctionInfo,
    all_functions: &[FunctionInfo],
    vmethods: &[InterfaceMethod],
) -> (r: bool)
    requires
        all_functions@.len() < usize::MAX,
    ensures
        r == interface_reached(*target_fn, all_functions@, vmethods@),
{
    if vmethods.len() == 0 {
        return false;
    }
    let walk = walk_callgraph(target_fn, all_functions, None);
    let mut i: usize = 0;
    while i < vmethods.len()
        invariant
            indices_view(walk@) == walk_of(*target_fn, all_functions@, None),
            i <= vmethods@.len(),
            forall|k: int|
                0 <= k < i ==> !((#[trigger] vmethods@[k]).method.mangled_name matches Some(m)
                    && target_reached(*target_fn, all_functions@, m@)),
        decreases vmethods@.len() - i,
    {
        if let Some(m) = &vmethods[i].method.mangled_name {
            if is_target_reached(target_fn, all_functions, &walk, m.as_str()) {
                return true;
            }
        }
        i += 1;
    }
    false
}

/// The methods for which stubs are needed: all of them, so that the slots
/// of a class stay in place, or none where the verified function reaches
/// none of them.
pub fn select_reachable_vmethods(
    target_fn: &FunctionInfo,
    all_functions: &[FunctionInfo],
    all_vmethods: Vec<InterfaceMethod>,
) -> (r: Vec<InterfaceMethod>)
    requires
        all_functions@.len() < usize::MAX,
    ensures
        r@ == if interface_reached(*target_fn, all_functions@, all_vmethods@) {
            all_vmethods@
        } else {
            Seq::empty()
        },
{
    if any_interface_reachable(target_fn, all_functions, all_vmethods.as_slice()) {
        all_vmethods
    } else {
        Vec::new()
    }
}

// ---------------------------------------------------------------------
// Overrides
// ---------------------------------------------------------------------

/// Is the specified function one whose body is not executed?
pub open spec fn is_external(s: SpecConstraint, f: Option<FunctionInfo>, p: &RecursionPolicy) -> bool {
    match f {
        Some(f) => !f.has_body || stl_function(f, p.stl_disabled) || (f.is_system && !body_is_safe(
            f,
            p,
        )),
        None => !s.has_body || stl_covers(s.function_name@, p.stl_disabled),
    }
}

/// The function that is specified.
pub open spec fn specified(s: SpecConstraint, all: Seq<FunctionInfo>) -> Option<FunctionInfo> {
    match lookup(all, opt_string(s.mangled_name), s.function_name@) {
        Some(i) => Some(all[i]),
        None => None,
    }
}

/// Does the specified function need an override? Its body is not executed,
/// it is not virtual and not built in, and it is called.
pub open spec fn needs_override(
    s: SpecConstraint,
    target: FunctionInfo,
    all: Seq<FunctionInfo>,
    p: &RecursionPolicy,
) -> bool {
    let f = specified(s, all);
    &&& is_external(s, f, p)
    &&& !s.is_virtual
    &&& !(f matches Some(g) && g.is_virtual)
    &&& !starts(s.function_name@, "__builtin_"@)
    &&& s.mangled_name matches Some(m) && !starts(m@, "__builtin_"@) && symbol_reached(
        target,
        all,
        p,
        m@,
    )
}

/// Those of the specifications that are needed, in order.
pub open spec fn needed<'s>(
    specs: Seq<SpecConstraint>,
    n: nat,
    target: FunctionInfo,
    all: Seq<FunctionInfo>,
    p: &RecursionPolicy,
) -> Seq<&'s SpecConstraint>
    decreases n,
{
    if n == 0 {
        Seq::empty()
    } else {
        let rest = needed(specs, (n - 1) as nat, target, all, p);
        if needs_override(specs[n - 1], target, all, p) {
            rest.push(&specs[n - 1])
        } else {
            rest
        }
    }
}

fn is_needed(
    s: &SpecConstraint,
    target_fn: &FunctionInfo,
    all: &[FunctionInfo],
    policy: &RecursionPolicy<'_>,
    walk: &Vec<usize>,
) -> (r: bool)
    requires
        indices_view(walk@) == walk_of(*target_fn, all@, Some(policy)),
    ensures
        r == needs_override(*s, *target_fn, all@, policy),
{
    let mangled = match &s.mangled_name {
        Some(m) => Some(m.as_str()),
        None => None,
    };
    let found = find_function(all, mangled, s.function_name.as_str());
    let external = match found {
        Some(i) => {
            let f = &all[i];
            !f.has_body || stl_override_matches(f, policy.stl_disabled) || (f.is_system
                && !crucible_safe(f, policy))
        },
        None => !s.has_body || (!policy.stl_disabled && matches_uncached(
            s.function_name.as_str(),
        )),
    };
    if !external || s.is_virtual {
        return false;
    }
    if let Some(i) = found {
        if all[i].is_virtual {
            return false;
        }
    }
    if starts_with(s.function_name.as_str(), "__builtin_") {
        return false;
    }
    match &s.mangled_name {
        Some(m) => !starts_with(m.as_str(), "__builtin_") && is_symbol_reached(
            target_fn,
            all,
            policy,
            walk,
            m.as_str(),
        ),
        None => false,
    }
}

/// Those of the specifications whose functions need an override in a
/// proof of the verified function, in order.
pub fn collect_external_call_specs<'s>(
    target_fn: &FunctionInfo,
    all_functions: &[FunctionInfo],
    all_specs: &'s [SpecConstraint],
    policy: &RecursionPolicy<'_>,
) -> (r: Vec<&'s SpecConstraint>)
    requires
        all_functions@.len() < usize::MAX,
    ensures
        r@ == needed(all_specs@, all_specs@.len(), *target_fn, all_functions@, policy),
{
    broadcast use {group_append, group_views};
    let walk = walk_callgraph(target_fn, all_functions, Some(policy));
    let mut r: Vec<&'s SpecConstraint> = Vec::new();
    let mut i: usize = 0;
    while i < all_specs.len()
        invariant
            indices_view(walk@) == walk_of(*target_fn, all_functions@, Some(policy)),
            i <= all_specs@.len(),
            r@ == needed(all_specs@, i as nat, *target_fn, all_functions@, policy),
        decreases all_specs@.len() - i,
    {
        if is_needed(&all_specs[i], target_fn, all_functions, policy, &walk) {
            r.push(&all_specs[i]);
        }
        i += 1;
    }
    r
}

// ---------------------------------------------------------------------
// Laws of the walk
// ---------------------------------------------------------------------

/// Is the symbol among those seen, or that of a visited function?
pub open spec fn known(
    target: FunctionInfo,
    all: Seq<FunctionInfo>,
    seen: Seq<Seq<char>>,
    v: Seq<int>,
    s: Seq<char>,
) -> bool {
    seen.contains(s) || exists|b: int|
        0 <= b < v.len() && symbol_of(function_at(target, all, #[trigger] v[b])) == s
}

proof fn lemma_lookup(all: Seq<FunctionInfo>, name: Seq<char>, n: int)
    ensures
        by_mangled(all, name, n) matches Some(i) ==> 0 <= i < all.len(),
        by_name(all, name, n) matches Some(i) ==> 0 <= i < all.len(),
    decreases n,
{
    if 0 < n <= all.len() {
        lemma_lookup(all, name, n - 1);
    }
}

proof fn lemma_entered(
    calls: Seq<CalledFunction>,
    n: nat,
    all: Seq<FunctionInfo>,
    p: Option<&RecursionPolicy>,
)
    ensures
        forall|k: int|
            0 <= k < entered(calls, n, all, p).len() ==> 0 <= (#[trigger] entered(
                calls,
                n,
                all,
                p,
            )[k]) < all.len(),
    decreases n,
{
    if n > 0 {
        lemma_entered(calls, (n - 1) as nat, all, p);
        let c = calls[n - 1];
        lemma_lookup(all, c.mangled_name@, all.len() as int);
        lemma_lookup(all, c.name@, all.len() as int);
        let rest = entered(calls, (n - 1) as nat, all, p);
        assert forall|k: int| 0 <= k < entered(calls, n, all, p).len() implies 0 <= (
        #[trigger] entered(calls, n, all, p)[k]) < all.len() by {
            if k < rest.len() {
                assert(entered(calls, n, all, p)[k] == rest[k]);
            }
        }
    }
}

proof fn lemma_visits(
    target: FunctionInfo,
    all: Seq<FunctionInfo>,
    p: Option<&RecursionPolicy>,
    work: Seq<int>,
    seen: Seq<Seq<char>>,
)
    requires
        forall|k: int| 0 <= k < work.len() ==> 0 <= #[trigger] work[k] <= all.len(),
    ensures
        ({
            let v = visits(target, all, p, work, seen);
            &&& forall|k: int| 0 <= k < work.len() ==> known(
                target,
                all,
                seen,
                v,
                symbol_of(function_at(target, all, #[trigger] work[k])),
            )
            &&& forall|a: int, j: int|
                0 <= a < v.len() && #[trigger] callees(function_at(target, all, v[a]), all, p).contains(j)
                    ==> known(target, all, seen, v, symbol_of(function_at(target, all, j)))
            &&& forall|b: int|
                0 <= b < v.len() ==> 0 <= #[trigger] v[b] <= all.len() && !seen.contains(
                    symbol_of(function_at(target, all, v[b])),
                )
            &&& forall|a: int, b: int|
                0 <= a < b < v.len() ==> symbol_of(function_at(target, all, #[trigger] v[a]))
                    != symbol_of(function_at(target, all, #[trigger] v[b]))
            &&& forall|b: int|
                0 <= b < v.len() ==> work.contains(#[trigger] v[b]) || exists|a: int|
                    0 <= a < b && callees(function_at(target, all, #[trigger] v[a]), all, p).contains(
                        v[b],
                    )
        }),
    decreases unseen(target, all, seen, all.len() + 1), work.len(),
{
    let v = visits(target, all, p, work, seen);
    if work.len() > 0 {
        let i = work.last();
        let f = function_at(target, all, i);
        let s = symbol_of(f);
        if seen.contains(s) {
            let rest = work.drop_last();
            lemma_visits(target, all, p, rest, seen);
            assert forall|k: int| 0 <= k < work.len() implies known(
                target,
                all,
                seen,
                v,
                symbol_of(function_at(target, all, #[trigger] work[k])),
            ) by {
                if k < rest.len() {
                    assert(rest[k] == work[k]);
                }
            }
            assert forall|b: int| 0 <= b < v.len() implies work.contains(#[trigger] v[b]) || exists|
                a: int,
            |
                0 <= a < b && callees(function_at(target, all, #[trigger] v[a]), all, p).contains(
                    v[b],
                ) by {
                if rest.contains(v[b]) {
                    let k = choose|k: int| 0 <= k < rest.len() && rest[k] == v[b];
                    assert(work[k] == v[b]);
                }
            }
        } else {
            lemma_unseen(target, all, seen, s, all.len() + 1);
            let cs = callees(f, all, p);
            lemma_entered(f.called_functions@, f.called_functions@.len(), all, p);
            let next = work.drop_last() + cs;
            let more = seen.push(s);
            lemma_visits(target, all, p, next, more);
            let w = visits(target, all, p, next, more);
            assert(v == seq![i] + w);
            assert forall|t: Seq<char>| known(target, all, more, w, t) implies #[trigger] known(
                target,
                all,
                seen,
                v,
                t,
            ) by {
                if more.contains(t) {
                    let k = choose|k: int| 0 <= k < more.len() && more[k] == t;
                    if k < seen.len() {
                        assert(seen[k] == t);
                    } else {
                        assert(v[0] == i);
                    }
                } else {
                    let b = choose|b: int|
                        0 <= b < w.len() && symbol_of(function_at(target, all, #[trigger] w[b]))
                            == t;
                    assert(v[b + 1] == w[b]);
                }
            }
            assert forall|k: int| 0 <= k < work.len() implies known(
                target,
                all,
                seen,
                v,
                symbol_of(function_at(target, all, #[trigger] work[k])),
            ) by {
                if k < work.len() - 1 {
                    assert(next[k] == work[k]);
                    assert(known(target, all, more, w, symbol_of(function_at(target, all, next[k]))));
                } else {
                    assert(v[0] == i);
                }
            }
            assert forall|a: int, j: int|
                0 <= a < v.len() && #[trigger] callees(function_at(target, all, v[a]), all, p).contains(
                    j,
                ) implies known(target, all, seen, v, symbol_of(function_at(target, all, j))) by {
                if a == 0 {
                    let k = choose|k: int| 0 <= k < cs.len() && cs[k] == j;
                    assert(next[work.len() - 1 + k] == j);
                    assert(known(
                        target,
                        all,
                        more,
                        w,
                        symbol_of(function_at(target, all, next[work.len() - 1 + k])),
                    ));
                } else {
                    assert(v[a] == w[a - 1]);
                    assert(callees(function_at(target, all, w[a - 1]), all, p).contains(j));
                    assert(known(target, all, more, w, symbol_of(function_at(target, all, j))));
                }
            }
            assert forall|b: int| 0 <= b < v.len() implies 0 <= #[trigger] v[b] <= all.len()
                && !seen.contains(symbol_of(function_at(target, all, v[b]))) by {
                if b > 0 {
                    assert(v[b] == w[b - 1]);
                    let t = symbol_of(function_at(target, all, w[b - 1]));
                    if seen.contains(t) {
                        let k = choose|k: int| 0 <= k < seen.len() && seen[k] == t;
                        assert(more[k] == t);
                    }
                }
            }
            assert forall|a: int, b: int| 0 <= a < b < v.len() implies symbol_of(
                function_at(target, all, #[trigger] v[a]),
            ) != symbol_of(function_at(target, all, #[trigger] v[b])) by {
                assert(v[b] == w[b - 1]);
                if a == 0 {
                    assert(more[seen.len() as int] == s);
                } else {
                    assert(v[a] == w[a - 1]);
                }
            }
            assert forall|b: int| 0 <= b < v.len() implies work.contains(#[trigger] v[b]) || exists|
                a: int,
            |
                0 <= a < b && callees(function_at(target, all, #[trigger] v[a]), all, p).contains(
                    v[b],
                ) by {
                if b == 0 {
                    assert(work[work.len() - 1] == v[0]);
                } else {
                    assert(v[b] == w[b - 1]);
                    if next.contains(w[b - 1]) {
                        let k = choose|k: int| 0 <= k < next.len() && next[k] == w[b - 1];
                        if k < work.len() - 1 {
                            assert(work[k] == v[b]);
                        } else {
                            assert(cs[k - (work.len() - 1)] == v[b]);
                            assert(function_at(target, all, v[0]) == f);
                        }
                    } else {
                        let a = choose|a: int|
                            0 <= a < b - 1 && callees(
                                function_at(target, all, #[trigger] w[a]),
                                all,
                                p,
                            ).contains(w[b - 1]);
                        assert(v[a + 1] == w[a]);
                    }
                }
            }
        }
    }
}

/// The walk visits the verified function first, each symbol once, and
/// exactly what is reached: each further function is entered from an
/// earlier one, and what is entered from a visited function is visited,
/// or a function of the same symbol is.
pub proof fn law_walk_is_reachability(
    target: FunctionInfo,
    all: Seq<FunctionInfo>,
    p: Option<&RecursionPolicy>,
)
    ensures
        ({
            let v = walk_of(target, all, p);
            &&& v.len() > 0 && v[0] == all.len()
            &&& forall|a: int, b: int|
                0 <= a < b < v.len() ==> symbol_of(function_at(target, all, #[trigger] v[a]))
                    != symbol_of(function_at(target, all, #[trigger] v[b]))
            &&& forall|b: int|
                0 < b < v.len() ==> exists|a: int|
                    0 <= a < b && callees(function_at(target, all, #[trigger] v[a]), all, p).contains(
                        #[trigger] v[b],
                    )
            &&& forall|a: int, j: int|
                0 <= a < v.len() && #[trigger] callees(function_at(target, all, v[a]), all, p).contains(j)
                    ==> exists|b: int|
                    0 <= b < v.len() && symbol_of(function_at(target, all, #[trigger] v[b]))
                        == symbol_of(function_at(target, all, j))
        }),
{
    let start = seq![all.len() as int];
    let none = Seq::<Seq<char>>::empty();
    lemma_visits(target, all, p, start, none);
    let v = walk_of(target, all, p);
    assert(known(target, all, none, v, symbol_of(function_at(target, all, start[0]))));
    assert(v[0] == all.len()) by {
        let f = function_at(target, all, all.len() as int);
        assert(!none.contains(symbol_of(f)));
        assert(v == seq![all.len() as int] + visits(
            target,
            all,
            p,
            start.drop_last() + callees(f, all, p),
            none.push(symbol_of(f)),
        ));
    }
    assert forall|b: int| 0 < b < v.len() implies exists|a: int|
        0 <= a < b && callees(function_at(target, all, #[trigger] v[a]), all, p).contains(
            #[trigger] v[b],
        ) by {
        if start.contains(v[b]) {
            assert(v[b] == v[0]);
            assert(symbol_of(function_at(target, all, v[0])) != symbol_of(
                function_at(target, all, v[b]),
            ));
        }
    }
    assert forall|a: int, j: int|
        0 <= a < v.len() && #[trigger] callees(function_at(target, all, v[a]), all, p).contains(
            j,
        ) implies exists|b: int|
        0 <= b < v.len() && symbol_of(function_at(target, all, #[trigger] v[b])) == symbol_of(
            function_at(target, all, j),
        ) by {
        assert(known(target, all, none, v, symbol_of(function_at(target, all, j))));
    }
}

} // verus!
