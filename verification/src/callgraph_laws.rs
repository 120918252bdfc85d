//! Which functions are executed and which are overridden.

use vstd::prelude::*;

use crate::constraints::{FunctionInfo, SpecConstraint};
use crate::gen_verify_callgraph::{
    RecursionPolicy, calls_symbol, enters, function_at, is_external, needed, needs_override,
    specified, symbol_reached, walk_of,
};
use crate::text::starts;

verus! {

/// A function that is known is either executed or external, and never both:
/// what the proof does not step into it is given an override for.
pub proof fn law_executed_or_external(s: SpecConstraint, f: FunctionInfo, p: &RecursionPolicy)
    ensures
        enters(f, p) <==> !is_external(s, Some(f), p),
        enters(f, p) ==> f.has_body,
        !f.has_body ==> is_external(s, Some(f), p),
        f.is_system && p.no_system ==> !enters(f, p),
{
}

/// A function without a body that an executed function calls by its symbol
/// needs an override, unless it is virtual or built in.
pub proof fn law_called_without_body_needs_override(
    s: SpecConstraint,
    target: FunctionInfo,
    all: Seq<FunctionInfo>,
    p: &RecursionPolicy,
    k: int,
    c: int,
)
    requires
        s.mangled_name is Some,
        !s.is_virtual,
        !starts(s.function_name@, "__builtin_"@),
        !starts(s.mangled_name->0@, "__builtin_"@),
        specified(s, all) matches Some(f) ==> !f.is_virtual && !f.has_body,
        specified(s, all) is None ==> !s.has_body,
        0 <= k < walk_of(target, all, Some(p)).len(),
        ({
            let caller = function_at(target, all, walk_of(target, all, Some(p))[k]);
            0 <= c < caller.called_functions@.len() && caller.called_functions@[c].mangled_name@
                == s.mangled_name->0@
        }),
    ensures
        needs_override(s, target, all, p),
{
    let w = walk_of(target, all, Some(p));
    let caller = function_at(target, all, w[k]);
    assert(caller.called_functions@[c].mangled_name@ == s.mangled_name->0@);
    assert(calls_symbol(caller, s.mangled_name->0@));
    assert(symbol_reached(target, all, p, s.mangled_name->0@));
}

/// Every specification whose function needs an override is taken, and no
/// other.
pub proof fn law_needed_are_taken(
    specs: Seq<SpecConstraint>,
    n: nat,
    target: FunctionInfo,
    all: Seq<FunctionInfo>,
    p: &RecursionPolicy,
)
    requires
        n <= specs.len(),
    ensures
        forall|i: int|
            0 <= i < n && needs_override(#[trigger] specs[i], target, all, p) ==> needed(
                specs,
                n,
                target,
                all,
                p,
            ).contains(&specs[i]),
        forall|j: int|
            0 <= j < needed(specs, n, target, all, p).len() ==> needs_override(
                *#[trigger] needed(specs, n, target, all, p)[j],
                target,
                all,
                p,
            ),
    decreases n,
{
    if n > 0 {
        let m = (n - 1) as nat;
        law_needed_are_taken(specs, m, target, all, p);
        let rest = needed(specs, m, target, all, p);
        let now = needed(specs, n, target, all, p);
        assert forall|i: int|
            0 <= i < n && needs_override(#[trigger] specs[i], target, all, p) implies now.contains(
            &specs[i],
        ) by {
            if i < m {
                let k: int = choose|k: int| 0 <= k < rest.len() && rest[k] == &specs[i];
                assert(now[k] == &specs[i]);
            } else {
                assert(now[now.len() - 1] == &specs[i]);
            }
        }
    }
}

} // verus!
