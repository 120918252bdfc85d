//! What is generated for the verification of a C++ function.

use vstd::prelude::*;

use crate::constraints::{globals_view, FunctionInfo, GlobalVarInfo, GlobalView, SpecConstraint};
use crate::factory::{emit_interface_factory_spec, factory_text};
use crate::llvm_spec::{
    GeneratedFile, emit_operator_new_spec, emit_single_experimental_spec, files_view,
    operator_new_text, spec_file_name, unspecified_text,
};
use crate::names::{sanitized, spec_key};
use crate::text::{group_append, group_views, opt_string, owned, put3, same, views};
use crate::verify_script_steps::{interface_of, is_operator_new, operator_new, pointed_interface};

verus! {

/// Why a function cannot be verified.
#[derive(Debug, Clone, Copy, PartialEq, Eq, Structural)]
pub enum TargetError {
    /// The source has no such function.
    NoFunction,
    /// The function has no specification.
    NoSpec,
    /// The function has no symbol.
    NoSymbol,
}

/// Of the first `n` functions of the given name, the first that is not
/// virtual, else the first.
pub open spec fn chosen_function(v: Seq<FunctionInfo>, name: Seq<char>, n: nat) -> Option<int>
    decreases n,
{
    if n == 0 {
        None
    } else {
        let rest = chosen_function(v, name, (n - 1) as nat);
        let f = v[n - 1];
        if f.name@ != name {
            rest
        } else {
            match rest {
                Some(k) => if v[k].is_virtual && !f.is_virtual {
                    Some(n - 1)
                } else {
                    rest
                },
                None => Some(n - 1),
            }
        }
    }
}

/// Of the first `n` specifications of functions of the given name, the
/// first of one that is not virtual, else the first.
pub open spec fn chosen_spec(v: Seq<SpecConstraint>, name: Seq<char>, n: nat) -> Option<int>
    decreases n,
{
    if n == 0 {
        None
    } else {
        let rest = chosen_spec(v, name, (n - 1) as nat);
        let s = v[n - 1];
        if s.function_name@ != name {
            rest
        } else {
            match rest {
                Some(k) => if v[k].is_virtual && !s.is_virtual {
                    Some(n - 1)
                } else {
                    rest
                },
                None => Some(n - 1),
            }
        }
    }
}

/// A function that is not virtual is preferred to one that is.
pub proof fn law_plain_functions_win(v: Seq<FunctionInfo>, name: Seq<char>, n: nat)
    requires
        n <= v.len(),
    ensures
        chosen_function(v, name, n) is Some <==> exists|i: int|
            0 <= i < n && (#[trigger] v[i]).name@ == name,
        chosen_function(v, name, n) matches Some(k) ==> 0 <= k < n && v[k].name@ == name && (
        v[k].is_virtual ==> forall|i: int|
            0 <= i < n && (#[trigger] v[i]).name@ == name ==> v[i].is_virtual),
    decreases n,
{
    if n > 0 {
        law_plain_functions_win(v, name, (n - 1) as nat);
        assert(v[n - 1].name@ == name || v[n - 1].name@ != name);
    }
}

fn find_function(v: &[FunctionInfo], name: &str) -> (r: Option<usize>)
    ensures
        match r {
            Some(k) => k < v@.len() && chosen_function(v@, name@, v@.len()) == Some(k as int),
            None => chosen_function(v@, name@, v@.len()) is None,
        },
{
    let mut best: Option<usize> = None;
    let mut i: usize = 0;
    while i < v.len()
        invariant
            i <= v@.len(),
            match best {
                Some(k) => k < v@.len() && chosen_function(v@, name@, i as nat) == Some(k as int),
                None => chosen_function(v@, name@, i as nat) is None,
            },
        decreases v@.len() - i,
    {
        if same(v[i].name.as_str(), name) {
            let take = match best {
                Some(k) => v[k].is_virtual && !v[i].is_virtual,
                None => true,
            };
            if take {
                best = Some(i);
            }
        }
        i += 1;
    }
    best
}

fn find_spec(v: &[SpecConstraint], name: &str) -> (r: Option<usize>)
    ensures
        match r {
            Some(k) => k < v@.len() && chosen_spec(v@, name@, v@.len()) == Some(k as int),
            None => chosen_spec(v@, name@, v@.len()) is None,
        },
{
    let mut best: Option<usize> = None;
    let mut i: usize = 0;
    while i < v.len()
        invariant
            i <= v@.len(),
            match best {
                Some(k) => k < v@.len() && chosen_spec(v@, name@, i as nat) == Some(k as int),
                None => chosen_spec(v@, name@, i as nat) is None,
            },
        decreases v@.len() - i,
    {
        if same(v[i].function_name.as_str(), name) {
            let take = match best {
                Some(k) => v[k].is_virtual && !v[i].is_virtual,
                None => true,
            };
            if take {
                best = Some(i);
            }
        }
        i += 1;
    }
    best
}

/// The places of the verified function and of its specification.
pub open spec fn target_places(
    functions: Seq<FunctionInfo>,
    specs: Seq<SpecConstraint>,
    name: Seq<char>,
) -> Result<(int, int), TargetError> {
    match (
        chosen_function(functions, name, functions.len()),
        chosen_spec(specs, name, specs.len()),
    ) {
        (None, _) => Err(TargetError::NoFunction),
        (Some(_), None) => Err(TargetError::NoSpec),
        (Some(f), Some(s)) => if specs[s].mangled_name is None {
            Err(TargetError::NoSymbol)
        } else {
            Ok((f, s))
        },
    }
}

/// The places of the verified function and of its specification, which
/// has a symbol.
pub fn find_target(functions: &[FunctionInfo], specs: &[SpecConstraint], name: &str) -> (r: Result<
    (usize, usize),
    TargetError,
>)
    ensures
        match r {
            Ok((f, s)) => target_places(functions@, specs@, name@) == Ok::<(int, int), TargetError>(
                (f as int, s as int),
            ) && f < functions@.len() && s < specs@.len(),
            Err(e) => target_places(functions@, specs@, name@) == Err::<(int, int), TargetError>(e),
        },
{
    let f: usize = match find_function(functions, name) {
        Some(k) => k,
        None => {
            return Err(TargetError::NoFunction);
        },
    };
    let s: usize = match find_spec(specs, name) {
        Some(k) => k,
        None => {
            return Err(TargetError::NoSpec);
        },
    };
    if specs[s].mangled_name.is_none() {
        return Err(TargetError::NoSymbol);
    }
    Ok((f, s))
}

impl TargetError {
    /// What is said of the error.
    pub open spec fn text(self, function: Seq<char>) -> Seq<char> {
        match self {
            TargetError::NoFunction => "Function '"@ + function + "' not found in AST"@,
            TargetError::NoSpec => "Function '"@ + function + "' not found in AST"@,
            TargetError::NoSymbol => "No mangled name for '"@ + function + "'"@,
        }
    }

    /// Why a function without an implementation is not verified.
    pub open spec fn reason_text(self) -> Seq<char> {
        match self {
            TargetError::NoFunction => "No matching C++ implementation symbol found in clang AST — this is a Cryptol-only helper used by other models, with no implementation to verify against at this layer."@,
            TargetError::NoSpec => "Function found in AST but no constraint spec could be derived — treating as Cryptol-only helper."@,
            TargetError::NoSymbol => "No mangled name for function — likely an inline / template / header-only helper with no out-of-line symbol to verify."@,
        }
    }

    /// What is said of the error.
    pub fn message(&self, function: &str) -> (r: String)
        ensures
            r@ == self.text(function@),
    {
        broadcast use {group_append, group_views};
        let mut r = String::new();
        match self {
            TargetError::NoFunction => {
                put3(&mut r, "Function '", function, "' not found in AST");
            },
            TargetError::NoSpec => {
                put3(&mut r, "Function '", function, "' not found in AST");
            },
            TargetError::NoSymbol => {
                put3(&mut r, "No mangled name for '", function, "'");
            },
        }
        r
    }

    /// Why a function without an implementation is not verified.
    pub fn reason(&self) -> (r: String)
        ensures
            r@ == self.reason_text(),
    {
        match self {
            TargetError::NoFunction => owned("No matching C++ implementation symbol found in clang AST — this is a Cryptol-only helper used by other models, with no implementation to verify against at this layer."),
            TargetError::NoSpec => owned("Function found in AST but no constraint spec could be derived — treating as Cryptol-only helper."),
            TargetError::NoSymbol => owned("No mangled name for function — likely an inline / template / header-only helper with no out-of-line symbol to verify."),
        }
    }
}

// ---------------------------------------------------------------------
// External functions
// ---------------------------------------------------------------------

/// The first function from `i` on with the names of the specification.
pub open spec fn described(v: Seq<FunctionInfo>, s: SpecConstraint, i: int) -> Option<FunctionInfo>
    decreases v.len() - i,
{
    if i < 0 || i >= v.len() {
        None
    } else if v[i].name@ == s.function_name@ && opt_string(v[i].mangled_name) == opt_string(
        s.mangled_name,
    ) {
        Some(v[i])
    } else {
        described(v, s, i + 1)
    }
}

fn same_opt(a: &Option<String>, b: &Option<String>) -> (r: bool)
    ensures
        r == (opt_string(*a) == opt_string(*b)),
{
    match (a, b) {
        (None, None) => true,
        (Some(x), Some(y)) => same(x.as_str(), y.as_str()),
        _ => false,
    }
}

fn find_described<'a>(v: &'a [FunctionInfo], s: &SpecConstraint) -> (r: Option<&'a FunctionInfo>)
    ensures
        match r {
            Some(f) => described(v@, *s, 0) == Some(*f),
            None => described(v@, *s, 0) is None,
        },
{
    let mut i: usize = 0;
    while i < v.len()
        invariant
            i <= v@.len(),
            described(v@, *s, 0) == described(v@, *s, i as int),
        decreases v@.len() - i,
    {
        if same(v[i].name.as_str(), s.function_name.as_str()) && same_opt(
            &v[i].mangled_name,
            &s.mangled_name,
        ) {
            return Some(&v[i]);
        }
        i += 1;
    }
    None
}

/// The symbol of a specified function, else its name.
pub open spec fn covered_symbol(s: SpecConstraint) -> Seq<char> {
    match s.mangled_name {
        Some(m) => m@,
        None => s.function_name@,
    }
}

pub open spec fn covered_symbols(v: Seq<SpecConstraint>) -> Seq<Seq<char>> {
    Seq::new(v.len(), |i: int| covered_symbol(v[i]))
}

/// The symbols that the specifications cover: but for `memcmp`, no other
/// override is made for them.
pub fn already_covered(v: &[SpecConstraint]) -> (r: Vec<String>)
    ensures
        views(r@) == covered_symbols(v@),
{
    broadcast use {group_append, group_views};
    let mut r: Vec<String> = Vec::new();
    let mut i: usize = 0;
    while i < v.len()
        invariant
            i <= v@.len(),
            r@.len() == i,
            forall|k: int| 0 <= k < i ==> (#[trigger] r@[k])@ == covered_symbol(v@[k]),
        decreases v@.len() - i,
    {
        match &v[i].mangled_name {
            Some(m) => {
                r.push(m.clone());
            },
            None => {
                r.push(v[i].function_name.clone());
            },
        }
        i += 1;
    }
    assert(views(r@) =~= covered_symbols(v@));
    r
}

/// The file with the specification of an external function: the
/// allocation function has its own, a function that returns an interface
/// makes an object of it, and any other one does what its types allow.
#[verifier::opaque]
pub open spec fn external_file(
    s: SpecConstraint,
    functions: Seq<FunctionInfo>,
    classes: Seq<Seq<char>>,
    globals: Seq<GlobalView>,
) -> (Seq<char>, Seq<char>) {
    if operator_new(&s) {
        (
            "operator_new_auto_spec.saw"@,
            operator_new_text(
                match s.mangled_name {
                    Some(m) => m@,
                    None => "??2@YAPEAX_K@Z"@,
                },
            ),
        )
    } else {
        let iface = match described(functions, s, 0) {
            Some(f) => pointed_interface(f.return_type@, classes),
            None => None,
        };
        match iface {
            Some(class) => (
                spec_file_name(sanitized(spec_key(&s))),
                factory_text(&s, class, globals),
            ),
            None => (spec_file_name(sanitized(spec_key(&s))), unspecified_text(&s, globals)),
        }
    }
}

pub open spec fn external_files(
    v: Seq<SpecConstraint>,
    functions: Seq<FunctionInfo>,
    classes: Seq<Seq<char>>,
    globals: Seq<GlobalView>,
) -> Seq<(Seq<char>, Seq<char>)> {
    Seq::new(v.len(), |i: int| external_file(v[i], functions, classes, globals))
}

fn emit_external_spec(
    s: &SpecConstraint,
    functions: &[FunctionInfo],
    interface_classes: &[String],
    all_globals: &[GlobalVarInfo],
) -> (r: GeneratedFile)
    ensures
        r@ == external_file(
            *s,
            functions@,
            views(interface_classes@),
            globals_view(all_globals@),
        ),
{
    reveal(external_file);
    if is_operator_new(s) {
        let mangled = match &s.mangled_name {
            Some(m) => m.as_str(),
            None => "??2@YAPEAX_K@Z",
        };
        return emit_operator_new_spec(mangled);
    }
    let iface = match find_described(functions, s) {
        Some(f) => interface_of(&f.return_type, interface_classes),
        None => None,
    };
    match iface {
        Some(class) => emit_interface_factory_spec(s, class.as_str(), all_globals),
        None => emit_single_experimental_spec(s, all_globals),
    }
}

/// The files with the specifications of the external functions, in order.
pub fn emit_external_specs(
    external_calls: &[SpecConstraint],
    functions: &[FunctionInfo],
    interface_classes: &[String],
    all_globals: &[GlobalVarInfo],
) -> (r: Vec<GeneratedFile>)
    ensures
        files_view(r@) == external_files(
            external_calls@,
            functions@,
            views(interface_classes@),
            globals_view(all_globals@),
        ),
{
    let ghost want = external_files(
        external_calls@,
        functions@,
        views(interface_classes@),
        globals_view(all_globals@),
    );
    let mut r: Vec<GeneratedFile> = Vec::new();
    let mut i: usize = 0;
    while i < external_calls.len()
        invariant
            want == external_files(
                external_calls@,
                functions@,
                views(interface_classes@),
                globals_view(all_globals@),
            ),
            i <= external_calls@.len(),
            r@.len() == i,
            forall|k: int| 0 <= k < i ==> (#[trigger] r@[k])@ == want[k],
        decreases external_calls@.len() - i,
    {
        r.push(emit_external_spec(&external_calls[i], functions, interface_classes, all_globals));
        i += 1;
    }
    assert(files_view(r@) =~= want);
    r
}

} // verus!
