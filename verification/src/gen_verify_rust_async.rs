//! Verification of asynchronous Rust functions: the compiled function
//! that is verified is the one that resumes the coroutine.

use vstd::prelude::*;
use vstd::utf8::*;

use crate::constraints::{functions_view, FunctionInfo, FunctionView};
use crate::gen_verify_rust::{
    name_suffix, verify_params_view, RustVerifyParam, VerifyParamView,
};
use crate::ir_layout::IrError;
use crate::llvm_ir::{extract_functions, ir_functions};
use crate::text::{
    CharSet, contains, dec, find, from_chars, group_append, group_views, in_turn, join, joined,
    lemma_append_assoc, lemma_append_nothing, lemma_find_from, lemma_in_turn, lines, lines_of,
    list_has, mentions, nil, only_if, opt_string, owned, position, put, put3, put5, put6, put7,
    put_dec, same, starts, starts_with, to_chars, trim, trim_start, trim_text, trimmed_start,
    views,
};
use crate::unicode::{is_alphanumeric, letter_or_digit};
use crate::verify_script_steps::{call_text, make_call};

verus! {

/// What is known of the function that resumes a coroutine.
#[derive(Debug)]
pub struct AsyncResumeInfo {
    pub resume_symbol: String,
    /// The functions that poll the futures awaited in the body.
    pub sub_await_stubs: Vec<String>,
    /// The parameters of the asynchronous function.
    pub original_params: Vec<RustVerifyParam>,
    /// The width of its result.
    pub return_bits: u32,
}

/// Why the function cannot be told.
#[derive(Debug, Clone, Copy, PartialEq, Eq, Structural)]
pub enum ResumeError {
    /// A type has no layout.
    Ir(IrError),
    /// No defined function resumes such a coroutine.
    NoResume,
}

/// The number of occurrences of `NC` from `i` on that do not overlap.
pub open spec fn nesting_from(s: Seq<char>, i: int) -> nat
    decreases s.len() - i,
{
    if i < 0 || i + 1 >= s.len() {
        0
    } else if s[i] == 'N' && s[i + 1] == 'C' {
        1 + nesting_from(s, i + 2)
    } else {
        nesting_from(s, i + 1)
    }
}

/// How deep the coroutine is nested in others.
pub open spec fn nesting(s: Seq<char>) -> nat {
    nesting_from(s, 0)
}

fn nc_depth(name: &str) -> (r: usize)
    ensures
        r == nesting(name@),
{
    let cs = to_chars(name);
    let n: usize = cs.len();
    let mut count: usize = 0;
    let mut i: usize = 0;
    while i < n && i + 1 < n
        invariant
            cs@ == name@,
            n == cs@.len(),
            count <= i <= n,
            count + nesting_from(name@, i as int) == nesting(name@),
        decreases n - i,
    {
        if cs[i] == 'N' && cs[i + 1] == 'C' {
            count += 1;
            i += 2;
        } else {
            i += 1;
        }
    }
    count
}

/// Does the function resume a coroutine of the given name?
pub open spec fn resumes(f: FunctionView, needle: Seq<char>) -> bool {
    f.has_body && starts(f.name, "_RNC"@) && mentions(f.name, needle)
}

/// Is the first function nested less deeply, or just as deeply under a
/// shorter name?
pub open spec fn nearer(a: Seq<char>, b: Seq<char>) -> bool {
    nesting(a) < nesting(b) || (nesting(a) == nesting(b) && encode_utf8(a).len() < encode_utf8(
        b,
    ).len())
}

/// The nearest of the first `n` functions that resume the coroutine; the
/// first of several.
pub open spec fn nearest(fs: Seq<FunctionView>, needle: Seq<char>, n: nat) -> Option<Seq<char>>
    decreases n,
{
    if n == 0 {
        None
    } else {
        let rest = nearest(fs, needle, (n - 1) as nat);
        let f = fs[n - 1];
        if resumes(f, needle) {
            match rest {
                Some(best) => if nearer(f.name, best) {
                    Some(f.name)
                } else {
                    rest
                },
                None => Some(f.name),
            }
        } else {
            rest
        }
    }
}

/// No function that resumes the coroutine is nearer than the one chosen.
pub proof fn law_nearest(fs: Seq<FunctionView>, needle: Seq<char>, n: nat)
    requires
        n <= fs.len(),
    ensures
        nearest(fs, needle, n) is Some <==> exists|i: int|
            0 <= i < n && resumes(#[trigger] fs[i], needle),
        nearest(fs, needle, n) matches Some(best) ==> {
            &&& exists|i: int| 0 <= i < n && resumes(#[trigger] fs[i], needle) && fs[i].name == best
            &&& forall|i: int|
                0 <= i < n && resumes(#[trigger] fs[i], needle) ==> !nearer(fs[i].name, best)
        },
    decreases n,
{
    if n > 0 {
        law_nearest(fs, needle, (n - 1) as nat);
        assert(resumes(fs[n - 1], needle) || !resumes(fs[n - 1], needle));
    }
}

fn find_nearest(funcs: &Vec<FunctionInfo>, needle: &str) -> (r: Option<String>)
    ensures
        opt_string(r) == nearest(functions_view(funcs@), needle@, funcs@.len()),
{
    let ghost fs = functions_view(funcs@);
    let mut best: Option<String> = None;
    let mut i: usize = 0;
    while i < funcs.len()
        invariant
            fs == functions_view(funcs@),
            i <= funcs@.len(),
            opt_string(best) == nearest(fs, needle@, i as nat),
        decreases funcs@.len() - i,
    {
        assert(fs[i as int] == funcs@[i as int]@);
        let f = &funcs[i];
        let name = f.name.as_str();
        if f.has_body && starts_with(name, "_RNC") && contains(name, needle) {
            let take = match &best {
                Some(b) => {
                    let old_depth: usize = nc_depth(b.as_str());
                    let new_depth: usize = nc_depth(name);
                    new_depth < old_depth || (new_depth == old_depth && name.as_bytes().len()
                        < b.as_str().as_bytes().len())
                },
                None => true,
            };
            if take {
                best = Some(owned(name));
            }
        }
        i += 1;
    }
    best
}

// ---------------------------------------------------------------------
// Awaited futures
// ---------------------------------------------------------------------

/// Can the character stand in a symbol?
pub open spec fn symbol_char(c: char) -> bool {
    letter_or_digit(c) || c == '_' || c == '$' || c == '.'
}

/// The first position from `i` on whose character cannot stand in a
/// symbol.
pub open spec fn symbol_end(s: Seq<char>, i: int) -> Option<int>
    decreases s.len() - i,
{
    if i < 0 || i >= s.len() {
        None
    } else if symbol_char(s[i]) {
        symbol_end(s, i + 1)
    } else {
        Some(i)
    }
}

/// The function that a line calls, where it resumes a coroutine.
pub open spec fn call_target(line: Seq<char>) -> Option<Seq<char>> {
    match find(line, "@_RNC"@) {
        Some(at) => match symbol_end(line, at + 1) {
            Some(end) => Some(line.subrange(at + 1, end)),
            None => None,
        },
        None => None,
    }
}

fn extract_call_target(line: &str) -> (r: Option<String>)
    ensures
        opt_string(r) == call_target(line@),
{
    proof {
        reveal_strlit("@_RNC");
        lemma_find_from(line@, "@_RNC"@, 0);
    }
    match position(line, "@_RNC") {
        Some(at) => {
            let cs = to_chars(line);
            let n: usize = cs.len();
            let mut i: usize = at + 1;
            while i < n
                invariant
                    cs@ == line@,
                    n == cs@.len(),
                    at + 1 <= i <= n,
                    find(line@, "@_RNC"@) == Some(at as int),
                    symbol_end(line@, at + 1) == symbol_end(line@, i as int),
                decreases n - i,
            {
                let c: char = cs[i];
                if !(is_alphanumeric(c) || c == '_' || c == '$' || c == '.') {
                    return Some(from_chars(&cs, at + 1, i));
                }
                i += 1;
            }
            None
        },
        None => None,
    }
}

/// Does the line begin the definition of the function?
pub open spec fn begins(line: Seq<char>, symbol: Seq<char>) -> bool {
    starts(line, "define "@) && mentions(line, "@"@ + symbol)
}

/// Whether the first `n` lines end within the function, and the functions
/// that it calls in them, each once.
pub open spec fn awaited(lines: Seq<Seq<char>>, n: nat, symbol: Seq<char>) -> (bool, Seq<Seq<char>>)
    decreases n,
{
    if n == 0 {
        (false, Seq::empty())
    } else {
        let (inside, found) = awaited(lines, (n - 1) as nat, symbol);
        let t = trim_text(lines[n - 1]);
        if begins(t, symbol) {
            (true, found)
        } else if inside && t == "}"@ {
            (false, found)
        } else if !inside || !mentions(t, "@_RNC"@) {
            (inside, found)
        } else {
            match call_target(t) {
                Some(callee) => if callee != symbol && !found.contains(callee) {
                    (inside, found.push(callee))
                } else {
                    (inside, found)
                },
                None => (inside, found),
            }
        }
    }
}

/// Each awaited function is listed once, and the function itself is not.
pub proof fn law_awaited_once(lines: Seq<Seq<char>>, n: nat, symbol: Seq<char>)
    ensures
        awaited(lines, n, symbol).1.no_duplicates(),
        !awaited(lines, n, symbol).1.contains(symbol),
    decreases n,
{
    if n > 0 {
        law_awaited_once(lines, (n - 1) as nat, symbol);
    }
}

fn detect_sub_await_stubs(ir: &str, resume_symbol: &str) -> (r: Vec<String>)
    ensures
        views(r@) == awaited(lines_of(ir@), lines_of(ir@).len(), resume_symbol@).1,
{
    broadcast use {group_append, group_views};
    let all = lines(ir);
    let ghost v = lines_of(ir@);
    let mut marker = owned("@");
    put(&mut marker, resume_symbol);
    let mut inside = false;
    let mut stubs: Vec<String> = Vec::new();
    let mut i: usize = 0;
    while i < all.len()
        invariant
            v == views(all@),
            marker@ == "@"@ + resume_symbol@,
            i <= all@.len(),
            (inside, views(stubs@)) == awaited(v, i as nat, resume_symbol@),
        decreases all@.len() - i,
    {
        assert(v[i as int] == all@[i as int]@);
        let t = trim(all[i].as_str());
        if starts_with(t, "define ") && contains(t, marker.as_str()) {
            inside = true;
        } else if inside && same(t, "}") {
            inside = false;
        } else if inside && contains(t, "@_RNC") {
            if let Some(callee) = extract_call_target(t) {
                if !same(callee.as_str(), resume_symbol) && !list_has(&stubs, callee.as_str()) {
                    stubs.push(callee);
                }
            }
        }
        i += 1;
    }
    stubs
}

/// The function that resumes the coroutine of an asynchronous function:
/// of the defined functions whose names say so, the nearest one. The
/// parameters and the width of the result are those of the asynchronous
/// function.
pub fn resolve_resume_symbol(
    ir: &str,
    function: &str,
    original_params: Vec<RustVerifyParam>,
    return_bits: u32,
) -> (r: Result<AsyncResumeInfo, ResumeError>)
    ensures
        match ir_functions(ir@, None) {
            Err(e) => r == Err::<AsyncResumeInfo, ResumeError>(ResumeError::Ir(e)),
            Ok(fs) => match nearest(fs, name_suffix(function@), fs.len()) {
                None => r == Err::<AsyncResumeInfo, ResumeError>(ResumeError::NoResume),
                Some(symbol) => r matches Ok(info) && info.resume_symbol@ == symbol && views(
                    info.sub_await_stubs@,
                ) == awaited(lines_of(ir@), lines_of(ir@).len(), symbol).1 && info.original_params
                    == original_params && info.return_bits == return_bits,
            },
        },
{
    let funcs = match extract_functions(ir, None) {
        Ok(f) => f,
        Err(e) => {
            return Err(ResumeError::Ir(e));
        },
    };
    let mut needle = String::new();
    put_dec(&mut needle, function.as_bytes().len() as u128);
    put(&mut needle, function);
    match find_nearest(&funcs, needle.as_str()) {
        Some(resume_symbol) => {
            let sub_await_stubs = detect_sub_await_stubs(ir, resume_symbol.as_str());
            Ok(AsyncResumeInfo { resume_symbol, sub_await_stubs, original_params, return_bits })
        },
        None => Err(ResumeError::NoResume),
    }
}

/// What is said of the error.
pub open spec fn resume_error_text(e: ResumeError, function: Seq<char>) -> Seq<char> {
    match e {
        ResumeError::Ir(IrError::EndlessStruct) => "parsing LLVM IR for async resume target: a struct type contains itself"@,
        ResumeError::Ir(IrError::SizeTooLarge) => "parsing LLVM IR for async resume target: a type exceeds the address space"@,
        ResumeError::NoResume => "No coroutine resume symbol found for `"@ + function
            + "` (looked for `_RNC`-prefixed symbols containing `"@ + name_suffix(function)
            + "`).\n"@ + "Make sure:\n"@ + "  1. The function is declared `async fn`.\n"@
            + "  2. `--llvm-ir` points at the disassembled `.bc` for the same crate.\n"@
            + "  3. The crate was compiled with debug info / no LTO stripping."@,
    }
}

impl ResumeError {
    /// What is said of the error.
    pub fn message(&self, function: &str) -> (r: String)
        ensures
            r@ == resume_error_text(*self, function@),
    {
        broadcast use {group_append, group_views};
        let mut needle = String::new();
        put_dec(&mut needle, function.as_bytes().len() as u128);
        put(&mut needle, function);
        let mut r = String::new();
        match self {
            ResumeError::Ir(IrError::EndlessStruct) => {
                put(
                    &mut r,
                    "parsing LLVM IR for async resume target: a struct type contains itself",
                );
            },
            ResumeError::Ir(IrError::SizeTooLarge) => {
                put(
                    &mut r,
                    "parsing LLVM IR for async resume target: a type exceeds the address space",
                );
            },
            ResumeError::NoResume => {
                put5(
                    &mut r,
                    "No coroutine resume symbol found for `",
                    function,
                    "` (looked for `_RNC`-prefixed symbols containing `",
                    needle.as_str(),
                    "`).\n",
                );
                put(&mut r, "Make sure:\n");
                put(&mut r, "  1. The function is declared `async fn`.\n");
                put(
                    &mut r,
                    "  2. `--llvm-ir` points at the disassembled `.bc` for the same crate.\n",
                );
                put(&mut r, "  3. The crate was compiled with debug info / no LTO stripping.");
            },
        }
        r
    }
}

// ---------------------------------------------------------------------
// The script
// ---------------------------------------------------------------------

/// A character as it stands in an identifier.
pub open spec fn ident_char(c: char) -> char {
    if letter_or_digit(c) || c == '_' {
        c
    } else {
        '_'
    }
}

/// A symbol as an identifier of SAW, without leading underscores.
pub open spec fn ident_of(mangled: Seq<char>) -> Seq<char> {
    trimmed_start(mangled.map_values(|c: char| ident_char(c)), CharSet::Is('_'))
}

/// A symbol as an identifier of SAW, without leading underscores.
pub fn sanitize_ident(mangled: &str) -> (r: String)
    ensures
        r@ == ident_of(mangled@),
{
    broadcast use {group_append, group_views};
    let cs = to_chars(mangled);
    let ghost want = mangled@.map_values(|c: char| ident_char(c));
    let mut s = String::new();
    let mut i: usize = 0;
    while i < cs.len()
        invariant
            cs@ == mangled@,
            want == mangled@.map_values(|c: char| ident_char(c)),
            i <= cs@.len(),
            s@ == want.take(i as int),
        decreases cs@.len() - i,
    {
        let c: char = cs[i];
        assert(want.take(i + 1) =~= want.take(i as int).push(ident_char(c)));
        if is_alphanumeric(c) || c == '_' {
            s.push(c);
        } else {
            s.push('_');
        }
        i += 1;
    }
    assert(want.take(want.len() as int) =~= want);
    owned(trim_start(s.as_str(), CharSet::Is('_')))
}

/// The type of MIR for an integer of the given width.
pub open spec fn mir_int(bits: u32) -> Seq<char> {
    if bits == 1 {
        "mir_bool"@
    } else {
        "mir_u"@ + dec(bits as nat)
    }
}

/// The type of MIR for an integer of the given width.
pub fn bits_to_mir_type(bits: u32) -> (r: String)
    ensures
        r@ == mir_int(bits),
{
    broadcast use {group_append, group_views};
    if bits == 1 {
        owned("mir_bool")
    } else {
        let mut r = String::new();
        put(&mut r, "mir_u");
        put_dec(&mut r, bits as u128);
        r
    }
}

/// The specifications that stand for the awaited futures.
pub open spec fn await_stubs_item(s: String) -> Seq<char> {
    let safe = ident_of(s@);
    "let "@ + safe + "_stub_spec = do {\n"@
        + "    // TODO: tighten — currently havocs all state.\n"@
        + "    mir_execute_func [];\n"@ + "};\n"@ + safe + "_ov <- mir_unsafe_assume_spec m \""@
        + s@ + "\" "@ + safe + "_stub_spec;\n\n"@
}

fn put_await_stubs_item(out: &mut String, s: &String)
    ensures
        final(out)@ == old(out)@ + await_stubs_item(*s),
{
    broadcast use {group_append, group_views};
    let safe_name = sanitize_ident(s.as_str());
    let safe = safe_name.as_str();
    put3(out, "let ", safe, "_stub_spec = do {\n");
    put(out, "    // TODO: tighten — currently havocs all state.\n");
    put(out, "    mir_execute_func [];\n");
    put(out, "};\n");
    put6(
        out,
        safe,
        "_ov <- mir_unsafe_assume_spec m \"",
        s.as_str(),
        "\" ",
        safe,
        "_stub_spec;\n\n",
    );
}

/// The specifications that stand for the awaited futures.
pub open spec fn await_stubs(v: Seq<String>) -> Seq<char>
    decreases v.len(),
{
    if v.len() == 0 {
        nil()
    } else {
        await_stubs(v.drop_last()) + await_stubs_item(v.last())
    }
}

/// The specifications that stand for the awaited futures.
fn put_await_stubs(out: &mut String, v: &[String])
    ensures
        final(out)@ == old(out)@ + await_stubs(v@),
{
    broadcast use lemma_append_nothing;
    let mut i: usize = 0;
    assert(await_stubs(v@.take(0)) =~= nil());
    while i < v.len()
        invariant
            i <= v@.len(),
            out@ == old(out)@ + await_stubs(v@.take(i as int)),
        decreases v@.len() - i,
    {
        proof {
            assert(v@.take(i + 1).drop_last() =~= v@.take(i as int));
            lemma_append_assoc(old(out)@, await_stubs(v@.take(i as int)), await_stubs_item(v@[i as int]));
        }
        put_await_stubs_item(out, &v[i]);
        i += 1;
    }
    assert(v@.take(v@.len() as int) =~= v@);
}

/// The variables for the arguments.
pub open spec fn async_params_item(p: VerifyParamView) -> Seq<char> {
    "    "@ + p.name + " <- mir_fresh_var \""@ + p.name + "\" ("@ + mir_int(p.bits) + ");\n"@
}

fn put_async_params_item(out: &mut String, p: &RustVerifyParam)
    ensures
        final(out)@ == old(out)@ + async_params_item(p@),
{
    broadcast use {group_append, group_views};
    let name = p.name.as_str();
    put7(
        out,
        "    ",
        name,
        " <- mir_fresh_var \"",
        name,
        "\" (",
        bits_to_mir_type(p.bits).as_str(),
        ");\n",
    );
}

/// The variables for the arguments.
pub open spec fn async_params(v: Seq<VerifyParamView>) -> Seq<char>
    decreases v.len(),
{
    if v.len() == 0 {
        nil()
    } else {
        async_params(v.drop_last()) + async_params_item(v.last())
    }
}

/// The variables for the arguments.
fn put_async_params(out: &mut String, v: &[RustVerifyParam])
    ensures
        final(out)@ == old(out)@ + async_params(verify_params_view(v@)),
{
    broadcast use lemma_append_nothing;
    let ghost w = verify_params_view(v@);
    let mut i: usize = 0;
    assert(async_params(w.take(0)) =~= nil());
    while i < v.len()
        invariant
            w == verify_params_view(v@),
            i <= v@.len(),
            out@ == old(out)@ + async_params(w.take(i as int)),
        decreases v@.len() - i,
    {
        proof {
            assert(w.take(i + 1).drop_last() =~= w.take(i as int));
            assert(w.take(i + 1).last() == v@[i as int]@);
            lemma_append_assoc(old(out)@, async_params(w.take(i as int)), async_params_item(w[i as int]));
        }
        put_async_params_item(out, &v[i]);
        i += 1;
    }
    assert(w.take(w.len() as int) =~= w);
}

/// The name of the override of an awaited function.
pub open spec fn await_override(s: Seq<char>) -> Seq<char> {
    ident_of(s) + "_ov"@
}

pub open spec fn await_overrides(v: Seq<Seq<char>>) -> Seq<Seq<char>> {
    Seq::new(v.len(), |i: int| await_override(v[i]))
}

pub open spec fn param_names(v: Seq<VerifyParamView>) -> Seq<Seq<char>> {
    Seq::new(v.len(), |i: int| v[i].name)
}

fn make_await_overrides(v: &Vec<String>) -> (r: Vec<String>)
    ensures
        views(r@) == await_overrides(views(v@)),
{
    broadcast use {group_append, group_views};
    let mut r: Vec<String> = Vec::new();
    let ghost want = await_overrides(views(v@));
    let mut i: usize = 0;
    while i < v.len()
        invariant
            want == await_overrides(views(v@)),
            i <= v@.len(),
            r@.len() == i,
            forall|k: int| 0 <= k < i ==> (#[trigger] r@[k])@ == want[k],
        decreases v@.len() - i,
    {
        assert(views(v@)[i as int] == v@[i as int]@);
        let mut name = sanitize_ident(v[i].as_str());
        put(&mut name, "_ov");
        r.push(name);
        i += 1;
    }
    assert(views(r@) =~= want);
    r
}

fn make_param_names(v: &Vec<RustVerifyParam>) -> (r: Vec<String>)
    ensures
        views(r@) == param_names(verify_params_view(v@)),
{
    broadcast use {group_append, group_views};
    let mut r: Vec<String> = Vec::new();
    let ghost want = param_names(verify_params_view(v@));
    let mut i: usize = 0;
    while i < v.len()
        invariant
            want == param_names(verify_params_view(v@)),
            i <= v@.len(),
            r@.len() == i,
            forall|k: int| 0 <= k < i ==> (#[trigger] r@[k])@ == want[k],
        decreases v@.len() - i,
    {
        r.push(v[i].name.clone());
        i += 1;
    }
    assert(views(r@) =~= want);
    r
}

/// The head of the script.
pub open spec fn async_head(
    function: Seq<char>,
    cryptol_fn: Seq<char>,
    mir_module: Seq<char>,
    cry_name: Seq<char>,
    resume: Seq<char>,
) -> Seq<char> {
    "// Auto-generated by `saw-spec-gen gen-verify-rust --async`.\n"@
        + "// Verifies that the async fn `"@ + function + "` (resume body) matches\n"@
        + "// the Cryptol spec `"@ + cryptol_fn + "`.\n"@ + "//\n"@ + "// Resume symbol  : "@
        + resume + "\n"@ + "//\n"@
        + "// Run with `mir_load_module` using the `.linked-mir.json` produced\n"@
        + "// by `cargo-saw-build` or `mir-json --link-mir`.\n\n"@ + "m <- mir_load_module \""@
        + mir_module + "\";\n\n"@ + "import \""@ + cry_name + "\";\n\n"@
}

/// The statements that make the coroutine and call it.
pub open spec fn async_call(function: Seq<char>, overrides: Seq<Seq<char>>) -> Seq<char> {
    let note = only_if(
        overrides.len() > 0,
        "    // Sub-poll overrides: "@ + joined(overrides, ", "@) + "\n"@,
    );
    "    // Allocate the coroutine struct at the initial discriminant\n"@
        + "    // (0 = not-yet-started state).\n"@
        + "    // NOTE: Replace the ADT path with the fully-qualified name from\n"@
        + "    //       `mir_find_adt m` — e.g. `\"my_crate::decide::{coroutine#0}\"`.\n"@
        + "    self_ref <- mir_alloc (mir_find_adt m \""@ + function
        + "::{coroutine#0}\");\n\n"@
        + "    // Allocate a waker Context — only its address is used by a leaf\n"@
        + "    // async fn that never drives a sub-future's poll.\n"@
        + "    cx_ref <- mir_alloc (mir_find_adt m \"core::task::wake::Context\");\n\n"@
        + "    // Pin<&mut Coroutine> is erased at MIR level; pass self_ref directly.\n"@ + note
        + "    mir_execute_func [self_ref, cx_ref];\n\n"@
}

/// The statement of what the call returns.
pub open spec fn async_return(call: Seq<char>) -> Seq<char> {
    "    // Assert Poll::Ready(result) == model(args).\n"@
        + "    // `Ready` is the Cryptol constructor for Poll::Ready (discriminant 0).\n"@
        + "    // If your spec returns T directly instead of Poll<T>, remove `Ready`.\n"@
        + "    mir_return (mir_term {{ Ready ("@ + call + ") }});\n"@ + "};\n\n"@
}

/// The step that verifies.
pub open spec fn async_verify(
    function: Seq<char>,
    resume: Seq<char>,
    overrides: Seq<Seq<char>>,
) -> Seq<char> {
    "print \"BEGIN_PROOF "@ + function + "\";\n"@ + "mir_verify m \""@ + resume + "\" ["@
        + joined(overrides, ", "@) + "] false "@ + function + "_async_spec z3;\n"@
        + "print \"PROVED "@ + function + "\";\n"@ + "print \"VERIFIED\";\n"@
}

/// The script that verifies an asynchronous function.
pub open spec fn async_script(
    function: Seq<char>,
    cryptol_fn: Seq<char>,
    mir_module: Seq<char>,
    cry_name: Seq<char>,
    info: &AsyncResumeInfo,
) -> Seq<char> {
    let overrides = await_overrides(views(info.sub_await_stubs@));
    let params = verify_params_view(info.original_params@);
    let stubs_note = only_if(
        info.sub_await_stubs@.len() > 0,
        "// mir_unsafe_assume_spec stubs for .await sub-poll callees.\n"@,
    );
    let blank = only_if(info.original_params@.len() > 0, "\n"@);
    async_head(function, cryptol_fn, mir_module, cry_name, info.resume_symbol@) + stubs_note
        + await_stubs(info.sub_await_stubs@) + "let "@ + function + "_async_spec = do {\n"@
        + async_params(params) + blank + async_call(function, overrides)
        + async_return(call_text(cryptol_fn, param_names(params)))
        + async_verify(function, info.resume_symbol@, overrides)
}

fn put_async_head(
    out: &mut String,
    function: &str,
    cryptol_fn: &str,
    mir_module: &str,
    cry_name: &str,
    resume: &str,
)
    ensures
        final(out)@ == old(out)@ + async_head(
            function@,
            cryptol_fn@,
            mir_module@,
            cry_name@,
            resume@,
        ),
{
    broadcast use {group_append, group_views};
    put(out, "// Auto-generated by `saw-spec-gen gen-verify-rust --async`.\n");
    put3(out, "// Verifies that the async fn `", function, "` (resume body) matches\n");
    put3(out, "// the Cryptol spec `", cryptol_fn, "`.\n");
    put(out, "//\n");
    put3(out, "// Resume symbol  : ", resume, "\n");
    put(out, "//\n");
    put(out, "// Run with `mir_load_module` using the `.linked-mir.json` produced\n");
    put(out, "// by `cargo-saw-build` or `mir-json --link-mir`.\n\n");
    put3(out, "m <- mir_load_module \"", mir_module, "\";\n\n");
    put3(out, "import \"", cry_name, "\";\n\n");
}

fn put_async_call(out: &mut String, function: &str, overrides: &Vec<String>)
    ensures
        final(out)@ == old(out)@ + async_call(function@, views(overrides@)),
{
    broadcast use {group_append, group_views};
    put(out, "    // Allocate the coroutine struct at the initial discriminant\n");
    put(out, "    // (0 = not-yet-started state).\n");
    put(out, "    // NOTE: Replace the ADT path with the fully-qualified name from\n");
    put(out, "    //       `mir_find_adt m` — e.g. `\"my_crate::decide::{coroutine#0}\"`.\n");
    put3(out, "    self_ref <- mir_alloc (mir_find_adt m \"", function, "::{coroutine#0}\");\n\n");
    put(out, "    // Allocate a waker Context — only its address is used by a leaf\n");
    put(out, "    // async fn that never drives a sub-future's poll.\n");
    put(out, "    cx_ref <- mir_alloc (mir_find_adt m \"core::task::wake::Context\");\n\n");
    put(out, "    // Pin<&mut Coroutine> is erased at MIR level; pass self_ref directly.\n");
    if overrides.len() > 0 {
        put3(out, "    // Sub-poll overrides: ", join(overrides, ", ").as_str(), "\n");
    }
    put(out, "    mir_execute_func [self_ref, cx_ref];\n\n");
}

fn put_async_return(out: &mut String, call: &str)
    ensures
        final(out)@ == old(out)@ + async_return(call@),
{
    broadcast use {group_append, group_views};
    put(out, "    // Assert Poll::Ready(result) == model(args).\n");
    put(out, "    // `Ready` is the Cryptol constructor for Poll::Ready (discriminant 0).\n");
    put(out, "    // If your spec returns T directly instead of Poll<T>, remove `Ready`.\n");
    put3(out, "    mir_return (mir_term {{ Ready (", call, ") }});\n");
    put(out, "};\n\n");
}

fn put_async_verify(out: &mut String, function: &str, resume: &str, overrides: &Vec<String>)
    ensures
        final(out)@ == old(out)@ + async_verify(function@, resume@, views(overrides@)),
{
    broadcast use {group_append, group_views};
    put3(out, "print \"BEGIN_PROOF ", function, "\";\n");
    put7(
        out,
        "mir_verify m \"",
        resume,
        "\" [",
        join(overrides, ", ").as_str(),
        "] false ",
        function,
        "_async_spec z3;\n",
    );
    put3(out, "print \"PROVED ", function, "\";\n");
    put(out, "print \"VERIFIED\";\n");
}

/// The script that verifies an asynchronous function.
pub fn emit_async_mir_saw_script(
    function: &str,
    cryptol_fn: &str,
    mir_module: &str,
    cry_name: &str,
    info: &AsyncResumeInfo,
) -> (r: String)
    ensures
        r@ == async_script(function@, cryptol_fn@, mir_module@, cry_name@, info),
{
    broadcast use {group_append, group_views};
    let overrides = make_await_overrides(&info.sub_await_stubs);
    let names = make_param_names(&info.original_params);
    let resume = info.resume_symbol.as_str();
    let mut out = String::new();
    put_async_head(&mut out, function, cryptol_fn, mir_module, cry_name, resume);
    if info.sub_await_stubs.len() > 0 {
        put(&mut out, "// mir_unsafe_assume_spec stubs for .await sub-poll callees.\n");
    }
    put_await_stubs(&mut out, info.sub_await_stubs.as_slice());
    put3(&mut out, "let ", function, "_async_spec = do {\n");
    put_async_params(&mut out, info.original_params.as_slice());
    if info.original_params.len() > 0 {
        put(&mut out, "\n");
    }
    put_async_call(&mut out, function, &overrides);
    put_async_return(&mut out, make_call(cryptol_fn, &names).as_str());
    put_async_verify(&mut out, function, resume, &overrides);
    out
}

/// The proof is announced before the command that runs it, and its
/// success is reported after it.
pub proof fn law_async_markers_enclose_the_proof(
    function: Seq<char>,
    resume: Seq<char>,
    overrides: Seq<Seq<char>>,
)
    ensures
        in_turn(
            async_verify(function, resume, overrides),
            "print \"BEGIN_PROOF "@ + function + "\";\n"@,
            "mir_verify m \""@ + resume + "\" ["@ + joined(overrides, ", "@) + "] false "@
                + function + "_async_spec z3;\n"@,
            "print \"PROVED "@ + function + "\";\n"@,
        ),
{
    broadcast use {group_append, group_views};

    let begin = "print \"BEGIN_PROOF "@ + function + "\";\n"@;
    let command = "mir_verify m \""@ + resume + "\" ["@ + joined(overrides, ", "@) + "] false "@
        + function + "_async_spec z3;\n"@;
    let proved = "print \"PROVED "@ + function + "\";\n"@;
    let tail = "print \"VERIFIED\";\n"@;
    assert(async_verify(function, resume, overrides) == nil() + begin + nil() + command + nil()
        + proved + tail);
    lemma_in_turn(nil(), begin, nil(), command, nil(), proved, tail);
}

} // verus!
