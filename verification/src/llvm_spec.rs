//! Specifications over LLVM: of functions that are verified, and of
//! functions whose body is unknown.

use vstd::prelude::*;

use crate::constraints::{
    globals_view, AllocType, GlobalVarInfo, GlobalView, ParamConstraint, SpecConstraint, TypeInfo,
    TypeView,
};
use crate::llvm_return::{
    adversarial_text, concrete_text, emit_adversarial_return_and_postconds,
    emit_concrete_return_and_postconds,
};
use crate::llvm_setup::{emit_llvm_globals_setup, emit_llvm_param_setup, globals_setup, param_setup};
use crate::mir_spec::{generate_mir_spec, mir_spec_text};
use crate::names::{sanitize_name, sanitized, spec_key, spec_safe_id};
use crate::order::{before, comes_before, lemma_before_total, lemma_before_trans};
use crate::status_primitives::{mutex_primitive, success_sentinel};
use crate::text::{
    after_prefix, dec, group_append, group_views, join, joined, lemma_append_assoc,
    lemma_append_nothing, lemma_views_push, list_has, nil, only_if, owned, put, put2, put3, put5,
    put7, put_dec, same, strip_prefix, views,
};
use crate::writer::{is_void_saw_type, void_saw_type};

verus! {

/// Whether specifications are over LLVM or over MIR.
#[derive(Debug, Clone, Copy, PartialEq, Eq, Structural)]
pub enum EmitMode {
    Llvm,
    Mir,
}

/// A file to be written: its name and what it holds.
#[derive(Debug, PartialEq, Eq)]
pub struct GeneratedFile {
    pub name: String,
    pub content: String,
}

impl View for GeneratedFile {
    type V = (Seq<char>, Seq<char>);

    open spec fn view(&self) -> (Seq<char>, Seq<char>) {
        (self.name@, self.content@)
    }
}

/// The name under which the function stands in the bitcode.
pub open spec fn target_of(spec: &SpecConstraint) -> Seq<char> {
    match spec.mangled_name {
        Some(m) => m@,
        None => spec.function_name@,
    }
}

/// The name under which the function stands in the bitcode.
pub fn target_name(spec: &SpecConstraint) -> (r: &str)
    ensures
        r@ == target_of(spec),
{
    match &spec.mangled_name {
        Some(m) => m.as_str(),
        None => spec.function_name.as_str(),
    }
}

/// The setup of each parameter.
pub open spec fn param_setups(v: Seq<ParamConstraint>) -> Seq<char>
    decreases v.len(),
{
    if v.len() == 0 {
        nil()
    } else {
        param_setups(v.drop_last()) + param_setup(&v.last())
    }
}

/// The setup of each parameter.
fn put_param_setups(out: &mut String, v: &[ParamConstraint])
    ensures
        final(out)@ == old(out)@ + param_setups(v@),
{
    broadcast use lemma_append_nothing;
    let mut i: usize = 0;
    assert(param_setups(v@.take(0)) =~= nil());
    while i < v.len()
        invariant
            i <= v@.len(),
            out@ == old(out)@ + param_setups(v@.take(i as int)),
        decreases v@.len() - i,
    {
        proof {
            assert(v@.take(i + 1).drop_last() =~= v@.take(i as int));
            lemma_append_assoc(old(out)@, param_setups(v@.take(i as int)), param_setup(&v@[i as int]));
        }
        emit_llvm_param_setup(out, &v[i]);
        i += 1;
    }
    assert(v@.take(v@.len() as int) =~= v@);
}

/// How the parameters are passed.
pub open spec fn param_args_item(p: ParamConstraint) -> Seq<Seq<char>> {
    match p.alloc_type {
        AllocType::FreshVar => seq!["llvm_term "@ + p.name@],
        _ => seq![p.name@ + "_ptr"@],
    }
}

fn push_param_args_item(out: &mut Vec<String>, p: &ParamConstraint)
    ensures
        views(final(out)@) == views(old(out)@) + param_args_item(*p),
{
    broadcast use {group_append, group_views};
    let mut t = String::new();
    match p.alloc_type {
        AllocType::FreshVar => {
            put2(&mut t, "llvm_term ", p.name.as_str());
        },
        _ => {
            put2(&mut t, p.name.as_str(), "_ptr");
        },
    }
    out.push(t);
}

/// How the parameters are passed.
pub open spec fn param_args(v: Seq<ParamConstraint>) -> Seq<Seq<char>>
    decreases v.len(),
{
    if v.len() == 0 {
        Seq::empty()
    } else {
        param_args(v.drop_last()) + param_args_item(v.last())
    }
}

/// How the parameters are passed.
pub fn push_param_args(out: &mut Vec<String>, v: &[ParamConstraint])
    ensures
        views(final(out)@) == views(old(out)@) + param_args(v@),
{
    broadcast use lemma_append_nothing;
    let mut i: usize = 0;
    assert(param_args(v@.take(0)) =~= Seq::<Seq<char>>::empty());
    while i < v.len()
        invariant
            i <= v@.len(),
            views(out@) == views(old(out)@) + param_args(v@.take(i as int)),
        decreases v@.len() - i,
    {
        proof {
            assert(v@.take(i + 1).drop_last() =~= v@.take(i as int));
            lemma_append_assoc(views(old(out)@), param_args(v@.take(i as int)), param_args_item(v@[i as int]));
        }
        push_param_args_item(out, &v[i]);
        i += 1;
    }
    assert(v@.take(v@.len() as int) =~= v@);
}

/// Is the body of the function unknown?
pub open spec fn body_unknown(spec: &SpecConstraint) -> bool {
    spec.is_virtual || !spec.has_body
}

/// The arguments of the call: a hidden result pointer comes first.
pub open spec fn spec_args(spec: &SpecConstraint) -> Seq<Seq<char>> {
    (if spec.return_constraint.is_sret {
        seq!["result_ptr"@]
    } else {
        Seq::<Seq<char>>::empty()
    }) + param_args(spec.params@)
}

/// The specification of one function.
pub open spec fn saw_spec_text(spec: &SpecConstraint, globals: Seq<GlobalView>) -> Seq<char> {
    let safe = sanitized(spec.function_name@);
    let target = target_of(spec);
    let ret_ty = spec.return_constraint.saw_type@;
    "// Auto-generated spec for: "@ + spec.function_name@ + "\n"@
        + "// Constraints derived from type system and annotations\n"@ + only_if(
        spec.can_throw,
        "// WARNING: Function may throw -- exception path not modeled\n"@,
    ) + "\nlet "@ + safe + "_auto_spec : LLVMSetup () = do {\n"@ + param_setups(spec.params@) + only_if(
        globals.len() > 0,
        globals_setup(globals),
    ) + only_if(
        spec.return_constraint.is_sret,
        "\n    // sret: struct returned via hidden first pointer parameter\n"@
            + "    result_ptr <- llvm_alloc ("@ + ret_ty + ");\n"@,
    ) + "\n    llvm_execute_func ["@ + joined(spec_args(spec), ", "@) + "];\n"@ + if body_unknown(spec) {
        adversarial_text(spec) + "};\n"@ + "\n// Usage: ov_"@ + safe
            + " <- llvm_unsafe_assume_spec m \""@ + target + "\" "@ + safe + "_auto_spec;\n"@
    } else {
        concrete_text(spec) + "};\n"@ + "\n// Usage: ov_"@ + safe + " <- llvm_verify m \""@
            + target + "\" [] false "@ + safe + "_auto_spec z3;\n"@
    }
}

/// The specification of one function.
///
/// `all_globals` are the mutable global variables of the program: every
/// one is allocated, since a callee may touch what the function does not
/// name.
pub fn generate_saw_spec(spec: &SpecConstraint, all_globals: &[GlobalVarInfo]) -> (r: String)
    ensures
        r@ == saw_spec_text(spec, globals_view(all_globals@)),
{
    broadcast use {group_append, group_views};
    let mut out = String::new();
    let fn_name = spec.function_name.as_str();
    let target = target_name(spec);
    let safe_name = sanitize_name(fn_name);
    let safe = safe_name.as_str();
    put3(&mut out, "// Auto-generated spec for: ", fn_name, "\n");
    put(&mut out, "// Constraints derived from type system and annotations\n");
    if spec.can_throw {
        put(&mut out, "// WARNING: Function may throw -- exception path not modeled\n");
    }
    put3(&mut out, "\nlet ", safe, "_auto_spec : LLVMSetup () = do {\n");
    put_param_setups(&mut out, spec.params.as_slice());
    if all_globals.len() > 0 {
        emit_llvm_globals_setup(&mut out, all_globals);
    }
    let mut args: Vec<String> = Vec::new();
    if spec.return_constraint.is_sret {
        let ty = spec.return_constraint.saw_type.as_str();
        put(&mut out, "\n    // sret: struct returned via hidden first pointer parameter\n");
        put3(&mut out, "    result_ptr <- llvm_alloc (", ty, ");\n");
        args.push(owned("result_ptr"));
        assert(views(args@) =~= seq!["result_ptr"@]);
    }
    push_param_args(&mut args, spec.params.as_slice());
    put3(&mut out, "\n    llvm_execute_func [", join(&args, ", ").as_str(), "];\n");
    if spec.is_virtual || !spec.has_body {
        emit_adversarial_return_and_postconds(&mut out, spec);
        put(&mut out, "};\n");
        put7(
            &mut out,
            "\n// Usage: ov_",
            safe,
            " <- llvm_unsafe_assume_spec m \"",
            target,
            "\" ",
            safe,
            "_auto_spec;\n",
        );
    } else {
        emit_concrete_return_and_postconds(&mut out, spec);
        put(&mut out, "};\n");
        put7(
            &mut out,
            "\n// Usage: ov_",
            safe,
            " <- llvm_verify m \"",
            target,
            "\" [] false ",
            safe,
            "_auto_spec z3;\n",
        );
    }
    out
}

/// A fresh pointer or a fresh value for each parameter. A fresh pointer may alias any memory of the caller.
pub open spec fn fresh_params_item(p: ParamConstraint) -> Seq<char> {
    let name = p.name@;
    match p.alloc_type {
        AllocType::FreshVar => "    "@ + name + " <- llvm_fresh_var \""@ + name + "\" ("@ + p.saw_type@ + ");\n"@,
        _ => "    "@ + name + "_ptr <- llvm_fresh_pointer ("@ + p.saw_type@ + ");\n"@,
    }
}

fn put_fresh_params_item(out: &mut String, p: &ParamConstraint)
    ensures
        final(out)@ == old(out)@ + fresh_params_item(*p),
{
    broadcast use {group_append, group_views};
    let name = p.name.as_str();
    match p.alloc_type {
        AllocType::FreshVar => {
            put7(
                out,
                "    ",
                name,
                " <- llvm_fresh_var \"",
                name,
                "\" (",
                p.saw_type.as_str(),
                ");\n",
            );
        },
        _ => {
            put5(out, "    ", name, "_ptr <- llvm_fresh_pointer (", p.saw_type.as_str(), ");\n");
        },
    }
}

/// A fresh pointer or a fresh value for each parameter. A fresh pointer may alias any memory of the caller.
pub open spec fn fresh_params(v: Seq<ParamConstraint>) -> Seq<char>
    decreases v.len(),
{
    if v.len() == 0 {
        nil()
    } else {
        fresh_params(v.drop_last()) + fresh_params_item(v.last())
    }
}

/// A fresh pointer or a fresh value for each parameter. A fresh pointer may alias any memory of the caller.
fn put_fresh_params(out: &mut String, v: &[ParamConstraint])
    ensures
        final(out)@ == old(out)@ + fresh_params(v@),
{
    broadcast use lemma_append_nothing;
    let mut i: usize = 0;
    assert(fresh_params(v@.take(0)) =~= nil());
    while i < v.len()
        invariant
            i <= v@.len(),
            out@ == old(out)@ + fresh_params(v@.take(i as int)),
        decreases v@.len() - i,
    {
        proof {
            assert(v@.take(i + 1).drop_last() =~= v@.take(i as int));
            lemma_append_assoc(old(out)@, fresh_params(v@.take(i as int)), fresh_params_item(v@[i as int]));
        }
        put_fresh_params_item(out, &v[i]);
        i += 1;
    }
    assert(v@.take(v@.len() as int) =~= v@);
}

/// Each global variable is allocated.
pub open spec fn global_allocs_item(g: GlobalView) -> Seq<char> {
    "    llvm_alloc_global \""@ + g.mangled_name + "\";\n"@
}

fn put_global_allocs_item(out: &mut String, g: &GlobalVarInfo)
    ensures
        final(out)@ == old(out)@ + global_allocs_item(g@),
{
    broadcast use {group_append, group_views};
    put3(out, "    llvm_alloc_global \"", g.mangled_name.as_str(), "\";\n");
}

/// Each global variable is allocated.
pub open spec fn global_allocs(v: Seq<GlobalView>) -> Seq<char>
    decreases v.len(),
{
    if v.len() == 0 {
        nil()
    } else {
        global_allocs(v.drop_last()) + global_allocs_item(v.last())
    }
}

/// Each global variable is allocated.
fn put_global_allocs(out: &mut String, v: &[GlobalVarInfo])
    ensures
        final(out)@ == old(out)@ + global_allocs(globals_view(v@)),
{
    broadcast use lemma_append_nothing;
    let ghost w = globals_view(v@);
    let mut i: usize = 0;
    assert(global_allocs(w.take(0)) =~= nil());
    while i < v.len()
        invariant
            w == globals_view(v@),
            i <= v@.len(),
            out@ == old(out)@ + global_allocs(w.take(i as int)),
        decreases v@.len() - i,
    {
        proof {
            assert(w.take(i + 1).drop_last() =~= w.take(i as int));
            assert(w.take(i + 1).last() == v@[i as int]@);
            lemma_append_assoc(old(out)@, global_allocs(w.take(i as int)), global_allocs_item(w[i as int]));
        }
        put_global_allocs_item(out, &v[i]);
        i += 1;
    }
    assert(w.take(w.len() as int) =~= w);
}

/// The type of the value that a global variable holds after the call.
pub open spec fn global_value_type(ty: TypeView) -> Seq<char> {
    match ty {
        TypeView::SignedInt(b) => "llvm_int "@ + dec(b as nat),
        TypeView::UnsignedInt(b) => "llvm_int "@ + dec(b as nat),
        TypeView::Bool => "llvm_int 1"@,
        TypeView::ByteArray(n) => "llvm_array "@ + dec(n as nat) + " (llvm_int 8)"@,
        _ => "llvm_int 32"@,
    }
}

fn put_global_value_type(out: &mut String, ty: &TypeInfo)
    ensures
        final(out)@ == old(out)@ + global_value_type(ty@),
{
    broadcast use {group_append, group_views};
    match ty {
        TypeInfo::SignedInt(b) => {
            put(out, "llvm_int ");
            put_dec(out, *b as u128);
        },
        TypeInfo::UnsignedInt(b) => {
            put(out, "llvm_int ");
            put_dec(out, *b as u128);
        },
        TypeInfo::Bool => {
            put(out, "llvm_int 1");
        },
        TypeInfo::ByteArray(n) => {
            put(out, "llvm_array ");
            put_dec(out, *n as u128);
            put(out, " (llvm_int 8)");
        },
        _ => {
            put(out, "llvm_int 32");
        },
    }
}

/// Each global variable holds any value after the call.
pub open spec fn clobbered_globals_item(g: GlobalView) -> Seq<char> {
    let safe = sanitized(g.mangled_name);
    "    "@ + safe + "_after <- llvm_fresh_var \""@ + safe + "_after\" ("@
        + global_value_type(g.ty) + ");\n"@ + "    llvm_points_to (llvm_global \""@
        + g.mangled_name + "\") (llvm_term "@ + safe + "_after);\n"@
}

fn put_clobbered_globals_item(out: &mut String, g: &GlobalVarInfo)
    ensures
        final(out)@ == old(out)@ + clobbered_globals_item(g@),
{
    broadcast use {group_append, group_views};
    let safe_name = sanitize_name(g.mangled_name.as_str());
    let safe = safe_name.as_str();
    put5(out, "    ", safe, "_after <- llvm_fresh_var \"", safe, "_after\" (");
    put_global_value_type(out, &g.ty);
    put(out, ");\n");
    put5(
        out,
        "    llvm_points_to (llvm_global \"",
        g.mangled_name.as_str(),
        "\") (llvm_term ",
        safe,
        "_after);\n",
    );
}

/// Each global variable holds any value after the call.
pub open spec fn clobbered_globals(v: Seq<GlobalView>) -> Seq<char>
    decreases v.len(),
{
    if v.len() == 0 {
        nil()
    } else {
        clobbered_globals(v.drop_last()) + clobbered_globals_item(v.last())
    }
}

/// Each global variable holds any value after the call.
fn put_clobbered_globals(out: &mut String, v: &[GlobalVarInfo])
    ensures
        final(out)@ == old(out)@ + clobbered_globals(globals_view(v@)),
{
    broadcast use lemma_append_nothing;
    let ghost w = globals_view(v@);
    let mut i: usize = 0;
    assert(clobbered_globals(w.take(0)) =~= nil());
    while i < v.len()
        invariant
            w == globals_view(v@),
            i <= v@.len(),
            out@ == old(out)@ + clobbered_globals(w.take(i as int)),
        decreases v@.len() - i,
    {
        proof {
            assert(w.take(i + 1).drop_last() =~= w.take(i as int));
            assert(w.take(i + 1).last() == v@[i as int]@);
            lemma_append_assoc(old(out)@, clobbered_globals(w.take(i as int)), clobbered_globals_item(w[i as int]));
        }
        put_clobbered_globals_item(out, &v[i]);
        i += 1;
    }
    assert(w.take(w.len() as int) =~= w);
}

/// The result of a call whose body is unknown: the success value of a
/// mutex primitive, a pointer to a fresh value, or a fresh value.
pub open spec fn unspecified_return(spec: &SpecConstraint) -> Seq<char> {
    let ty = spec.return_constraint.saw_type@;
    let bits = after_prefix(ty, "llvm_int "@);
    if void_saw_type(ty) {
        nil()
    } else if mutex_primitive(target_of(spec)) && bits is Some {
        "    // status primitive: pin success sentinel (0 = _Thrd_success) instead of a fresh return\n"@
            + "    llvm_return (llvm_term {{ 0 : ["@ + bits->0 + "] }});\n"@
    } else if spec.return_constraint.returns_pointer {
        "    ret_ptr <- llvm_alloc ("@ + ty + ");\n"@
            + "    ret_val <- llvm_fresh_var \"ret_val\" ("@ + ty + ");\n"@
            + "    llvm_points_to ret_ptr (llvm_term ret_val);\n"@
            + "    llvm_return ret_ptr;\n"@
    } else {
        "    ret <- llvm_fresh_var \"ret\" ("@ + ty + ");\n"@
            + "    llvm_return (llvm_term ret);\n"@
    }
}

fn put_unspecified_return(out: &mut String, spec: &SpecConstraint)
    ensures
        final(out)@ == old(out)@ + unspecified_return(spec),
{
    broadcast use {group_append, group_views};
    let ty = spec.return_constraint.saw_type.as_str();
    if is_void_saw_type(ty) {
        return;
    }
    if let Some(_) = success_sentinel(target_name(spec)) {
        if let Some(bits) = strip_prefix(ty, "llvm_int ") {
            put(
                out,
                "    // status primitive: pin success sentinel (0 = _Thrd_success) instead of a fresh return\n",
            );
            put3(out, "    llvm_return (llvm_term {{ 0 : [", bits, "] }});\n");
            return;
        }
    }
    if spec.return_constraint.returns_pointer {
        put3(out, "    ret_ptr <- llvm_alloc (", ty, ");\n");
        put3(out, "    ret_val <- llvm_fresh_var \"ret_val\" (", ty, ");\n");
        put(out, "    llvm_points_to ret_ptr (llvm_term ret_val);\n");
        put(out, "    llvm_return ret_ptr;\n");
    } else {
        put3(out, "    ret <- llvm_fresh_var \"ret\" (", ty, ");\n");
        put(out, "    llvm_return (llvm_term ret);\n");
    }
}

/// The override of a callee that may write any value to the given global
/// variables.
pub open spec fn unspecified_text(spec: &SpecConstraint, globals: Seq<GlobalView>) -> Seq<char> {
    let safe = sanitized(spec_key(spec));
    "// Auto-generated havoc spec for sub-callee: "@ + spec.function_name@ + "\n"@
        + "// Assumes the function may write any value to the listed globals;\n"@
        + "// inputs are accepted as fresh-symbolic and the return value (if\n"@
        + "// any) is unconstrained.\n\n"@ + "let "@ + safe + "_spec : LLVMSetup () = do {\n"@
        + fresh_params(spec.params@) + global_allocs(globals) + "\n    llvm_execute_func ["@
        + joined(param_args(spec.params@), ", "@) + "];\n"@ + unspecified_return(spec)
        + clobbered_globals(globals) + "};\n\n"@ + "ov_"@ + safe
        + " <- llvm_unsafe_assume_spec m \""@ + target_of(spec) + "\" "@ + safe + "_spec;\n"@
}

/// The override of a callee whose body is not to be executed: it takes any
/// arguments, returns any value and may write any value to the global
/// variables. Of a mutex primitive the success value is pinned.
pub fn generate_unspecified_spec(spec: &SpecConstraint, all_globals: &[GlobalVarInfo]) -> (r: String)
    ensures
        r@ == unspecified_text(spec, globals_view(all_globals@)),
{
    broadcast use {group_append, group_views};
    let mut out = String::new();
    let safe_id = spec_safe_id(spec);
    let safe = safe_id.as_str();
    put3(
        &mut out,
        "// Auto-generated havoc spec for sub-callee: ",
        spec.function_name.as_str(),
        "\n",
    );
    put(&mut out, "// Assumes the function may write any value to the listed globals;\n");
    put(&mut out, "// inputs are accepted as fresh-symbolic and the return value (if\n");
    put(&mut out, "// any) is unconstrained.\n\n");
    put3(&mut out, "let ", safe, "_spec : LLVMSetup () = do {\n");
    put_fresh_params(&mut out, spec.params.as_slice());
    put_global_allocs(&mut out, all_globals);
    let mut args: Vec<String> = Vec::new();
    push_param_args(&mut args, spec.params.as_slice());
    put3(&mut out, "\n    llvm_execute_func [", join(&args, ", ").as_str(), "];\n");
    put_unspecified_return(&mut out, spec);
    put_clobbered_globals(&mut out, all_globals);
    put(&mut out, "};\n\n");
    put7(
        &mut out,
        "ov_",
        safe,
        " <- llvm_unsafe_assume_spec m \"",
        target_name(spec),
        "\" ",
        safe,
        "_spec;\n",
    );
    out
}

/// The file name of the specification of a function.
pub open spec fn spec_file_name(id: Seq<char>) -> Seq<char> {
    id + "_auto_spec.saw"@
}

pub fn file_name(id: &str) -> (r: String)
    ensures
        r@ == spec_file_name(id@),
{
    broadcast use {group_append, group_views};
    let mut r = String::new();
    put2(&mut r, id, "_auto_spec.saw");
    r
}

/// The file with the override of one callee.
pub fn emit_single_experimental_spec(
    spec: &SpecConstraint,
    all_globals: &[GlobalVarInfo],
) -> (r: GeneratedFile)
    ensures
        r@ == (
            spec_file_name(sanitized(spec_key(spec))),
            unspecified_text(spec, globals_view(all_globals@)),
        ),
{
    let id = spec_safe_id(spec);
    GeneratedFile {
        name: file_name(id.as_str()),
        content: generate_unspecified_spec(spec, all_globals),
    }
}

/// The override of `operator new`: a fresh buffer of 256 bytes.
pub open spec fn operator_new_text(mangled_name: Seq<char>) -> Seq<char> {
    "// Auto-generated spec for: operator new\n"@
        + "// Allocates fresh memory and returns a pointer\n"@ + "\n"@
        + "let operator_new_spec = do {\n"@
        + "    sz <- llvm_fresh_var \"sz\" (llvm_int 64);\n"@
        + "    llvm_execute_func [llvm_term sz];\n"@
        + "    p <- llvm_alloc_aligned 8 (llvm_array 256 (llvm_int 8));\n"@
        + "    llvm_return p;\n"@ + "};\n"@ + "ov_new <- llvm_unsafe_assume_spec m \""@
        + mangled_name + "\" operator_new_spec;\n"@
}

/// The file with the override of `operator new`.
pub fn emit_operator_new_spec(mangled_name: &str) -> (r: GeneratedFile)
    ensures
        r@ == ("operator_new_auto_spec.saw"@, operator_new_text(mangled_name@)),
{
    broadcast use {group_append, group_views};
    let mut out = String::new();
    put(&mut out, "// Auto-generated spec for: operator new\n");
    put(&mut out, "// Allocates fresh memory and returns a pointer\n");
    put(&mut out, "\n");
    put(&mut out, "let operator_new_spec = do {\n");
    put(&mut out, "    sz <- llvm_fresh_var \"sz\" (llvm_int 64);\n");
    put(&mut out, "    llvm_execute_func [llvm_term sz];\n");
    put(&mut out, "    p <- llvm_alloc_aligned 8 (llvm_array 256 (llvm_int 8));\n");
    put(&mut out, "    llvm_return p;\n");
    put(&mut out, "};\n");
    put3(
        &mut out,
        "ov_new <- llvm_unsafe_assume_spec m \"",
        mangled_name,
        "\" operator_new_spec;\n",
    );
    GeneratedFile { name: owned("operator_new_auto_spec.saw"), content: out }
}

/// What the file of one specification holds.
pub open spec fn spec_content(
    spec: &SpecConstraint,
    mode: EmitMode,
    experimental: bool,
    globals: Seq<GlobalView>,
) -> Seq<char> {
    match mode {
        EmitMode::Mir => mir_spec_text(spec),
        EmitMode::Llvm => if experimental && body_unknown(spec) {
            unspecified_text(spec, globals)
        } else {
            saw_spec_text(spec, globals)
        },
    }
}

/// The file of one specification.
pub open spec fn spec_file(
    spec: &SpecConstraint,
    mode: EmitMode,
    experimental: bool,
    globals: Seq<GlobalView>,
) -> (Seq<char>, Seq<char>) {
    (
        spec_file_name(sanitized(spec.function_name@)),
        spec_content(spec, mode, experimental, globals),
    )
}

/// The names of the files of the specifications.
pub open spec fn spec_file_names(specs: Seq<SpecConstraint>) -> Seq<Seq<char>> {
    Seq::new(specs.len(), |i: int| spec_file_name(sanitized(specs[i].function_name@)))
}

/// One line for each file, at its first occurrence.
pub open spec fn index_lines(names: Seq<Seq<char>>) -> Seq<char>
    decreases names.len(),
{
    if names.len() == 0 {
        nil()
    } else if names.drop_last().contains(names.last()) {
        index_lines(names.drop_last())
    } else {
        index_lines(names.drop_last()) + ("include \""@ + names.last() + "\";\n"@)
    }
}

pub open spec fn mode_name(mode: EmitMode) -> Seq<char> {
    match mode {
        EmitMode::Llvm => "LLVM"@,
        EmitMode::Mir => "MIR"@,
    }
}

/// The index of the specification files.
pub open spec fn index_text(specs: Seq<SpecConstraint>, mode: EmitMode) -> Seq<char> {
    "// Auto-generated SAW specs -- do not edit\n"@
        + "// Generated by saw-spec-gen from type system constraints\n"@ + "// Mode: "@
        + mode_name(mode) + "\n"@ + "\n"@ + index_lines(spec_file_names(specs))
}

fn put_index_line(out: &mut String, name: &str)
    ensures
        final(out)@ == old(out)@ + ("include \""@ + name@ + "\";\n"@),
{
    broadcast use {group_append, group_views};
    put3(out, "include \"", name, "\";\n");
}

fn put_index_lines(out: &mut String, names: &Vec<String>)
    ensures
        final(out)@ == old(out)@ + index_lines(views(names@)),
{
    broadcast use {lemma_append_nothing, lemma_views_push};

    let ghost w = views(names@);
    let mut seen: Vec<String> = Vec::new();
    let mut i: usize = 0;
    assert(w.take(0) =~= Seq::<Seq<char>>::empty());
    assert(views(seen@) =~= Seq::<Seq<char>>::empty());
    while i < names.len()
        invariant
            w == views(names@),
            i <= names@.len(),
            forall|t: Seq<char>| views(seen@).contains(t) <==> w.take(i as int).contains(t),
            out@ == old(out)@ + index_lines(w.take(i as int)),
        decreases names@.len() - i,
    {
        let ghost seen_before = seen@;
        proof {
            assert(w.take(i + 1).drop_last() =~= w.take(i as int));
            lemma_append_assoc(
                old(out)@,
                index_lines(w.take(i as int)),
                "include \""@ + w[i as int] + "\";\n"@,
            );
        }
        let name = names[i].as_str();
        assert(name@ == w[i as int]);
        if !list_has(&seen, name) {
            put_index_line(out, name);
            seen.push(names[i].clone());
            assert(views(seen@) =~= views(seen_before).push(w[i as int]));
        }
        proof {
            lemma_seen_step(w, seen_before, seen@, i as int);
        }
        i += 1;
    }
    assert(w.take(w.len() as int) =~= w);
}

/// One name further, the names seen are those of the longer beginning.
proof fn lemma_seen_step(w: Seq<Seq<char>>, a: Seq<String>, b: Seq<String>, i: int)
    requires
        0 <= i < w.len(),
        forall|t: Seq<char>| views(a).contains(t) <==> w.take(i).contains(t),
        views(b) == if views(a).contains(w[i]) {
            views(a)
        } else {
            views(a).push(w[i])
        },
    ensures
        forall|t: Seq<char>| views(b).contains(t) <==> w.take(i + 1).contains(t),
{
    let va = views(a);
    let vb = views(b);
    let now = w.take(i);
    let next = w.take(i + 1);
    assert(w.take(i + 1) =~= w.take(i).push(w[i]));
    assert forall|t: Seq<char>| vb.contains(t) <==> w.take(i + 1).contains(t) by {
        if w.take(i + 1).contains(t) {
            let k = choose|k: int| 0 <= k < next.len() && next[k] == t;
            if k < i {
                assert(now[k] == t);
                assert(va.contains(t));
                let j = choose|j: int| 0 <= j < va.len() && va[j] == t;
                assert(vb[j] == t);
            } else if va.contains(w[i]) {
            } else {
                assert(vb[va.len() as int] == t);
            }
        }
        if vb.contains(t) {
            let j = choose|j: int| 0 <= j < vb.len() && vb[j] == t;
            if j < va.len() {
                assert(va[j] == t);
                assert(va.contains(t));
                assert(now.contains(t));
                let k = choose|k: int| 0 <= k < now.len() && now[k] == t;
                assert(next[k] == t);
            } else {
                assert(next[i] == t);
            }
        }
    }
}

pub open spec fn files_view(v: Seq<GeneratedFile>) -> Seq<(Seq<char>, Seq<char>)> {
    Seq::new(v.len(), |i: int| v[i]@)
}

/// The files of all specifications, in order, and their index.
pub open spec fn all_files(
    specs: Seq<SpecConstraint>,
    mode: EmitMode,
    experimental: bool,
    globals: Seq<GlobalView>,
) -> Seq<(Seq<char>, Seq<char>)> {
    Seq::new(specs.len(), |i: int| spec_file(&specs[i], mode, experimental, globals)).push(
        ("auto_specs.saw"@, index_text(specs, mode)),
    )
}

/// The files of all specifications, in order, and their index. Where two
/// specifications have one file name, the later content is the one that
/// remains once the files are written.
pub fn emit_saw_specs_with_mode(
    specs: &[SpecConstraint],
    mode: EmitMode,
    experimental: bool,
    all_globals: &[GlobalVarInfo],
) -> (r: Vec<GeneratedFile>)
    ensures
        files_view(r@) == all_files(specs@, mode, experimental, globals_view(all_globals@)),
{
    broadcast use {group_append, group_views};
    let ghost globals = globals_view(all_globals@);
    let mut files: Vec<GeneratedFile> = Vec::new();
    let mut names: Vec<String> = Vec::new();
    let mut i: usize = 0;
    while i < specs.len()
        invariant
            globals == globals_view(all_globals@),
            i <= specs@.len(),
            files@.len() == i,
            names@.len() == i,
            forall|k: int|
                0 <= k < i ==> (#[trigger] files@[k])@ == spec_file(
                    &specs@[k],
                    mode,
                    experimental,
                    globals,
                ),
            forall|k: int|
                0 <= k < i ==> (#[trigger] names@[k])@ == spec_file_name(
                    sanitized(specs@[k].function_name@),
                ),
        decreases specs@.len() - i,
    {
        let spec = &specs[i];
        let safe = sanitize_name(spec.function_name.as_str());
        let name = file_name(safe.as_str());
        let unknown = spec.is_virtual || !spec.has_body;
        let content = match mode {
            EmitMode::Mir => generate_mir_spec(spec),
            EmitMode::Llvm => if experimental && unknown {
                generate_unspecified_spec(spec, all_globals)
            } else {
                generate_saw_spec(spec, all_globals)
            },
        };
        names.push(name.clone());
        files.push(GeneratedFile { name, content });
        i += 1;
    }
    assert(views(names@) =~= spec_file_names(specs@));
    let mut index = String::new();
    let mode_text = match mode {
        EmitMode::Llvm => "LLVM",
        EmitMode::Mir => "MIR",
    };
    put(&mut index, "// Auto-generated SAW specs -- do not edit\n");
    put(&mut index, "// Generated by saw-spec-gen from type system constraints\n");
    put3(&mut index, "// Mode: ", mode_text, "\n");
    put(&mut index, "\n");
    put_index_lines(&mut index, &names);
    files.push(GeneratedFile { name: owned("auto_specs.saw"), content: index });
    assert(files_view(files@) =~= all_files(specs@, mode, experimental, globals));
    files
}

/// The files of specifications over LLVM for a given list of global
/// variables.
pub fn emit_saw_specs_with_globals(
    specs: &[SpecConstraint],
    experimental: bool,
    all_globals: &[GlobalVarInfo],
) -> (r: Vec<GeneratedFile>)
    ensures
        files_view(r@) == all_files(
            specs@,
            EmitMode::Llvm,
            experimental,
            globals_view(all_globals@),
        ),
{
    broadcast use {group_append, group_views};
    emit_saw_specs_with_mode(specs, EmitMode::Llvm, experimental, all_globals)
}

/// The files of specifications over MIR.
pub fn emit_mir_saw_specs(specs: &[SpecConstraint]) -> (r: Vec<GeneratedFile>)
    ensures
        files_view(r@) == all_files(specs@, EmitMode::Mir, false, Seq::empty()),
{
    broadcast use {group_append, group_views};
    let none: Vec<GlobalVarInfo> = Vec::new();
    assert(globals_view(none@) =~= Seq::empty());
    emit_saw_specs_with_mode(specs, EmitMode::Mir, false, none.as_slice())
}

/// The global variables that the specifications name, in order.
pub open spec fn named_globals(specs: Seq<SpecConstraint>) -> Seq<GlobalView>
    decreases specs.len(),
{
    if specs.len() == 0 {
        Seq::empty()
    } else {
        named_globals(specs.drop_last()) + globals_view(specs.last().referenced_globals@)
    }
}

/// Position `k` is the first one that holds its symbol.
pub open spec fn first_of_name(all: Seq<GlobalView>, k: int) -> bool {
    0 <= k < all.len() && forall|j: int|
        0 <= j < k ==> (#[trigger] all[j]).mangled_name != all[k].mangled_name
}

/// Is `g` one of the variables, as its symbol first occurs?
pub open spec fn occurs_first(all: Seq<GlobalView>, g: GlobalView) -> bool {
    exists|k: int| #[trigger] first_of_name(all, k) && all[k] == g
}

/// Is the symbol that of a variable of the list?
pub open spec fn lists(u: Seq<GlobalView>, symbol: Seq<char>) -> bool {
    exists|i: int| 0 <= i < u.len() && (#[trigger] u[i]).mangled_name == symbol
}

/// Is `u` the union of the variables: in ascending order of their symbols,
/// each symbol once, each as it first occurs?
pub open spec fn is_union(u: Seq<GlobalView>, all: Seq<GlobalView>) -> bool {
    &&& forall|i: int, j: int|
        0 <= i < j < u.len() ==> before(
            (#[trigger] u[i]).mangled_name,
            (#[trigger] u[j]).mangled_name,
        )
    &&& forall|i: int| 0 <= i < u.len() ==> occurs_first(all, #[trigger] u[i])
    &&& forall|k: int| 0 <= k < all.len() ==> lists(u, (#[trigger] all[k]).mangled_name)
}

/// The union grows by one variable: it stays as it is where the symbol is
/// there already, and takes the variable in at its place where it is not.
proof fn lemma_union_step(u: Seq<GlobalView>, all: Seq<GlobalView>, g: GlobalView, p: int)
    requires
        is_union(u, all),
        0 <= p <= u.len(),
        forall|i: int| 0 <= i < p ==> before((#[trigger] u[i]).mangled_name, g.mangled_name),
        p < u.len() ==> !before(u[p].mangled_name, g.mangled_name),
    ensures
        p < u.len() && u[p].mangled_name == g.mangled_name ==> is_union(u, all.push(g)),
        !(p < u.len() && u[p].mangled_name == g.mangled_name) ==> is_union(
            u.insert(p, g),
            all.push(g),
        ),
{
    let n = all.push(g);
    assert forall|k: int| first_of_name(all, k) implies first_of_name(n, k) by {
        assert forall|j: int| 0 <= j < k implies (#[trigger] n[j]).mangled_name
            != n[k].mangled_name by {
            assert(all[j].mangled_name != all[k].mangled_name);
        }
    }
    if p < u.len() && u[p].mangled_name == g.mangled_name {
        assert forall|i: int| 0 <= i < u.len() implies occurs_first(n, #[trigger] u[i]) by {
            let k = choose|k: int| #[trigger] first_of_name(all, k) && all[k] == u[i];
            assert(first_of_name(n, k) && n[k] == u[i]);
        }
        assert forall|k: int| 0 <= k < n.len() implies lists(u, (#[trigger] n[k]).mangled_name) by {
            if k < all.len() {
                assert(lists(u, all[k].mangled_name));
            } else {
                assert(u[p].mangled_name == n[k].mangled_name);
            }
        }
    } else {
        let w = u.insert(p, g);
        if p < u.len() {
            lemma_before_total(u[p].mangled_name, g.mangled_name);
        }
        assert forall|i: int| p <= i < u.len() implies before(
            g.mangled_name,
            (#[trigger] u[i]).mangled_name,
        ) by {
            if i > p {
                assert(before(u[p].mangled_name, u[i].mangled_name));
                lemma_before_trans(g.mangled_name, u[p].mangled_name, u[i].mangled_name);
            }
        }
        assert forall|i: int, j: int| 0 <= i < j < w.len() implies before(
            (#[trigger] w[i]).mangled_name,
            (#[trigger] w[j]).mangled_name,
        ) by {
            let a = if i < p { i } else { i - 1 };
            let b = if j < p { j } else { j - 1 };
            if i != p && j != p {
                assert(w[i] == u[a] && w[j] == u[b]);
            } else if i == p {
                assert(w[j] == u[b]);
            } else {
                assert(w[i] == u[a]);
            }
        }
        assert(first_of_name(n, all.len() as int)) by {
            assert forall|j: int| 0 <= j < all.len() implies (#[trigger] n[j]).mangled_name
                != g.mangled_name by {
                assert(lists(u, all[j].mangled_name));
                let i = choose|i: int|
                    0 <= i < u.len() && (#[trigger] u[i]).mangled_name == all[j].mangled_name;
                lemma_before_total(u[i].mangled_name, g.mangled_name);
                if i < p {
                    assert(before(u[i].mangled_name, g.mangled_name));
                } else {
                    assert(before(g.mangled_name, u[i].mangled_name));
                }
            }
        }
        assert forall|i: int| 0 <= i < w.len() implies occurs_first(n, #[trigger] w[i]) by {
            if i == p {
                assert(n[all.len() as int] == w[i]);
            } else {
                let a = if i < p { i } else { i - 1 };
                assert(w[i] == u[a]);
                assert(occurs_first(all, u[a]));
                let k = choose|k: int| #[trigger] first_of_name(all, k) && all[k] == u[a];
                assert(first_of_name(n, k) && n[k] == w[i]);
            }
        }
        assert forall|k: int| 0 <= k < n.len() implies lists(w, (#[trigger] n[k]).mangled_name) by {
            if k < all.len() {
                assert(lists(u, all[k].mangled_name));
                let a = choose|a: int|
                    0 <= a < u.len() && (#[trigger] u[a]).mangled_name == all[k].mangled_name;
                let i = if a < p { a } else { a + 1 };
                assert(w[i] == u[a]);
            } else {
                assert(w[p].mangled_name == n[k].mangled_name);
            }
        }
    }
}

/// Takes one variable into a union.
fn add_to_union(u: &mut Vec<GlobalVarInfo>, g: &GlobalVarInfo, Ghost(all): Ghost<Seq<GlobalView>>)
    requires
        is_union(globals_view(old(u)@), all),
    ensures
        is_union(globals_view(final(u)@), all.push(g@)),
{
    let ghost w = globals_view(u@);
    let mut p: usize = 0;
    while p < u.len() && comes_before(u[p].mangled_name.as_str(), g.mangled_name.as_str())
        invariant
            w == globals_view(u@),
            p <= u@.len(),
            forall|i: int| 0 <= i < p ==> before((#[trigger] w[i]).mangled_name, g@.mangled_name),
        decreases u@.len() - p,
    {
        p += 1;
    }
    proof {
        lemma_union_step(w, all, g@, p as int);
    }
    if p < u.len() && same(u[p].mangled_name.as_str(), g.mangled_name.as_str()) {
        assert(w[p as int].mangled_name == g@.mangled_name);
        return;
    }
    let ghost before_insert = u@;
    u.insert(p, g.duplicate());
    assert(globals_view(u@) =~= w.insert(p as int, g@));
}

/// The union of the global variables that the specifications name.
pub fn union_globals(specs: &[SpecConstraint]) -> (u: Vec<GlobalVarInfo>)
    ensures
        is_union(globals_view(u@), named_globals(specs@)),
{
    broadcast use {group_append, group_views};
    let mut u: Vec<GlobalVarInfo> = Vec::new();
    let mut i: usize = 0;
    assert(specs@.take(0) =~= Seq::empty());
    while i < specs.len()
        invariant
            i <= specs@.len(),
            is_union(globals_view(u@), named_globals(specs@.take(i as int))),
        decreases specs@.len() - i,
    {
        let globals = &specs[i].referenced_globals;
        let ghost base = named_globals(specs@.take(i as int));
        let ghost all = globals_view(globals@);
        let mut k: usize = 0;
        assert(base + all.take(0) =~= base);
        while k < globals.len()
            invariant
                all == globals_view(globals@),
                k <= globals@.len(),
                is_union(globals_view(u@), base + all.take(k as int)),
            decreases globals@.len() - k,
        {
            add_to_union(&mut u, &globals[k], Ghost(base + all.take(k as int)));
            assert((base + all.take(k as int)).push(all[k as int]) =~= base + all.take(k + 1));
            k += 1;
        }
        proof {
            assert(all.take(all.len() as int) =~= all);
            assert(specs@.take(i + 1).drop_last() =~= specs@.take(i as int));
        }
        i += 1;
    }
    assert(specs@.take(specs@.len() as int) =~= specs@);
    u
}

/// The files of specifications over LLVM, for the union of the global
/// variables that the specifications name.
pub fn emit_saw_specs(specs: &[SpecConstraint], experimental: bool) -> (r: Vec<GeneratedFile>)
    ensures
        exists|u: Seq<GlobalView>| #[trigger]
            is_union(u, named_globals(specs@)) && files_view(r@) == all_files(
                specs@,
                EmitMode::Llvm,
                experimental,
                u,
            ),
{
    broadcast use {group_append, group_views};
    let globals = union_globals(specs);
    emit_saw_specs_with_mode(specs, EmitMode::Llvm, experimental, globals.as_slice())
}

} // verus!
