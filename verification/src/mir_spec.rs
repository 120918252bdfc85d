//! Specifications over MIR.

use vstd::prelude::*;

use crate::constraints::{AllocType, ParamConstraint, SpecConstraint};
use crate::names::{sanitize_name, sanitized};
use crate::text::{
    group_append, group_views, join, joined, lemma_append_assoc, lemma_append_nothing, nil,
    only_if, put, put2, put3, put5, put7, replace, replaced, views,
};
use crate::types::{cryptol_text, cryptol_type_for_saw, mir_saw_type, mir_text};
use crate::writer::{is_void_saw_type, void_saw_type};

verus! {

/// A condition over LLVM in its MIR form.
pub open spec fn mir_condition(s: Seq<char>) -> Seq<char> {
    replaced(s, "llvm_"@, "mir_"@)
}

/// A postcondition over LLVM in its MIR form.
pub open spec fn mir_postcondition(s: Seq<char>) -> Seq<char> {
    replaced(
        replaced(s, "llvm_points_to"@, "mir_points_to"@),
        "llvm_term"@,
        "mir_term"@,
    )
}

/// The preconditions of a parameter.
pub open spec fn mir_preconditions_item(s: String) -> Seq<char> {
    let t = mir_condition(replaced(s@, "llvm_precond"@, "mir_precond"@));
    "    "@ + t + ";\n"@
}

fn put_mir_preconditions_item(out: &mut String, s: &String)
    ensures
        final(out)@ == old(out)@ + mir_preconditions_item(*s),
{
    broadcast use {group_append, group_views};
    proof {
        reveal_strlit("llvm_precond");
        reveal_strlit("llvm_");
    }
    let a = replace(s.as_str(), "llvm_precond", "mir_precond");
    let t = replace(a.as_str(), "llvm_", "mir_");
    put3(out, "    ", t.as_str(), ";\n");
}

/// The preconditions of a parameter.
pub open spec fn mir_preconditions(v: Seq<String>) -> Seq<char>
    decreases v.len(),
{
    if v.len() == 0 {
        nil()
    } else {
        mir_preconditions(v.drop_last()) + mir_preconditions_item(v.last())
    }
}

/// The preconditions of a parameter.
fn put_mir_preconditions(out: &mut String, v: &[String])
    ensures
        final(out)@ == old(out)@ + mir_preconditions(v@),
{
    broadcast use lemma_append_nothing;
    let mut i: usize = 0;
    assert(mir_preconditions(v@.take(0)) =~= nil());
    while i < v.len()
        invariant
            i <= v@.len(),
            out@ == old(out)@ + mir_preconditions(v@.take(i as int)),
        decreases v@.len() - i,
    {
        proof {
            assert(v@.take(i + 1).drop_last() =~= v@.take(i as int));
            lemma_append_assoc(old(out)@, mir_preconditions(v@.take(i as int)), mir_preconditions_item(v@[i as int]));
        }
        put_mir_preconditions_item(out, &v[i]);
        i += 1;
    }
    assert(v@.take(v@.len() as int) =~= v@);
}

/// What constrains the result.
pub open spec fn mir_value_constraints_item(s: String) -> Seq<char> {
    let t = mir_condition(replaced(s@, "llvm_postcond"@, "mir_postcond"@));
    "    "@ + t + ";\n"@
}

fn put_mir_value_constraints_item(out: &mut String, s: &String)
    ensures
        final(out)@ == old(out)@ + mir_value_constraints_item(*s),
{
    broadcast use {group_append, group_views};
    proof {
        reveal_strlit("llvm_postcond");
        reveal_strlit("llvm_");
    }
    let a = replace(s.as_str(), "llvm_postcond", "mir_postcond");
    let t = replace(a.as_str(), "llvm_", "mir_");
    put3(out, "    ", t.as_str(), ";\n");
}

/// What constrains the result.
pub open spec fn mir_value_constraints(v: Seq<String>) -> Seq<char>
    decreases v.len(),
{
    if v.len() == 0 {
        nil()
    } else {
        mir_value_constraints(v.drop_last()) + mir_value_constraints_item(v.last())
    }
}

/// What constrains the result.
fn put_mir_value_constraints(out: &mut String, v: &[String])
    ensures
        final(out)@ == old(out)@ + mir_value_constraints(v@),
{
    broadcast use lemma_append_nothing;
    let mut i: usize = 0;
    assert(mir_value_constraints(v@.take(0)) =~= nil());
    while i < v.len()
        invariant
            i <= v@.len(),
            out@ == old(out)@ + mir_value_constraints(v@.take(i as int)),
        decreases v@.len() - i,
    {
        proof {
            assert(v@.take(i + 1).drop_last() =~= v@.take(i as int));
            lemma_append_assoc(old(out)@, mir_value_constraints(v@.take(i as int)), mir_value_constraints_item(v@[i as int]));
        }
        put_mir_value_constraints_item(out, &v[i]);
        i += 1;
    }
    assert(v@.take(v@.len() as int) =~= v@);
}

/// The postconditions of a function.
pub open spec fn mir_postconditions_item(s: String) -> Seq<char> {
    "    "@ + mir_postcondition(s@) + ";\n"@
}

fn put_mir_postconditions_item(out: &mut String, s: &String)
    ensures
        final(out)@ == old(out)@ + mir_postconditions_item(*s),
{
    broadcast use {group_append, group_views};
    proof {
        reveal_strlit("llvm_points_to");
        reveal_strlit("llvm_term");
    }
    let a = replace(s.as_str(), "llvm_points_to", "mir_points_to");
    let t = replace(a.as_str(), "llvm_term", "mir_term");
    put3(out, "    ", t.as_str(), ";\n");
}

/// The postconditions of a function.
pub open spec fn mir_postconditions(v: Seq<String>) -> Seq<char>
    decreases v.len(),
{
    if v.len() == 0 {
        nil()
    } else {
        mir_postconditions(v.drop_last()) + mir_postconditions_item(v.last())
    }
}

/// The postconditions of a function.
fn put_mir_postconditions(out: &mut String, v: &[String])
    ensures
        final(out)@ == old(out)@ + mir_postconditions(v@),
{
    broadcast use lemma_append_nothing;
    let mut i: usize = 0;
    assert(mir_postconditions(v@.take(0)) =~= nil());
    while i < v.len()
        invariant
            i <= v@.len(),
            out@ == old(out)@ + mir_postconditions(v@.take(i as int)),
        decreases v@.len() - i,
    {
        proof {
            assert(v@.take(i + 1).drop_last() =~= v@.take(i as int));
            lemma_append_assoc(old(out)@, mir_postconditions(v@.take(i as int)), mir_postconditions_item(v@[i as int]));
        }
        put_mir_postconditions_item(out, &v[i]);
        i += 1;
    }
    assert(v@.take(v@.len() as int) =~= v@);
}

/// The setup of one parameter, with its preconditions.
pub open spec fn mir_param_setup(p: &ParamConstraint) -> Seq<char> {
    let name = p.name@;
    let ty = mir_text(p.saw_type@);
    "\n    // Parameter: "@ + name + "\n"@ + match p.alloc_type {
        AllocType::AllocReadonly => "    "@ + name + "_ref <- mir_alloc_readonly (mir_find_adt m \""@ + p.saw_type@
            + "\");\n"@ + "    "@ + name + "_before <- mir_fresh_var \""@ + name + "\" ("@ + ty
            + ");\n"@ + "    mir_points_to "@ + name + "_ref (mir_term "@ + name
            + "_before);\n"@,
        AllocType::AllocMutable => "    "@ + name + "_ref <- mir_alloc (mir_find_adt m \""@ + p.saw_type@ + "\");\n"@
            + "    "@ + name + "_val <- mir_fresh_var \""@ + name + "\" ("@ + ty + ");\n"@
            + "    mir_points_to "@ + name + "_ref (mir_term "@ + name + "_val);\n"@,
        AllocType::FreshVar => "    "@ + name + " <- mir_fresh_var \""@ + name + "\" ("@ + ty + ");\n"@,
    } + mir_preconditions(p.preconditions@)
}

fn emit_mir_param_setup(out: &mut String, param: &ParamConstraint)
    ensures
        final(out)@ == old(out)@ + mir_param_setup(param),
{
    broadcast use {group_append, group_views};
    let name = param.name.as_str();
    let mir_type = mir_saw_type(param.saw_type.as_str());
    let ty = mir_type.as_str();
    put3(out, "\n    // Parameter: ", name, "\n");
    match param.alloc_type {
        AllocType::AllocReadonly => {
            put5(
                out,
                "    ",
                name,
                "_ref <- mir_alloc_readonly (mir_find_adt m \"",
                param.saw_type.as_str(),
                "\");\n",
            );
            put7(out, "    ", name, "_before <- mir_fresh_var \"", name, "\" (", ty, ");\n");
            put5(out, "    mir_points_to ", name, "_ref (mir_term ", name, "_before);\n");
        },
        AllocType::AllocMutable => {
            put5(
                out,
                "    ",
                name,
                "_ref <- mir_alloc (mir_find_adt m \"",
                param.saw_type.as_str(),
                "\");\n",
            );
            put7(out, "    ", name, "_val <- mir_fresh_var \"", name, "\" (", ty, ");\n");
            put5(out, "    mir_points_to ", name, "_ref (mir_term ", name, "_val);\n");
        },
        AllocType::FreshVar => {
            put7(out, "    ", name, " <- mir_fresh_var \"", name, "\" (", ty, ");\n");
        },
    }
    put_mir_preconditions(out, param.preconditions.as_slice());
}

/// The setup of each parameter.
pub open spec fn mir_param_setups(v: Seq<ParamConstraint>) -> Seq<char>
    decreases v.len(),
{
    if v.len() == 0 {
        nil()
    } else {
        mir_param_setups(v.drop_last()) + mir_param_setup(&v.last())
    }
}

/// The setup of each parameter.
fn put_mir_param_setups(out: &mut String, v: &[ParamConstraint])
    ensures
        final(out)@ == old(out)@ + mir_param_setups(v@),
{
    broadcast use lemma_append_nothing;
    let mut i: usize = 0;
    assert(mir_param_setups(v@.take(0)) =~= nil());
    while i < v.len()
        invariant
            i <= v@.len(),
            out@ == old(out)@ + mir_param_setups(v@.take(i as int)),
        decreases v@.len() - i,
    {
        proof {
            assert(v@.take(i + 1).drop_last() =~= v@.take(i as int));
            lemma_append_assoc(old(out)@, mir_param_setups(v@.take(i as int)), mir_param_setup(&v@[i as int]));
        }
        emit_mir_param_setup(out, &v[i]);
        i += 1;
    }
    assert(v@.take(v@.len() as int) =~= v@);
}

/// How the parameters are passed.
pub open spec fn mir_args_item(p: ParamConstraint) -> Seq<Seq<char>> {
    match p.alloc_type {
        AllocType::FreshVar => seq!["mir_term "@ + p.name@],
        _ => seq![p.name@ + "_ref"@],
    }
}

fn push_mir_args_item(out: &mut Vec<String>, p: &ParamConstraint)
    ensures
        views(final(out)@) == views(old(out)@) + mir_args_item(*p),
{
    broadcast use {group_append, group_views};
    let mut t = String::new();
    match p.alloc_type {
        AllocType::FreshVar => {
            put2(&mut t, "mir_term ", p.name.as_str());
        },
        _ => {
            put2(&mut t, p.name.as_str(), "_ref");
        },
    }
    out.push(t);
}

/// How the parameters are passed.
pub open spec fn mir_args(v: Seq<ParamConstraint>) -> Seq<Seq<char>>
    decreases v.len(),
{
    if v.len() == 0 {
        Seq::empty()
    } else {
        mir_args(v.drop_last()) + mir_args_item(v.last())
    }
}

/// How the parameters are passed.
fn push_mir_args(out: &mut Vec<String>, v: &[ParamConstraint])
    ensures
        views(final(out)@) == views(old(out)@) + mir_args(v@),
{
    broadcast use lemma_append_nothing;
    let mut i: usize = 0;
    assert(mir_args(v@.take(0)) =~= Seq::<Seq<char>>::empty());
    while i < v.len()
        invariant
            i <= v@.len(),
            views(out@) == views(old(out)@) + mir_args(v@.take(i as int)),
        decreases v@.len() - i,
    {
        proof {
            assert(v@.take(i + 1).drop_last() =~= v@.take(i as int));
            lemma_append_assoc(views(old(out)@), mir_args(v@.take(i as int)), mir_args_item(v@[i as int]));
        }
        push_mir_args_item(out, &v[i]);
        i += 1;
    }
    assert(v@.take(v@.len() as int) =~= v@);
}

/// What immutable references refer to is kept; what mutable ones refer to holds any value.
pub open spec fn mir_adversarial_params_item(p: ParamConstraint) -> Seq<char> {
    let name = p.name@;
    match p.alloc_type {
        AllocType::AllocReadonly => "    // "@ + name + ": PRESERVED (immutable ref)\n"@ + "    mir_points_to "@ + name
            + "_ref (mir_term "@ + name + "_before);\n"@,
        AllocType::AllocMutable => "    // "@ + name + ": HAVOCED (mutable ref)\n"@ + "    "@ + name
            + "_after <- mir_fresh_var \""@ + name + "_after\" ("@ + mir_text(p.saw_type@)
            + ");\n"@ + "    mir_points_to "@ + name + "_ref (mir_term "@ + name + "_after);\n"@,
        AllocType::FreshVar => nil(),
    }
}

fn put_mir_adversarial_params_item(out: &mut String, p: &ParamConstraint)
    ensures
        final(out)@ == old(out)@ + mir_adversarial_params_item(*p),
{
    broadcast use {group_append, group_views};
    let name = p.name.as_str();
    match p.alloc_type {
        AllocType::AllocReadonly => {
            put3(out, "    // ", name, ": PRESERVED (immutable ref)\n");
            put5(out, "    mir_points_to ", name, "_ref (mir_term ", name, "_before);\n");
        },
        AllocType::AllocMutable => {
            let ty = mir_saw_type(p.saw_type.as_str());
            put3(out, "    // ", name, ": HAVOCED (mutable ref)\n");
            put7(
                out,
                "    ",
                name,
                "_after <- mir_fresh_var \"",
                name,
                "_after\" (",
                ty.as_str(),
                ");\n",
            );
            put5(out, "    mir_points_to ", name, "_ref (mir_term ", name, "_after);\n");
        },
        AllocType::FreshVar => {},
    }
}

/// What immutable references refer to is kept; what mutable ones refer to holds any value.
pub open spec fn mir_adversarial_params(v: Seq<ParamConstraint>) -> Seq<char>
    decreases v.len(),
{
    if v.len() == 0 {
        nil()
    } else {
        mir_adversarial_params(v.drop_last()) + mir_adversarial_params_item(v.last())
    }
}

/// What immutable references refer to is kept; what mutable ones refer to holds any value.
fn put_mir_adversarial_params(out: &mut String, v: &[ParamConstraint])
    ensures
        final(out)@ == old(out)@ + mir_adversarial_params(v@),
{
    broadcast use lemma_append_nothing;
    let mut i: usize = 0;
    assert(mir_adversarial_params(v@.take(0)) =~= nil());
    while i < v.len()
        invariant
            i <= v@.len(),
            out@ == old(out)@ + mir_adversarial_params(v@.take(i as int)),
        decreases v@.len() - i,
    {
        proof {
            assert(v@.take(i + 1).drop_last() =~= v@.take(i as int));
            lemma_append_assoc(old(out)@, mir_adversarial_params(v@.take(i as int)), mir_adversarial_params_item(v@[i as int]));
        }
        put_mir_adversarial_params_item(out, &v[i]);
        i += 1;
    }
    assert(v@.take(v@.len() as int) =~= v@);
}

/// A fresh result with what constrains its value.
pub open spec fn mir_fresh_return(spec: &SpecConstraint) -> Seq<char> {
    let ret = &spec.return_constraint;
    "\n    ret <- mir_fresh_var \"ret\" ("@ + mir_text(ret.saw_type@) + ");\n"@
        + mir_value_constraints(ret.value_constraints@)
}

fn put_mir_fresh_return(out: &mut String, spec: &SpecConstraint)
    ensures
        final(out)@ == old(out)@ + mir_fresh_return(spec),
{
    broadcast use {group_append, group_views};
    let ret = &spec.return_constraint;
    let ty = mir_saw_type(ret.saw_type.as_str());
    put3(out, "\n    ret <- mir_fresh_var \"ret\" (", ty.as_str(), ");\n");
    put_mir_value_constraints(out, ret.value_constraints.as_slice());
}

/// Result and postconditions of a function whose body is unknown.
pub open spec fn mir_adversarial_text(spec: &SpecConstraint) -> Seq<char> {
    only_if(
        !void_saw_type(spec.return_constraint.saw_type@),
        mir_fresh_return(spec) + "    mir_return (mir_term ret);\n"@,
    ) + "\n    // Adversarial postconditions\n"@ + mir_adversarial_params(spec.params@)
}

fn emit_mir_adversarial(out: &mut String, spec: &SpecConstraint)
    ensures
        final(out)@ == old(out)@ + mir_adversarial_text(spec),
{
    broadcast use {group_append, group_views};
    if !is_void_saw_type(spec.return_constraint.saw_type.as_str()) {
        put_mir_fresh_return(out, spec);
        put(out, "    mir_return (mir_term ret);\n");
    }
    put(out, "\n    // Adversarial postconditions\n");
    put_mir_adversarial_params(out, spec.params.as_slice());
}

/// Result and postconditions of a function whose body is verified.
pub open spec fn mir_concrete_text(spec: &SpecConstraint) -> Seq<char> {
    let ty = spec.return_constraint.saw_type@;
    only_if(
        !void_saw_type(ty),
        mir_fresh_return(spec)
            + "    // ACTION REQUIRED: This spec only proves absence of undefined behavior.\n"@
            + "    // For functional correctness, import your Cryptol spec and replace ret:\n"@
            + "    //   mir_return (mir_term {{ my_spec x : "@ + cryptol_text(ty) + " }});\n"@
            + "    mir_return (mir_term ret);\n"@,
    ) + only_if(
        spec.postconditions@.len() > 0,
        "\n    // Postconditions\n"@ + mir_postconditions(spec.postconditions@),
    )
}

fn emit_mir_concrete(out: &mut String, spec: &SpecConstraint)
    ensures
        final(out)@ == old(out)@ + mir_concrete_text(spec),
{
    broadcast use {group_append, group_views};
    let ty = spec.return_constraint.saw_type.as_str();
    if !is_void_saw_type(ty) {
        put_mir_fresh_return(out, spec);
        let cry = cryptol_type_for_saw(ty);
        put(out, "    // ACTION REQUIRED: This spec only proves absence of undefined behavior.\n");
        put(out, "    // For functional correctness, import your Cryptol spec and replace ret:\n");
        put3(out, "    //   mir_return (mir_term {{ my_spec x : ", cry.as_str(), " }});\n");
        put(out, "    mir_return (mir_term ret);\n");
    }
    if spec.postconditions.len() > 0 {
        put(out, "\n    // Postconditions\n");
        put_mir_postconditions(out, spec.postconditions.as_slice());
    }
}

/// The specification of one function over MIR.
pub open spec fn mir_spec_text(spec: &SpecConstraint) -> Seq<char> {
    let name = spec.function_name@;
    let safe = sanitized(name);
    "// Auto-generated MIR spec for: "@ + name + "\n"@
        + "// Constraints derived from Rust type system\n"@ + "\nlet "@ + safe
        + "_auto_spec : MIRSetup () = do {\n"@ + mir_param_setups(spec.params@)
        + "\n    mir_execute_func ["@ + joined(mir_args(spec.params@), ", "@) + "];\n"@
        + if spec.is_virtual || !spec.has_body {
        mir_adversarial_text(spec) + "};\n"@ + "\n// Usage: ov_"@ + safe
            + " <- mir_unsafe_assume_spec m \""@ + name + "\" "@ + safe + "_auto_spec;\n"@
    } else {
        mir_concrete_text(spec) + "};\n"@ + "\n// Usage: ov_"@ + safe
            + " <- mir_verify m \""@ + name + "\" [] false "@ + safe + "_auto_spec z3;\n"@
    }
}

/// The specification of one function over MIR.
pub fn generate_mir_spec(spec: &SpecConstraint) -> (r: String)
    ensures
        r@ == mir_spec_text(spec),
{
    broadcast use {group_append, group_views};
    let mut out = String::new();
    let name = spec.function_name.as_str();
    let safe_name = sanitize_name(name);
    let safe = safe_name.as_str();
    put3(&mut out, "// Auto-generated MIR spec for: ", name, "\n");
    put(&mut out, "// Constraints derived from Rust type system\n");
    put3(&mut out, "\nlet ", safe, "_auto_spec : MIRSetup () = do {\n");
    put_mir_param_setups(&mut out, spec.params.as_slice());
    let mut args: Vec<String> = Vec::new();
    push_mir_args(&mut args, spec.params.as_slice());
    put3(&mut out, "\n    mir_execute_func [", join(&args, ", ").as_str(), "];\n");
    if spec.is_virtual || !spec.has_body {
        emit_mir_adversarial(&mut out, spec);
        put(&mut out, "};\n");
        put7(
            &mut out,
            "\n// Usage: ov_",
            safe,
            " <- mir_unsafe_assume_spec m \"",
            name,
            "\" ",
            safe,
            "_auto_spec;\n",
        );
    } else {
        emit_mir_concrete(&mut out, spec);
        put(&mut out, "};\n");
        put7(
            &mut out,
            "\n// Usage: ov_",
            safe,
            " <- mir_verify m \"",
            name,
            "\" [] false ",
            safe,
            "_auto_spec z3;\n",
        );
    }
    out
}

} // verus!
