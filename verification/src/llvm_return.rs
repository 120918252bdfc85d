//! Result and postconditions of a specification over LLVM.

use vstd::prelude::*;

use crate::constraints::{AllocType, ParamConstraint, SpecConstraint};
use crate::text::{
    group_append, group_views, lemma_append_assoc, lemma_append_nothing, nil, only_if, put, put3,
    put5, put7,
};
use crate::types::{cryptol_text, cryptol_type_for_saw};
use crate::writer::{is_void_saw_type, void_saw_type};

verus! {

/// Each text as a statement of its own.
pub open spec fn statements_item(s: String) -> Seq<char> {
    "    "@ + s@ + ";\n"@
}

fn put_statements_item(out: &mut String, s: &String)
    ensures
        final(out)@ == old(out)@ + statements_item(*s),
{
    broadcast use {group_append, group_views};
    put3(out, "    ", s.as_str(), ";\n");
}

/// Each text as a statement of its own.
pub open spec fn statements(v: Seq<String>) -> Seq<char>
    decreases v.len(),
{
    if v.len() == 0 {
        nil()
    } else {
        statements(v.drop_last()) + statements_item(v.last())
    }
}

/// Each text as a statement of its own.
pub fn put_statements(out: &mut String, v: &[String])
    ensures
        final(out)@ == old(out)@ + statements(v@),
{
    broadcast use lemma_append_nothing;
    let mut i: usize = 0;
    assert(statements(v@.take(0)) =~= nil());
    while i < v.len()
        invariant
            i <= v@.len(),
            out@ == old(out)@ + statements(v@.take(i as int)),
        decreases v@.len() - i,
    {
        proof {
            assert(v@.take(i + 1).drop_last() =~= v@.take(i as int));
            lemma_append_assoc(old(out)@, statements(v@.take(i as int)), statements_item(v@[i as int]));
        }
        put_statements_item(out, &v[i]);
        i += 1;
    }
    assert(v@.take(v@.len() as int) =~= v@);
}

/// A returned pointer points to a fresh value, so that a caller may
/// dereference it.
pub open spec fn pointer_return(ty: Seq<char>) -> Seq<char> {
    "\n    ret_ptr <- llvm_alloc ("@ + ty + ");\n"@
        + "    ret_val <- llvm_fresh_var \"ret_val\" ("@ + ty + ");\n"@
        + "    llvm_points_to ret_ptr (llvm_term ret_val);\n"@ + "    llvm_return ret_ptr;\n"@
}

/// A fresh result with what constrains its value.
pub open spec fn fresh_return(ty: Seq<char>, constraints: Seq<String>) -> Seq<char> {
    "\n    ret <- llvm_fresh_var \"ret\" ("@ + ty + ");\n"@ + statements(constraints)
}

fn put_pointer_return(out: &mut String, ty: &str)
    ensures
        final(out)@ == old(out)@ + pointer_return(ty@),
{
    broadcast use {group_append, group_views};
    put3(out, "\n    ret_ptr <- llvm_alloc (", ty, ");\n");
    put3(out, "    ret_val <- llvm_fresh_var \"ret_val\" (", ty, ");\n");
    put(out, "    llvm_points_to ret_ptr (llvm_term ret_val);\n");
    put(out, "    llvm_return ret_ptr;\n");
}

fn put_fresh_return(out: &mut String, ty: &str, constraints: &[String])
    ensures
        final(out)@ == old(out)@ + fresh_return(ty@, constraints@),
{
    broadcast use {group_append, group_views};
    put3(out, "\n    ret <- llvm_fresh_var \"ret\" (", ty, ");\n");
    put_statements(out, constraints);
}

/// Const memory is kept; mutable memory holds any value.
pub open spec fn adversarial_params_item(p: ParamConstraint) -> Seq<char> {
    let name = p.name@;
    match p.alloc_type {
        AllocType::AllocReadonly => "    // "@ + name + ": PRESERVED (const)\n"@ + "    llvm_points_to "@ + name
            + "_ptr (llvm_term "@ + name + "_before);\n"@,
        AllocType::AllocMutable => "    // "@ + name + ": HAVOCED (mutable)\n"@ + "    "@ + name
            + "_after <- llvm_fresh_var \""@ + name + "_after\" ("@ + p.saw_type@ + ");\n"@
            + "    llvm_points_to "@ + name + "_ptr (llvm_term "@ + name + "_after);\n"@,
        AllocType::FreshVar => nil(),
    }
}

fn put_adversarial_params_item(out: &mut String, p: &ParamConstraint)
    ensures
        final(out)@ == old(out)@ + adversarial_params_item(*p),
{
    broadcast use {group_append, group_views};
    let name = p.name.as_str();
    match p.alloc_type {
        AllocType::AllocReadonly => {
            put3(out, "    // ", name, ": PRESERVED (const)\n");
            put5(out, "    llvm_points_to ", name, "_ptr (llvm_term ", name, "_before);\n");
        },
        AllocType::AllocMutable => {
            put3(out, "    // ", name, ": HAVOCED (mutable)\n");
            put7(
                out,
                "    ",
                name,
                "_after <- llvm_fresh_var \"",
                name,
                "_after\" (",
                p.saw_type.as_str(),
                ");\n",
            );
            put5(out, "    llvm_points_to ", name, "_ptr (llvm_term ", name, "_after);\n");
        },
        AllocType::FreshVar => {},
    }
}

/// Const memory is kept; mutable memory holds any value.
pub open spec fn adversarial_params(v: Seq<ParamConstraint>) -> Seq<char>
    decreases v.len(),
{
    if v.len() == 0 {
        nil()
    } else {
        adversarial_params(v.drop_last()) + adversarial_params_item(v.last())
    }
}

/// Const memory is kept; mutable memory holds any value.
fn put_adversarial_params(out: &mut String, v: &[ParamConstraint])
    ensures
        final(out)@ == old(out)@ + adversarial_params(v@),
{
    broadcast use lemma_append_nothing;
    let mut i: usize = 0;
    assert(adversarial_params(v@.take(0)) =~= nil());
    while i < v.len()
        invariant
            i <= v@.len(),
            out@ == old(out)@ + adversarial_params(v@.take(i as int)),
        decreases v@.len() - i,
    {
        proof {
            assert(v@.take(i + 1).drop_last() =~= v@.take(i as int));
            lemma_append_assoc(old(out)@, adversarial_params(v@.take(i as int)), adversarial_params_item(v@[i as int]));
        }
        put_adversarial_params_item(out, &v[i]);
        i += 1;
    }
    assert(v@.take(v@.len() as int) =~= v@);
}

/// Result and postconditions of a function whose body is unknown.
pub open spec fn adversarial_text(spec: &SpecConstraint) -> Seq<char> {
    let ret = &spec.return_constraint;
    let ty = ret.saw_type@;
    (if ret.returns_pointer {
        pointer_return(ty)
    } else if ret.is_sret {
        fresh_return(ty, ret.value_constraints@)
            + "    llvm_points_to result_ptr (llvm_term ret);\n"@
    } else if !void_saw_type(ty) {
        fresh_return(ty, ret.value_constraints@) + "    llvm_return (llvm_term ret);\n"@
    } else {
        nil()
    }) + "\n    // Adversarial postconditions\n"@ + adversarial_params(spec.params@)
}

/// Emits result and postconditions of a function whose body is unknown:
/// any result, mutable memory with any value, const memory unchanged.
pub fn emit_adversarial_return_and_postconds(out: &mut String, spec: &SpecConstraint)
    ensures
        final(out)@ == old(out)@ + adversarial_text(spec),
{
    broadcast use {group_append, group_views};
    let ret = &spec.return_constraint;
    let ty = ret.saw_type.as_str();
    if ret.returns_pointer {
        put_pointer_return(out, ty);
    } else if ret.is_sret {
        put_fresh_return(out, ty, ret.value_constraints.as_slice());
        put(out, "    llvm_points_to result_ptr (llvm_term ret);\n");
    } else if !is_void_saw_type(ty) {
        put_fresh_return(out, ty, ret.value_constraints.as_slice());
        put(out, "    llvm_return (llvm_term ret);\n");
    }
    put(out, "\n    // Adversarial postconditions\n");
    put_adversarial_params(out, spec.params.as_slice());
}

pub open spec fn action_required() -> Seq<char> {
    "    // ACTION REQUIRED: This spec only proves absence of undefined behavior.\n"@
        + "    // For functional correctness, import your Cryptol spec and replace ret:\n"@
        + "    //   import \"my_spec.cry\";\n"@
}

fn put_action_required(out: &mut String)
    ensures
        final(out)@ == old(out)@ + action_required(),
{
    broadcast use {group_append, group_views};
    put(out, "    // ACTION REQUIRED: This spec only proves absence of undefined behavior.\n");
    put(out, "    // For functional correctness, import your Cryptol spec and replace ret:\n");
    put(out, "    //   import \"my_spec.cry\";\n");
}

/// Result and postconditions of a function whose body is verified.
pub open spec fn concrete_text(spec: &SpecConstraint) -> Seq<char> {
    let ret = &spec.return_constraint;
    let ty = ret.saw_type@;
    (if ret.returns_pointer {
        pointer_return(ty)
    } else if ret.is_sret {
        fresh_return(ty, ret.value_constraints@) + action_required()
            + "    //   llvm_points_to result_ptr (llvm_term {{ my_spec x }});\n"@
            + "    llvm_points_to result_ptr (llvm_term ret);\n"@
    } else if !void_saw_type(ty) {
        fresh_return(ty, ret.value_constraints@) + action_required()
            + "    //   llvm_return (llvm_term {{ my_spec x : "@ + cryptol_text(ty) + " }});\n"@
            + "    llvm_return (llvm_term ret);\n"@
    } else {
        nil()
    }) + only_if(
        spec.postconditions@.len() > 0,
        "\n    // Postconditions\n"@ + statements(spec.postconditions@),
    )
}

/// Emits result and postconditions of a function whose body is verified:
/// any result, and a comment that shows how to state what it should be.
pub fn emit_concrete_return_and_postconds(out: &mut String, spec: &SpecConstraint)
    ensures
        final(out)@ == old(out)@ + concrete_text(spec),
{
    broadcast use {group_append, group_views};
    let ret = &spec.return_constraint;
    let ty = ret.saw_type.as_str();
    if ret.returns_pointer {
        put_pointer_return(out, ty);
    } else if ret.is_sret {
        put_fresh_return(out, ty, ret.value_constraints.as_slice());
        put_action_required(out);
        put(out, "    //   llvm_points_to result_ptr (llvm_term {{ my_spec x }});\n");
        put(out, "    llvm_points_to result_ptr (llvm_term ret);\n");
    } else if !is_void_saw_type(ty) {
        put_fresh_return(out, ty, ret.value_constraints.as_slice());
        put_action_required(out);
        let cry = cryptol_type_for_saw(ty);
        put3(out, "    //   llvm_return (llvm_term {{ my_spec x : ", cry.as_str(), " }});\n");
        put(out, "    llvm_return (llvm_term ret);\n");
    }
    if spec.postconditions.len() > 0 {
        put(out, "\n    // Postconditions\n");
        put_statements(out, spec.postconditions.as_slice());
    }
}

} // verus!
