//! Overrides of functions that create objects of an interface class.

use vstd::prelude::*;

use crate::constraints::{
    globals_view, AllocType, GlobalVarInfo, GlobalView, ParamConstraint, SpecConstraint, TypeInfo,
};
use crate::llvm_setup::init_bits;
use crate::llvm_spec::{
    GeneratedFile, file_name, param_args, push_param_args, spec_file_name, target_name, target_of,
};
use crate::names::{lower_id, sanitize_lower, sanitize_name, sanitized, spec_key, spec_safe_id};
use crate::text::{
    dec, group_append, group_views, join, joined, lemma_append_assoc, lemma_append_nothing, nil,
    only_if, put, put3, put5, put7, put_dec,
};

verus! {

/// The setup of the parameters.
pub open spec fn factory_params_item(p: ParamConstraint) -> Seq<char> {
    let name = p.name@;
    match p.alloc_type {
        AllocType::FreshVar => "    "@ + name + " <- llvm_fresh_var \""@ + name + "\" ("@ + p.saw_type@ + ");\n"@,
        AllocType::AllocReadonly => "    "@ + name + "_ptr <- llvm_alloc_readonly ("@ + p.saw_type@ + ");\n"@,
        AllocType::AllocMutable => "    "@ + name + "_ptr <- llvm_alloc ("@ + p.saw_type@ + ");\n"@,
    }
}

fn put_factory_params_item(out: &mut String, p: &ParamConstraint)
    ensures
        final(out)@ == old(out)@ + factory_params_item(*p),
{
    broadcast use {group_append, group_views};
    let name = p.name.as_str();
    let ty = p.saw_type.as_str();
    match p.alloc_type {
        AllocType::FreshVar => {
            put7(out, "    ", name, " <- llvm_fresh_var \"", name, "\" (", ty, ");\n");
        },
        AllocType::AllocReadonly => {
            put5(out, "    ", name, "_ptr <- llvm_alloc_readonly (", ty, ");\n");
        },
        AllocType::AllocMutable => {
            put5(out, "    ", name, "_ptr <- llvm_alloc (", ty, ");\n");
        },
    }
}

/// The setup of the parameters.
pub open spec fn factory_params(v: Seq<ParamConstraint>) -> Seq<char>
    decreases v.len(),
{
    if v.len() == 0 {
        nil()
    } else {
        factory_params(v.drop_last()) + factory_params_item(v.last())
    }
}

/// The setup of the parameters.
fn put_factory_params(out: &mut String, v: &[ParamConstraint])
    ensures
        final(out)@ == old(out)@ + factory_params(v@),
{
    broadcast use lemma_append_nothing;
    let mut i: usize = 0;
    assert(factory_params(v@.take(0)) =~= nil());
    while i < v.len()
        invariant
            i <= v@.len(),
            out@ == old(out)@ + factory_params(v@.take(i as int)),
        decreases v@.len() - i,
    {
        proof {
            assert(v@.take(i + 1).drop_last() =~= v@.take(i as int));
            lemma_append_assoc(old(out)@, factory_params(v@.take(i as int)), factory_params_item(v@[i as int]));
        }
        put_factory_params_item(out, &v[i]);
        i += 1;
    }
    assert(v@.take(v@.len() as int) =~= v@);
}

/// Each global variable holds any value after the call.
pub open spec fn factory_globals_item(g: GlobalView) -> Seq<char> {
    let post = sanitized(g.name) + "_post"@;
    "    "@ + post + " <- llvm_fresh_var \""@ + post + "\" (llvm_int "@
        + dec(init_bits(g.ty) as nat) + ");\n"@ + "    llvm_points_to (llvm_global \""@
        + g.mangled_name + "\") (llvm_term "@ + post + ");\n"@
}

fn put_factory_globals_item(out: &mut String, g: &GlobalVarInfo)
    ensures
        final(out)@ == old(out)@ + factory_globals_item(g@),
{
    broadcast use {group_append, group_views};
    let bits: u32 = match &g.ty {
        TypeInfo::SignedInt(b) => *b,
        TypeInfo::UnsignedInt(b) => *b,
        TypeInfo::Bool => 1,
        _ => 32,
    };
    let mut post_name = sanitize_name(g.name.as_str());
    put(&mut post_name, "_post");
    let post = post_name.as_str();
    put5(out, "    ", post, " <- llvm_fresh_var \"", post, "\" (llvm_int ");
    put_dec(out, bits as u128);
    put(out, ");\n");
    put5(
        out,
        "    llvm_points_to (llvm_global \"",
        g.mangled_name.as_str(),
        "\") (llvm_term ",
        post,
        ");\n",
    );
}

/// Each global variable holds any value after the call.
pub open spec fn factory_globals(v: Seq<GlobalView>) -> Seq<char>
    decreases v.len(),
{
    if v.len() == 0 {
        nil()
    } else {
        factory_globals(v.drop_last()) + factory_globals_item(v.last())
    }
}

/// Each global variable holds any value after the call.
fn put_factory_globals(out: &mut String, v: &[GlobalVarInfo])
    ensures
        final(out)@ == old(out)@ + factory_globals(globals_view(v@)),
{
    broadcast use lemma_append_nothing;
    let ghost w = globals_view(v@);
    let mut i: usize = 0;
    assert(factory_globals(w.take(0)) =~= nil());
    while i < v.len()
        invariant
            w == globals_view(v@),
            i <= v@.len(),
            out@ == old(out)@ + factory_globals(w.take(i as int)),
        decreases v@.len() - i,
    {
        proof {
            assert(w.take(i + 1).drop_last() =~= w.take(i as int));
            assert(w.take(i + 1).last() == v@[i as int]@);
            lemma_append_assoc(old(out)@, factory_globals(w.take(i as int)), factory_globals_item(w[i as int]));
        }
        put_factory_globals_item(out, &v[i]);
        i += 1;
    }
    assert(w.take(w.len() as int) =~= w);
}

/// The override of a function that creates an object of an interface
/// class: the object's virtual table holds the stubs.
pub open spec fn factory_text(
    spec: &SpecConstraint,
    interface_class: Seq<char>,
    globals: Seq<GlobalView>,
) -> Seq<char> {
    let id = sanitized(spec_key(spec));
    let iface = lower_id(interface_class);
    "// Factory spec for "@ + spec.function_name@ + ": returns "@ + interface_class
        + "* wired to "@ + iface + "_vtable.\n"@
        + "// Must be included after interface_overrides.saw.\n\n"@ + "let "@ + id
        + "_factory : LLVMSetup () = do {\n"@ + factory_params(spec.params@)
        + "\n    llvm_execute_func ["@ + joined(param_args(spec.params@), ", "@) + "];\n\n"@ + only_if(
        globals.len() > 0,
        factory_globals(globals) + "\n"@,
    ) + "    this_pointer <- alloc_"@ + iface + "_this;\n"@ + "    llvm_return this_pointer;\n"@
        + "};\n"@ + "ov_"@ + id + " <- llvm_unsafe_assume_spec m \""@ + target_of(spec) + "\" "@
        + id + "_factory;\n"@
}

/// The file with the override of a function that creates an object of an
/// interface class. It uses a helper of the interface overrides, so it
/// comes after them.
pub fn emit_interface_factory_spec(
    spec: &SpecConstraint,
    interface_class: &str,
    all_globals: &[GlobalVarInfo],
) -> (r: GeneratedFile)
    ensures
        r@ == (
            spec_file_name(sanitized(spec_key(spec))),
            factory_text(spec, interface_class@, globals_view(all_globals@)),
        ),
{
    broadcast use {group_append, group_views};
    let override_id = spec_safe_id(spec);
    let id = override_id.as_str();
    let interface_id = sanitize_lower(interface_class);
    let iface = interface_id.as_str();
    let mut out = String::new();
    put7(
        &mut out,
        "// Factory spec for ",
        spec.function_name.as_str(),
        ": returns ",
        interface_class,
        "* wired to ",
        iface,
        "_vtable.\n",
    );
    put(&mut out, "// Must be included after interface_overrides.saw.\n\n");
    put3(&mut out, "let ", id, "_factory : LLVMSetup () = do {\n");
    put_factory_params(&mut out, spec.params.as_slice());
    let mut args: Vec<String> = Vec::new();
    push_param_args(&mut args, spec.params.as_slice());
    put3(&mut out, "\n    llvm_execute_func [", join(&args, ", ").as_str(), "];\n\n");
    if all_globals.len() > 0 {
        put_factory_globals(&mut out, all_globals);
        put(&mut out, "\n");
    }
    put3(&mut out, "    this_pointer <- alloc_", iface, "_this;\n");
    put(&mut out, "    llvm_return this_pointer;\n");
    put(&mut out, "};\n");
    put7(
        &mut out,
        "ov_",
        id,
        " <- llvm_unsafe_assume_spec m \"",
        target_name(spec),
        "\" ",
        id,
        "_factory;\n",
    );
    GeneratedFile { name: file_name(id), content: out }
}

} // verus!
