//! Setup of parameters and global variables in a specification over LLVM.

use vstd::prelude::*;

use crate::constraints::{
    globals_view, AllocType, GlobalVarInfo, GlobalView, ParamConstraint, TypeInfo, TypeView,
};
use crate::llvm_return::{put_statements, statements};
use crate::names::{allocator, object_allocator, sanitize_name, sanitized};
use crate::text::{
    dec, group_append, group_views, lemma_append_assoc, lemma_append_nothing, nil, put, put3, put5,
    put7, put_dec,
};
use crate::types::{saw_text, type_to_saw};

verus! {

/// The setup of one parameter, with its preconditions.
pub open spec fn param_setup(p: &ParamConstraint) -> Seq<char> {
    let name = p.name@;
    let ty = p.saw_type@;
    "\n    // Parameter: "@ + name + "\n"@ + match p.alloc_type {
        AllocType::AllocReadonly => "    "@ + name + "_ptr <- "@ + allocator(false, ty) + " ("@ + ty + ");\n"@ + "    "@
            + name + "_before <- llvm_fresh_var \""@ + name + "\" ("@ + ty + ");\n"@
            + "    llvm_points_to "@ + name + "_ptr (llvm_term "@ + name + "_before);\n"@,
        AllocType::AllocMutable => "    "@ + name + "_ptr <- "@ + allocator(true, ty) + " ("@ + ty + ");\n"@ + "    "@
            + name + "_val <- llvm_fresh_var \""@ + name + "\" ("@ + ty + ");\n"@
            + "    llvm_points_to "@ + name + "_ptr (llvm_term "@ + name + "_val);\n"@,
        AllocType::FreshVar => "    "@ + name + " <- llvm_fresh_var \""@ + name + "\" ("@ + ty + ");\n"@,
    } + statements(p.preconditions@)
}

/// Emits the setup of one parameter, with its preconditions.
pub fn emit_llvm_param_setup(out: &mut String, param: &ParamConstraint)
    ensures
        final(out)@ == old(out)@ + param_setup(param),
{
    broadcast use {group_append, group_views};
    let name = param.name.as_str();
    let ty = param.saw_type.as_str();
    put3(out, "\n    // Parameter: ", name, "\n");
    match param.alloc_type {
        AllocType::AllocReadonly => {
            let alloc = object_allocator(false, ty);
            put7(out, "    ", name, "_ptr <- ", alloc.as_str(), " (", ty, ");\n");
            put7(out, "    ", name, "_before <- llvm_fresh_var \"", name, "\" (", ty, ");\n");
            put5(out, "    llvm_points_to ", name, "_ptr (llvm_term ", name, "_before);\n");
        },
        AllocType::AllocMutable => {
            let alloc = object_allocator(true, ty);
            put7(out, "    ", name, "_ptr <- ", alloc.as_str(), " (", ty, ");\n");
            put7(out, "    ", name, "_val <- llvm_fresh_var \"", name, "\" (", ty, ");\n");
            put5(out, "    llvm_points_to ", name, "_ptr (llvm_term ", name, "_val);\n");
        },
        AllocType::FreshVar => {
            put7(out, "    ", name, " <- llvm_fresh_var \"", name, "\" (", ty, ");\n");
        },
    }
    put_statements(out, param.preconditions.as_slice());
}

/// The width in bits of the initial value of a global variable.
pub open spec fn init_bits(ty: TypeView) -> u32 {
    match ty {
        TypeView::SignedInt(b) => b,
        TypeView::UnsignedInt(b) => b,
        TypeView::Bool => 1,
        _ => 32,
    }
}

/// The setup of one global variable: its initial value, the initialiser
/// of the module, or any value.
pub open spec fn global_setup(g: GlobalView) -> Seq<char> {
    let name = g.mangled_name;
    "    llvm_alloc_global \""@ + name + "\";\n"@ + match g.init_value {
        Some(init) => "    llvm_points_to (llvm_global \""@ + name + "\") (llvm_term {{ "@ + init
            + " : ["@ + dec(init_bits(g.ty) as nat) + "] }});\n"@,
        None => if g.has_static_initializer {
            "    llvm_points_to (llvm_global \""@ + name
                + "\") (llvm_global_initializer \""@ + name + "\");\n"@
        } else {
            let safe = sanitized(g.name);
            "    "@ + safe + "_global <- llvm_fresh_var \""@ + safe + "\" ("@
                + saw_text(g.ty) + ");\n"@ + "    llvm_points_to (llvm_global \""@ + name
                + "\") (llvm_term "@ + safe + "_global);\n"@
        },
    }
}

fn put_global_setup(out: &mut String, global: &GlobalVarInfo)
    ensures
        final(out)@ == old(out)@ + global_setup(global@),
{
    broadcast use {group_append, group_views};
    let name = global.mangled_name.as_str();
    put3(out, "    llvm_alloc_global \"", name, "\";\n");
    if let Some(init_value) = &global.init_value {
        let init = init_value.as_str();
        let bits: u32 = match &global.ty {
            TypeInfo::SignedInt(b) => *b,
            TypeInfo::UnsignedInt(b) => *b,
            TypeInfo::Bool => 1,
            _ => 32,
        };
        put5(out, "    llvm_points_to (llvm_global \"", name, "\") (llvm_term {{ ", init, " : [");
        put_dec(out, bits as u128);
        put(out, "] }});\n");
    } else if global.has_static_initializer {
        put5(
            out,
            "    llvm_points_to (llvm_global \"",
            name,
            "\") (llvm_global_initializer \"",
            name,
            "\");\n",
        );
    } else {
        let safe_name = sanitize_name(global.name.as_str());
        let safe = safe_name.as_str();
        let saw_type = type_to_saw(&global.ty);
        put7(
            out,
            "    ",
            safe,
            "_global <- llvm_fresh_var \"",
            safe,
            "\" (",
            saw_type.as_str(),
            ");\n",
        );
        put5(
            out,
            "    llvm_points_to (llvm_global \"",
            name,
            "\") (llvm_term ",
            safe,
            "_global);\n",
        );
    }
}

/// The setup of each global variable.
pub open spec fn global_setups(v: Seq<GlobalView>) -> Seq<char>
    decreases v.len(),
{
    if v.len() == 0 {
        nil()
    } else {
        global_setups(v.drop_last()) + global_setup(v.last())
    }
}

/// The setup of each global variable.
fn put_global_setups(out: &mut String, v: &[GlobalVarInfo])
    ensures
        final(out)@ == old(out)@ + global_setups(globals_view(v@)),
{
    broadcast use lemma_append_nothing;
    let ghost w = globals_view(v@);
    let mut i: usize = 0;
    assert(global_setups(w.take(0)) =~= nil());
    while i < v.len()
        invariant
            w == globals_view(v@),
            i <= v@.len(),
            out@ == old(out)@ + global_setups(w.take(i as int)),
        decreases v@.len() - i,
    {
        proof {
            assert(w.take(i + 1).drop_last() =~= w.take(i as int));
            assert(w.take(i + 1).last() == v@[i as int]@);
            lemma_append_assoc(old(out)@, global_setups(w.take(i as int)), global_setup(w[i as int]));
        }
        put_global_setup(out, &v[i]);
        i += 1;
    }
    assert(w.take(w.len() as int) =~= w);
}

pub open spec fn globals_setup(globals: Seq<GlobalView>) -> Seq<char> {
    "\n    // Referenced global variables (initialized to compile-time values)\n"@
        + global_setups(globals)
}

/// Emits the setup of the global variables.
pub fn emit_llvm_globals_setup(out: &mut String, globals: &[GlobalVarInfo])
    ensures
        final(out)@ == old(out)@ + globals_setup(globals_view(globals@)),
{
    broadcast use {group_append, group_views};
    put(out, "\n    // Referenced global variables (initialized to compile-time values)\n");
    put_global_setups(out, globals);
}

} // verus!
