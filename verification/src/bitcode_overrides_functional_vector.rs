//! The model of a vector of integers: a ghost variable that holds the
//! element last pushed.

use vstd::prelude::*;

use crate::bitcode_overrides_functional::{method_text, vector_method, StlMethod};
use crate::text::{
    contains, dec, group_append, group_views, mentions, numeral, put, put3, put5, put6,
};

verus! {

/// The width of the element type of a vector, where it is an integer: the
/// type code stands between the class and its allocator.
pub open spec fn element_bits(m: Seq<char>) -> Option<u32> {
    if mentions(m, "St6vectorIjSaIjE"@) || mentions(m, "St6vectorIiSaIiE"@) {
        Some(32u32)
    } else if mentions(m, "St6vectorImSaImE"@) || mentions(m, "St6vectorIlSaIlE"@) {
        Some(64u32)
    } else {
        None
    }
}

/// The width of the element type of a vector, where it is an integer.
pub fn element_bits_from_mangled(m: &str) -> (r: Option<u32>)
    ensures
        r == element_bits(m@),
{
    if contains(m, "St6vectorIjSaIjE") || contains(m, "St6vectorIiSaIiE") {
        Some(32)
    } else if contains(m, "St6vectorImSaImE") || contains(m, "St6vectorIlSaIlE") {
        Some(64)
    } else {
        None
    }
}

/// The declaration of the ghost variable.
pub open spec fn ghost_decl() -> Seq<char> {
    "\n// ghost state shared by the std::vector overrides: the element last pushed\n"@
        + "vec_last <- declare_ghost_state \"vec_last\";\n"@
}

/// Emits the declaration of the ghost variable.
pub fn emit_vector_ghost_decl(out: &mut String)
    ensures
        final(out)@ == old(out)@ + ghost_decl(),
{
    broadcast use {group_append, group_views};
    put(out, "\n// ghost state shared by the std::vector overrides: the element last pushed\n");
    put(out, "vec_last <- declare_ghost_state \"vec_last\";\n");
}

/// What the model of each method says of a vector `v`: `push_back` writes
/// the ghost variable, and `back` reads it.
pub open spec fn vector_body(method: StlMethod, bits: Seq<char>) -> Seq<char> {
    match method {
        StlMethod::VectorPushBackRvalue => "    x_ptr <- llvm_alloc_readonly (llvm_int "@ + bits + ");\n"@
            + "    x <- llvm_fresh_var \"x\" (llvm_int "@ + bits + ");\n"@
            + "    llvm_points_to x_ptr (llvm_term x);\n"@
            + "    llvm_execute_func [v, x_ptr];\n"@ + "    llvm_ghost_value vec_last x;\n"@,
        StlMethod::VectorBack => "    x <- llvm_fresh_var \"x\" (llvm_int "@ + bits + ");\n"@
            + "    llvm_ghost_value vec_last x;\n"@ + "    llvm_execute_func [v];\n"@
            + "    r <- llvm_alloc (llvm_int "@ + bits + ");\n"@
            + "    llvm_points_to r (llvm_term x);\n"@ + "    llvm_ghost_value vec_last x;\n"@
            + "    llvm_return r;\n"@,
        _ => "    llvm_execute_func [v];\n"@,
    }
}

fn put_vector_body(out: &mut String, method: StlMethod, bits: &str)
    ensures
        final(out)@ == old(out)@ + vector_body(method, bits@),
{
    broadcast use {group_append, group_views};
    match method {
        StlMethod::VectorPushBackRvalue => {
            put3(out, "    x_ptr <- llvm_alloc_readonly (llvm_int ", bits, ");\n");
            put3(out, "    x <- llvm_fresh_var \"x\" (llvm_int ", bits, ");\n");
            put(out, "    llvm_points_to x_ptr (llvm_term x);\n");
            put(out, "    llvm_execute_func [v, x_ptr];\n");
            put(out, "    llvm_ghost_value vec_last x;\n");
        },
        StlMethod::VectorBack => {
            put3(out, "    x <- llvm_fresh_var \"x\" (llvm_int ", bits, ");\n");
            put(out, "    llvm_ghost_value vec_last x;\n");
            put(out, "    llvm_execute_func [v];\n");
            put3(out, "    r <- llvm_alloc (llvm_int ", bits, ");\n");
            put(out, "    llvm_points_to r (llvm_term x);\n");
            put(out, "    llvm_ghost_value vec_last x;\n");
            put(out, "    llvm_return r;\n");
        },
        _ => {
            put(out, "    llvm_execute_func [v];\n");
        },
    }
}

/// The model of a vector method.
pub open spec fn vector_text(
    method: StlMethod,
    bits: u32,
    symbol: Seq<char>,
    safe: Seq<char>,
    ov_name: Seq<char>,
) -> Seq<char> {
    "\n// override: "@ + symbol + "  [stl-functional: "@ + method_text(method) + "]\n"@
        + "let "@ + safe + "_spec = do {\n"@ + "    v <- llvm_fresh_pointer (llvm_int 8);\n"@
        + vector_body(method, dec(bits as nat)) + "};\n"@ + ov_name
        + " <- llvm_unsafe_assume_spec m \""@ + symbol + "\" "@ + safe + "_spec;\n"@
}

/// Emits the model of a vector method.
pub fn emit_vector_override(
    out: &mut String,
    method: StlMethod,
    bits: u32,
    symbol: &str,
    safe: &str,
    ov_name: &str,
)
    requires
        vector_method(method),
    ensures
        final(out)@ == old(out)@ + vector_text(method, bits, symbol@, safe@, ov_name@),
{
    broadcast use {group_append, group_views};
    let kind = method.name();
    let width = numeral(bits as u128);
    put5(out, "\n// override: ", symbol, "  [stl-functional: ", kind, "]\n");
    put3(out, "let ", safe, "_spec = do {\n");
    put(out, "    v <- llvm_fresh_pointer (llvm_int 8);\n");
    put_vector_body(out, method, width.as_str());
    put(out, "};\n");
    put6(out, ov_name, " <- llvm_unsafe_assume_spec m \"", symbol, "\" ", safe, "_spec;\n");
}

} // verus!
