//! The override of `memcmp` calls of one constant length.

use vstd::prelude::*;

use crate::text::{dec, group_append, group_views, numeral, put, put3, put4};

verus! {

/// The decimal numeral of a length.
pub open spec fn length_text(n: u64) -> Seq<char> {
    dec(n as nat)
}

fn length_numeral(n: u64) -> (r: String)
    ensures
        r@ == length_text(n),
{
    numeral(n as u128)
}

/// The override of `memcmp` for buffers of `n` bytes: 0 where they are
/// equal, 1 where they are not.
pub open spec fn memcmp_text(safe: Seq<char>, ov_name: Seq<char>, n: Seq<char>) -> Seq<char> {
    "\n// override: memcmp  [faithful; fixed length "@ + n + "]\n"@ + "let "@ + safe
        + "_spec = do {\n"@ + "    p0 <- llvm_alloc_readonly (llvm_array "@ + n
        + " (llvm_int 8));\n"@ + "    a <- llvm_fresh_var \"a\" (llvm_array "@ + n
        + " (llvm_int 8));\n"@ + "    llvm_points_to p0 (llvm_term a);\n"@
        + "    p1 <- llvm_alloc_readonly (llvm_array "@ + n + " (llvm_int 8));\n"@
        + "    b <- llvm_fresh_var \"b\" (llvm_array "@ + n + " (llvm_int 8));\n"@
        + "    llvm_points_to p1 (llvm_term b);\n"@
        + "    llvm_execute_func [p0, p1, llvm_term {{ "@ + n + " : [64] }}];\n"@
        + "    llvm_return (llvm_term {{ if a == b then (0 : [32]) else (1 : [32]) }});\n"@
        + "};\n"@ + ov_name + " <- llvm_unsafe_assume_spec m \"memcmp\" "@ + safe + "_spec;\n"@
}

/// Emits the override of `memcmp` for buffers of `n` bytes.
///
/// Sound for callers that test the result for zero only: the sign and the
/// magnitude of a non-zero result are not modelled.
pub fn emit_faithful_memcmp(out: &mut String, safe: &str, ov_name: &str, n: u64)
    ensures
        final(out)@ == old(out)@ + memcmp_text(safe@, ov_name@, length_text(n)),
{
    broadcast use {group_append, group_views};
    let digits = length_numeral(n);
    let num = digits.as_str();
    put3(out, "\n// override: memcmp  [faithful; fixed length ", num, "]\n");
    put3(out, "let ", safe, "_spec = do {\n");
    put3(out, "    p0 <- llvm_alloc_readonly (llvm_array ", num, " (llvm_int 8));\n");
    put3(out, "    a <- llvm_fresh_var \"a\" (llvm_array ", num, " (llvm_int 8));\n");
    put(out, "    llvm_points_to p0 (llvm_term a);\n");
    put3(out, "    p1 <- llvm_alloc_readonly (llvm_array ", num, " (llvm_int 8));\n");
    put3(out, "    b <- llvm_fresh_var \"b\" (llvm_array ", num, " (llvm_int 8));\n");
    put(out, "    llvm_points_to p1 (llvm_term b);\n");
    put3(out, "    llvm_execute_func [p0, p1, llvm_term {{ ", num, " : [64] }}];\n");
    put(out, "    llvm_return (llvm_term {{ if a == b then (0 : [32]) else (1 : [32]) }});\n");
    put(out, "};\n");
    put4(out, ov_name, " <- llvm_unsafe_assume_spec m \"memcmp\" ", safe, "_spec;\n");
}

} // verus!
