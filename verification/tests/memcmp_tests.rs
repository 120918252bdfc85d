//! The override of the comparison of memory.

use saw_spec_gen::memcmp_override::emit_faithful_memcmp;

#[test]
fn faithful_spec_models_equality_over_fixed_length() {
    let mut out = String::new();
    emit_faithful_memcmp(&mut out, "memcmp", "ov_memcmp", 16);
    assert!(out.contains("faithful; fixed length 16"));
    assert!(out.contains("llvm_array 16 (llvm_int 8)"));
    assert!(out.contains("if a == b then (0 : [32]) else (1 : [32])"));
    assert!(out.contains("llvm_execute_func [p0, p1, llvm_term {{ 16 : [64] }}]"));
    assert!(!out.contains("rv <- llvm_fresh_var"));
}

#[test]
fn faithful_spec_binds_the_override_name() {
    let mut out = String::new();
    emit_faithful_memcmp(&mut out, "memcmp", "ov_memcmp", 8);
    assert!(out.contains("ov_memcmp <- llvm_unsafe_assume_spec m \"memcmp\" memcmp_spec;"));
}
