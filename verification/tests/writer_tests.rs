//! The type of a function without a result.

use saw_spec_gen::writer::{is_void_saw_type, VOID_SAW_TYPE};

#[test]
fn void_constant_is_stable() {
    assert_eq!(VOID_SAW_TYPE, "// void");
    assert!(is_void_saw_type("// void"));
    assert!(!is_void_saw_type("llvm_int 32"));
    assert!(!is_void_saw_type("// VOID"));
}
