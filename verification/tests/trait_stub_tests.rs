//! Stubs of trait methods.

use saw_spec_gen::rust_trait_emit::{
    walk, LlvmStubEmitter, Method, RustType, SawSpecEmitter, Trait, TraitSchema,
};

fn stepper_schema() -> TraitSchema {
    TraitSchema {
        traits: vec![Trait {
            name: "Stepper".into(),
            methods: vec![Method {
                name: "step".into(),
                args: vec![RustType::Ref],
                ret: RustType::U32,
            }],
        }],
    }
}


#[test]
fn llvm_emitter_produces_stub_and_vtable() {
    let s = stepper_schema();
    let mut e = LlvmStubEmitter::new();
    walk(&s, &mut e);
    let out = e.finish();
    assert!(out.contains("define i32 @__stub_Stepper_step(ptr %a0)"));
    assert!(out.contains("@__stubvtable_Stepper = constant"));
    assert!(out.contains("ptr, i64, i64, ptr"));
}

#[test]
fn saw_emitter_produces_shared_fresh_symbolic() {
    let s = stepper_schema();
    let mut e = SawSpecEmitter::new();
    walk(&s, &mut e);
    let out = e.finish();
    assert!(out.contains("Stepper_step_ret <- fresh_symbolic"));
    assert!(out.contains("let Stepper_step_havoc_spec = do {"));
    assert!(out.contains("llvm_return (llvm_term Stepper_step_ret)"));
    assert!(out.contains("ov_Stepper_step <- llvm_unsafe_assume_spec"));
    assert!(out.contains("let trait_overrides = [ov_Stepper_step]"));
}

#[test]
fn rust_type_int_bits_match_signed_unsigned() {
    assert_eq!(RustType::U32.int_bits(), Some(32));
    assert_eq!(RustType::I64.int_bits(), Some(64));
    assert_eq!(RustType::Bool.int_bits(), None);
    assert_eq!(RustType::Ref.int_bits(), None);
}
