//! Types as SAW, MIR, Cryptol and IR write them.

use saw_spec_gen::constraints::TypeInfo;
use saw_spec_gen::types::{
    cryptol_type_for_saw, ir_default_return, looks_like_aggregate_name, mir_saw_type,
    sret_inner_ir_type, type_to_llvm_ir,
};

#[test]
fn mir_saw_type_maps_scalars() {
    assert_eq!(mir_saw_type("llvm_int 32"), "mir_u32");
    assert_eq!(mir_saw_type("llvm_int 8"), "mir_u8");
    assert_eq!(mir_saw_type("llvm_int 64"), "mir_u64");
}

#[test]
fn mir_saw_type_maps_alias() {
    assert_eq!(
        mir_saw_type("llvm_alias \"MyStruct\""),
        "mir_find_adt m \"MyStruct\""
    );
}

#[test]
fn mir_saw_type_passes_through_unknown() {
    assert_eq!(mir_saw_type("// void"), "// void");
    assert_eq!(mir_saw_type("custom"), "custom");
}

#[test]
fn cryptol_type_for_llvm_int() {
    assert_eq!(cryptol_type_for_saw("llvm_int 32"), "[32]");
    assert_eq!(cryptol_type_for_saw("llvm_int 8"), "[8]");
}

#[test]
fn type_to_llvm_ir_handles_primitives() {
    assert_eq!(type_to_llvm_ir(&TypeInfo::Bool), "i1");
    assert_eq!(type_to_llvm_ir(&TypeInfo::SignedInt(32)), "i32");
    assert_eq!(type_to_llvm_ir(&TypeInfo::UnsignedInt(64)), "i64");
    assert_eq!(type_to_llvm_ir(&TypeInfo::Void), "void");
    assert_eq!(
        type_to_llvm_ir(&TypeInfo::Pointer(Box::new(TypeInfo::SignedInt(8)))),
        "ptr"
    );
}

#[test]
fn type_to_llvm_ir_aggregates_become_byte_arrays() {
    assert_eq!(
        type_to_llvm_ir(&TypeInfo::Struct {
            name: "Foo".into(),
            size_bytes: Some(24),
            fields: vec![]
        }),
        "[24 x i8]"
    );
    assert_eq!(type_to_llvm_ir(&TypeInfo::ByteArray(16)), "[16 x i8]");
}

#[test]
fn looks_like_aggregate_recognizes_templates_and_namespaces() {
    assert!(looks_like_aggregate_name("std::tuple<int>"));
    assert!(looks_like_aggregate_name("foo::Bar"));
    assert!(looks_like_aggregate_name("Container<T>"));
    assert!(!looks_like_aggregate_name("Self"));
    assert!(!looks_like_aggregate_name("Unknown"));
}

#[test]
fn sret_required_for_large_structs() {
    assert_eq!(
        sret_inner_ir_type(&TypeInfo::Struct {
            name: "T".into(),
            size_bytes: Some(48),
            fields: vec![],
        }),
        Some("[48 x i8]".to_string())
    );
}

#[test]
fn sret_required_for_unsized_aggregates() {
    assert_eq!(
        sret_inner_ir_type(&TypeInfo::Opaque {
            name: "std::tuple<A,B>".into(),
            size_bytes: 0,
        }),
        Some("[16 x i8]".to_string())
    );
}

#[test]
fn sret_not_required_for_scalar_or_pointer() {
    assert_eq!(sret_inner_ir_type(&TypeInfo::SignedInt(32)), None);
    assert_eq!(
        sret_inner_ir_type(&TypeInfo::Pointer(Box::new(TypeInfo::Bool))),
        None
    );
    assert_eq!(
        sret_inner_ir_type(&TypeInfo::Opaque {
            name: "Self".into(),
            size_bytes: 0,
        }),
        None
    );
}

#[test]
fn ir_default_return_per_type() {
    assert_eq!(ir_default_return("void"), "ret void");
    assert_eq!(ir_default_return("i1"), "ret i1 false");
    assert_eq!(ir_default_return("i32"), "ret i32 0");
    assert_eq!(ir_default_return("ptr"), "ret ptr 0");
}
