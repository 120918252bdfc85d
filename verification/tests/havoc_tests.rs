//! Specifications of methods of interfaces.

use saw_spec_gen::constraints::{
    Annotation, FunctionInfo, InterfaceMethod, Mutability, Nullability, ParamInfo, TypeInfo,
};
use saw_spec_gen::havoc::{generate_havoc_spec, resolve_param_behavior};
use saw_spec_gen::havoc_params::{annotation_label, HavocBehavior};

fn make_iface_method(class: &str, name: &str, ret: TypeInfo, offset: u64) -> InterfaceMethod {
    InterfaceMethod {
        class_name: class.into(),
        method: FunctionInfo {
            name: name.into(),
            mangled_name: None,
            params: vec![ParamInfo {
                name: "this".into(),
                ty: TypeInfo::Pointer(Box::new(TypeInfo::Opaque {
                    name: "Self".into(),
                    size_bytes: 0,
                })),
                mutability: Mutability::Readonly,
                nullable: Nullability::NonNull,
                annotations: vec![],
            }],
            return_type: ret,
            can_throw: false,
            is_virtual: true,
            has_body: false,
            is_system: false,
            annotations: vec![],
            referenced_globals: vec![],
            called_functions: vec![],
        },
        is_pure: true,
        is_override: false,
        source_offset: offset,
    }
}

#[test]
fn test_havoc_spec_uses_points_to_for_sret_return() {
    let tuple_ret = TypeInfo::Opaque {
        name: "std::tuple<A,B>".into(),
        size_bytes: 0,
    };
    let method = make_iface_method("IKeyStore", "Read", tuple_ret, 100);
    let spec = generate_havoc_spec(&method, &[], None, None);
    assert!(spec.contains("result_ptr <- llvm_alloc"));
    assert!(spec.contains("llvm_points_to result_ptr"));
    assert!(!spec.contains("llvm_return"));
    let exec_line = spec
        .lines()
        .find(|l| l.contains("llvm_execute_func"))
        .expect("execute_func missing");
    let this_pos = exec_line.find("this_ptr").expect("this_ptr missing");
    let result_pos = exec_line.find("result_ptr").expect("result_ptr missing");
    assert!(this_pos < result_pos);
}

#[test]
fn resolve_behavior_const_pointer_is_preserved() {
    let p = ParamInfo {
        name: "x".into(),
        ty: TypeInfo::Pointer(Box::new(TypeInfo::SignedInt(32))),
        mutability: Mutability::Readonly,
        nullable: Nullability::NonNull,
        annotations: vec![],
    };
    assert_eq!(resolve_param_behavior(&p), HavocBehavior::Preserved);
}

#[test]
fn resolve_behavior_in_annotation_wins_over_mutable_type() {
    let p = ParamInfo {
        name: "x".into(),
        ty: TypeInfo::Pointer(Box::new(TypeInfo::SignedInt(32))),
        mutability: Mutability::Mutable,
        nullable: Nullability::NonNull,
        annotations: vec![Annotation::InReads(0)],
    };
    assert_eq!(resolve_param_behavior(&p), HavocBehavior::Preserved);
}

#[test]
fn resolve_behavior_inout_forces_havoc() {
    let p = ParamInfo {
        name: "x".into(),
        ty: TypeInfo::Pointer(Box::new(TypeInfo::SignedInt(32))),
        mutability: Mutability::Mutable,
        nullable: Nullability::NonNull,
        annotations: vec![Annotation::Inout],
    };
    assert_eq!(resolve_param_behavior(&p), HavocBehavior::Havoced);
}

#[test]
fn void_pointer_param_does_not_emit_comment_in_alloc_slot() {
    let mut method = make_iface_method("MemoryResource", "do_deallocate", TypeInfo::Void, 200);
    method.method.params = vec![
        ParamInfo {
            name: "this".into(),
            ty: TypeInfo::Pointer(Box::new(TypeInfo::Opaque {
                name: "Self".into(),
                size_bytes: 0,
            })),
            mutability: Mutability::Readonly,
            nullable: Nullability::NonNull,
            annotations: vec![],
        },
        ParamInfo {
            name: "p".into(),
            ty: TypeInfo::Pointer(Box::new(TypeInfo::Void)),
            mutability: Mutability::Mutable,
            nullable: Nullability::NonNull,
            annotations: vec![],
        },
    ];
    let spec = generate_havoc_spec(&method, &[], None, None);
    for (i, line) in spec.lines().enumerate() {
        if let Some(open) = line.find('(') {
            let inside = &line[open + 1..];
            assert!(
                !inside.contains("//"),
                "line {i} has `//` inside expression: {line}",
            );
        }
    }
    assert!(
        spec.contains("p_ptr <- llvm_alloc (llvm_int 8)"),
        "expected `p_ptr <- llvm_alloc (llvm_int 8)` in:\n{spec}",
    );
}

#[test]
fn annotation_label_recognizes_sal() {
    assert_eq!(
        annotation_label(&[Annotation::InReads(0)], true),
        "_In_ → preserved"
    );
    assert_eq!(
        annotation_label(&[Annotation::InReads(16)], true),
        "_In_reads_(16) → preserved"
    );
    assert_eq!(
        annotation_label(&[Annotation::OutWrites(8)], false),
        "_Out_writes_(8) → HAVOCED"
    );
    assert_eq!(
        annotation_label(&[Annotation::Inout], false),
        "_Inout_ → HAVOCED"
    );
    assert_eq!(annotation_label(&[], true), "const → preserved");
    assert_eq!(annotation_label(&[], false), "mutable → HAVOCED");
}
