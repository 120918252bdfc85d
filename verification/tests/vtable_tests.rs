//! Virtual tables.

use saw_spec_gen::class_groups::ClassGroup;
use saw_spec_gen::constraints::{FunctionInfo, InterfaceMethod, Mutability, Nullability, ParamInfo, TypeInfo};
use saw_spec_gen::vtable_ir::{generate_llvm_ir_stubs, itanium_mangle_class_name, TargetAbi};

fn make_iface_method(class: &str, name: &str, ret: TypeInfo, offset: u64) -> InterfaceMethod {
    InterfaceMethod {
        class_name: class.into(),
        method: FunctionInfo {
            name: name.into(),
            mangled_name: None,
            params: vec![ParamInfo {
                name: "this".into(),
                ty: TypeInfo::Pointer(Box::new(TypeInfo::Opaque {
                    name: "Self".into(),
                    size_bytes: 0,
                })),
                mutability: Mutability::Readonly,
                nullable: Nullability::NonNull,
                annotations: vec![],
            }],
            return_type: ret,
            can_throw: false,
            is_virtual: true,
            has_body: false,
            is_system: false,
            annotations: vec![],
            referenced_globals: vec![],
            called_functions: vec![],
        },
        is_pure: true,
        is_override: false,
        source_offset: offset,
    }
}

#[test]
fn test_itanium_emits_ztv_override_with_leader_slots() {
    let methods = [
        make_iface_method("BadProcessor", "validate", TypeInfo::Void, 100),
        make_iface_method("BadProcessor", "audit", TypeInfo::Void, 200),
    ];
    let by_class = [ClassGroup {
        name: "BadProcessor".to_string(),
        methods: methods.iter().collect(),
    }];
    let ll =
        generate_llvm_ir_stubs(&by_class, &[], Some("x86_64-unknown-linux-gnu"));
    assert!(
        ll.contains("target triple = \"x86_64-unknown-linux-gnu\""),
        "expected Itanium triple, got:\n{ll}",
    );
    assert!(
        ll.contains("@badprocessor_vtable"),
        "MSVC-style helper vtable should still be emitted",
    );
    assert!(
        ll.contains("@_ZTV12BadProcessor = linkonce_odr unnamed_addr constant { [4 x ptr] }"),
        "expected Itanium `_ZTV12BadProcessor` override with 4 slots, got:\n{ll}",
    );
    let ztv_section = ll
        .split("@_ZTV12BadProcessor")
        .nth(1)
        .expect("ZTV body missing");
    let leader_block =
        &ztv_section[..ztv_section.find("], align").unwrap_or(ztv_section.len())];
    assert!(
        leader_block.matches("ptr null").count() >= 2,
        "expected two `ptr null` leader slots, got:\n{leader_block}",
    );
}

#[test]
fn test_msvc_default_omits_ztv_override() {
    let methods = [make_iface_method(
        "BadProcessor",
        "validate",
        TypeInfo::Void,
        100,
    )];
    let by_class = [ClassGroup {
        name: "BadProcessor".to_string(),
        methods: methods.iter().collect(),
    }];
    let ll = generate_llvm_ir_stubs(&by_class, &[], None);
    assert!(ll.contains("target triple = \"x86_64-pc-windows-msvc\""));
    assert!(
        !ll.contains("_ZTV"),
        "MSVC mode should not emit Itanium `_ZTV` symbols:\n{ll}"
    );
}

#[test]
fn test_override_with_absent_base_defines_every_referenced_stub() {
    let mut destroy = make_iface_method("Unknown", "_destroy", TypeInfo::Void, 100);
    destroy.is_override = true;
    let mut delete_this = make_iface_method("Unknown", "_delete_this", TypeInfo::Void, 200);
    delete_this.is_override = true;
    let methods = [destroy, delete_this];
    let by_class = [ClassGroup {
        name: "Unknown".to_string(),
        methods: methods.iter().collect(),
    }];
    let ll = generate_llvm_ir_stubs(&by_class, &[], None);

    let tail = ll
        .split("_vtable = global")
        .nth(1)
        .expect("vtable global missing");
    let body = &tail[..tail.find("\n]\n").unwrap_or(tail.len())];
    let mut slots = 0;
    for slot in body.split("ptr @").skip(1) {
        let sym: String = slot
            .chars()
            .take_while(|c| c.is_alphanumeric() || *c == '_')
            .collect();
        assert!(!sym.is_empty(), "empty vtable slot symbol in:\n{ll}");
        assert!(
            ll.contains(&format!("@{sym}(")),
            "vtable references @{sym} but no definition was emitted:\n{ll}",
        );
        slots += 1;
    }
    assert_eq!(slots, 2, "expected two vtable slots, got:\n{ll}");
}

#[test]
fn test_itanium_mangle_class_name_simple_and_namespaced() {
    assert_eq!(itanium_mangle_class_name("BadProcessor"), "12BadProcessor");
    assert_eq!(itanium_mangle_class_name("foo::Bar"), "N3foo3BarE");
    assert_eq!(
        itanium_mangle_class_name("class BadProcessor"),
        "12BadProcessor"
    );
}

#[test]
fn test_target_abi_from_triple_picks_correct_flavour() {
    assert_eq!(
        TargetAbi::from_triple(Some("x86_64-pc-windows-msvc")),
        TargetAbi::Msvc,
    );
    assert_eq!(
        TargetAbi::from_triple(Some("x86_64-unknown-linux-gnu")),
        TargetAbi::Itanium,
    );
    assert_eq!(
        TargetAbi::from_triple(Some("aarch64-apple-darwin")),
        TargetAbi::Itanium,
    );
    assert_eq!(
        TargetAbi::from_triple(Some("x86_64-pc-windows-gnu")),
        TargetAbi::Itanium,
    );
    assert_eq!(TargetAbi::from_triple(None), TargetAbi::Msvc);
}
