//! Stubs of virtual methods.

use saw_spec_gen::constraints::{FunctionInfo, InterfaceMethod, Mutability, Nullability, ParamInfo, TypeInfo};
use saw_spec_gen::llvm_spec::GeneratedFile;
use saw_spec_gen::stubs::emit_interface_stubs;

fn content(files: &[GeneratedFile], name: &str) -> String {
    let file = files.iter().find(|f| f.name == name);
    file.expect("file missing").content.clone()
}

fn make_iface_method(class: &str, name: &str, ret: TypeInfo, offset: u64) -> InterfaceMethod {
    InterfaceMethod {
        class_name: class.into(),
        method: FunctionInfo {
            name: name.into(),
            mangled_name: None,
            params: vec![ParamInfo {
                name: "this".into(),
                ty: TypeInfo::Pointer(Box::new(TypeInfo::Opaque {
                    name: "Self".into(),
                    size_bytes: 0,
                })),
                mutability: Mutability::Readonly,
                nullable: Nullability::NonNull,
                annotations: vec![],
            }],
            return_type: ret,
            can_throw: false,
            is_virtual: true,
            has_body: false,
            is_system: false,
            annotations: vec![],
            referenced_globals: vec![],
            called_functions: vec![],
        },
        is_pure: true,
        is_override: false,
        source_offset: offset,
    }
}

#[test]
fn test_vtable_slot_order_follows_source_offset() {
    let methods = vec![
        make_iface_method("IRV", "Authenticate", TypeInfo::Bool, 200),
        make_iface_method("IRV", "IsValidMetadataHeader", TypeInfo::Bool, 100),
    ];
    let files = emit_interface_stubs(methods, &[], &[], &[], None, None);
    let ll = content(&files, "vtable_stubs.ll");
    let vtable_section = ll.split("@irv_vtable").nth(1).expect("vtable missing");
    let valid_pos = vtable_section
        .find("irv_isvalidmetadataheader_stub")
        .expect("IsValidMetadataHeader stub missing");
    let auth_pos = vtable_section
        .find("irv_authenticate_stub")
        .expect("Authenticate stub missing");
    assert!(valid_pos < auth_pos);
}

#[test]
fn test_vtable_stub_uses_sret_for_large_struct_return() {
    let large = TypeInfo::Struct {
        name: "std::tuple<A,B>".into(),
        size_bytes: Some(48),
        fields: vec![],
    };
    let methods = vec![make_iface_method("IKeyStore", "Read", large, 100)];
    let files = emit_interface_stubs(methods, &[], &[], &[], None, None);
    let ll = content(&files, "vtable_stubs.ll");
    let stub_line = ll
        .lines()
        .find(|l| l.contains("@ikeystore_read_stub"))
        .expect("Read stub missing");
    assert!(stub_line.contains("define void"));
    assert!(stub_line.contains("sret([48 x i8])"));
    assert!(stub_line.contains("%retptr"));
}

#[test]
fn test_vtable_stub_no_sret_for_scalar_return() {
    let methods = vec![make_iface_method(
        "IFoo",
        "Tick",
        TypeInfo::SignedInt(32),
        100,
    )];
    let files = emit_interface_stubs(methods, &[], &[], &[], None, None);
    let ll = content(&files, "vtable_stubs.ll");
    let stub_line = ll
        .lines()
        .find(|l| l.contains("@ifoo_tick_stub"))
        .expect("Tick stub missing");
    assert!(stub_line.contains("define i32"));
    assert!(!stub_line.contains("sret"));
}

#[test]
fn test_vtable_stub_uses_sret_for_unsized_tuple_return() {
    let tuple_ret = TypeInfo::Opaque {
        name: "std::tuple<A,B>".into(),
        size_bytes: 0,
    };
    let methods = vec![make_iface_method("IKeyStore", "Read", tuple_ret, 100)];
    let files = emit_interface_stubs(methods, &[], &[], &[], None, None);
    let ll = content(&files, "vtable_stubs.ll");
    let stub_line = ll
        .lines()
        .find(|l| l.contains("@ikeystore_read_stub"))
        .expect("Read stub missing");
    assert!(stub_line.contains("define void"));
    assert!(stub_line.contains("sret(["));
}

#[test]
fn test_vtable_stub_sret_ordered_after_this() {
    let large = TypeInfo::Struct {
        name: "std::tuple<A,B>".into(),
        size_bytes: Some(48),
        fields: vec![],
    };
    let methods = vec![make_iface_method("IKeyStore", "Read", large, 100)];
    let files = emit_interface_stubs(methods, &[], &[], &[], None, None);
    let ll = content(&files, "vtable_stubs.ll");
    let stub_line = ll
        .lines()
        .find(|l| l.contains("@ikeystore_read_stub"))
        .expect("Read stub missing");
    let this_pos = stub_line.find("%arg0").expect("this missing");
    let sret_pos = stub_line.find("%retptr").expect("sret missing");
    assert!(this_pos < sret_pos);
}

#[test]
fn test_orphan_override_gets_full_havoc_treatment() {
    let mut destroy = make_iface_method("Unknown", "Destroy", TypeInfo::Void, 100);
    destroy.is_override = true;
    let mut del = make_iface_method("Unknown", "DeleteThis", TypeInfo::Void, 200);
    del.is_override = true;
    let methods = vec![destroy, del];
    let files = emit_interface_stubs(methods, &[], &[], &[], None, None);

    let ll = content(&files, "vtable_stubs.ll");
    assert!(ll.contains("@unknown_destroy_stub("), "stub missing:\n{ll}");
    assert!(
        ll.contains("@unknown_deletethis_stub("),
        "stub missing:\n{ll}"
    );

    assert!(files.iter().any(|f| f.name == "Unknown_Destroy_havoc_spec.saw"));
    assert!(files.iter().any(|f| f.name == "Unknown_DeleteThis_havoc_spec.saw"));
    let idx = content(&files, "interface_overrides.saw");
    assert!(
        idx.contains("llvm_unsafe_assume_spec m \"unknown_destroy_stub\""),
        "expected havoc binding for orphan override:\n{idx}",
    );
}
