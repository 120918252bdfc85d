//! Fields that hold interfaces.

use saw_spec_gen::constraints::TypeInfo;
use saw_spec_gen::overrides::{container_layout_for, field_interface_name, FieldKind};

fn ifaces(names: &[&str]) -> Vec<String> {
    names.iter().map(|s| s.to_string()).collect()
}

#[test]
fn field_interface_name_recognizes_raw_pointer() {
    let known = ifaces(&["IFoo"]);
    let ty = TypeInfo::Pointer(Box::new(TypeInfo::Opaque {
        name: "IFoo".into(),
        size_bytes: 0,
    }));
    assert_eq!(field_interface_name(&ty, &known), Some("IFoo".into()));
}

#[test]
fn field_interface_name_recognizes_unique_ptr() {
    let known = ifaces(&["IBar"]);
    let ty = TypeInfo::Struct {
        name: "std::unique_ptr<IBar>".into(),
        size_bytes: Some(8),
        fields: vec![],
    };
    assert_eq!(field_interface_name(&ty, &known), Some("IBar".into()));
}

#[test]
fn field_interface_name_ignores_unknown() {
    let known = ifaces(&["IFoo"]);
    let ty = TypeInfo::Pointer(Box::new(TypeInfo::Opaque {
        name: "INotKnown".into(),
        size_bytes: 0,
    }));
    assert_eq!(field_interface_name(&ty, &known), None);
}

#[test]
fn container_layout_returns_none_for_pure_interface() {
    let known = ifaces(&["IService"]);
    let ty = TypeInfo::Pointer(Box::new(TypeInfo::Struct {
        name: "IService".into(),
        size_bytes: None,
        fields: vec![],
    }));
    assert!(container_layout_for(&ty, &known).is_none());
}

#[test]
fn container_layout_picks_up_interface_field() {
    let known = ifaces(&["IFoo"]);
    let ty = TypeInfo::Pointer(Box::new(TypeInfo::Struct {
        name: "Holder".into(),
        size_bytes: Some(16),
        fields: vec![(
            "ptr".into(),
            TypeInfo::Pointer(Box::new(TypeInfo::Opaque {
                name: "IFoo".into(),
                size_bytes: 0,
            })),
        )],
    }));
    let kinds = container_layout_for(&ty, &known).expect("should pick up Holder");
    assert_eq!(kinds.len(), 1);
    assert!(matches!(&kinds[0], FieldKind::Interface(name, iface)
        if name == "ptr" && iface == "IFoo"));
}
