//! Names of files and identifiers.

use saw_spec_gen::constraints::{ReturnConstraint, SpecConstraint};
use saw_spec_gen::names::{object_allocator, sanitize_name, spec_safe_id};

fn make_spec(name: &str, mangled: Option<&str>) -> SpecConstraint {
    SpecConstraint {
        function_name: name.into(),
        mangled_name: mangled.map(String::from),
        params: vec![],
        return_constraint: ReturnConstraint {
            saw_type: "// void".into(),
            value_constraints: vec![],
            is_sret: false,
            returns_pointer: false,
            sret_prestate: false,
        },
        can_throw: false,
        is_virtual: false,
        has_body: true,
        referenced_globals: vec![],
        postconditions: vec![],
    }
}

#[test]
fn sanitize_passes_through_simple_identifiers() {
    assert_eq!(sanitize_name("simple"), "simple");
}

#[test]
fn sanitize_replaces_cpp_punctuation() {
    assert_eq!(sanitize_name("my::func"), "my__func");
    assert_eq!(sanitize_name("ns::Class<int>"), "ns__Class_int_");
}

#[test]
fn sanitize_truncates_long_names_with_hash_suffix() {
    let long = "a".repeat(200);
    let out = sanitize_name(&long);
    assert!(out.len() > 120);
    assert!(out.len() < 200);
    assert!(out.starts_with(&"a".repeat(120)));
}

#[test]
fn spec_safe_id_prefers_mangled_when_different() {
    let s = make_spec("log", Some("?log@Foo@@QEAAXXZ"));
    let id = spec_safe_id(&s);
    assert_ne!(id, "log");
}

#[test]
fn spec_safe_id_falls_back_to_unmangled_when_same() {
    let s = make_spec("plain", Some("plain"));
    assert_eq!(spec_safe_id(&s), "plain");
}

#[test]
fn spec_safe_id_falls_back_to_unmangled_when_missing() {
    let s = make_spec("plain", None);
    assert_eq!(spec_safe_id(&s), "plain");
}

#[test]
fn spec_safe_id_distinguishes_overloads_by_mangled_name() {
    let int_overload = make_spec("add", Some("_Z3addii"));
    let dbl_overload = make_spec("add", Some("_Z3adddd"));
    let int_id = spec_safe_id(&int_overload);
    let dbl_id = spec_safe_id(&dbl_overload);
    assert_ne!(
        int_id, dbl_id,
        "overloads with same friendly name must get distinct spec ids"
    );
    assert_ne!(int_id, "add");
    assert_ne!(dbl_id, "add");
}

#[test]
fn spec_safe_id_distinguishes_same_method_on_different_classes() {
    let foo = make_spec("compute", Some("_ZNK3Foo7computeEv"));
    let bar = make_spec("compute", Some("_ZNK3Bar7computeEv"));
    assert_ne!(spec_safe_id(&foo), spec_safe_id(&bar));
}

#[test]
fn object_allocator_aligns_byte_array_buffers() {
    assert_eq!(
        object_allocator(false, "llvm_array 8 (llvm_int 8)"),
        "llvm_alloc_readonly_aligned 8"
    );
    assert_eq!(
        object_allocator(true, "llvm_array 152 (llvm_int 8)"),
        "llvm_alloc_aligned 8"
    );
}

#[test]
fn object_allocator_leaves_typed_allocs_to_saw_default() {
    assert_eq!(
        object_allocator(false, "llvm_int 64"),
        "llvm_alloc_readonly"
    );
    assert_eq!(object_allocator(true, "llvm_int 32"), "llvm_alloc");
    assert_eq!(
        object_allocator(true, "llvm_alias \"class.sdep::KeyStore\""),
        "llvm_alloc"
    );
    assert_eq!(
        object_allocator(false, "llvm_struct \"struct.EnrollmentKey\""),
        "llvm_alloc_readonly"
    );
    assert_eq!(
        object_allocator(true, "llvm_array 4 (llvm_int 64)"),
        "llvm_alloc"
    );
}
