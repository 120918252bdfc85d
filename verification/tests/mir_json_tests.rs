//! Functions and types of MIR dumps.

use saw_spec_gen::constraints::{Mutability, Nullability, TypeInfo};
use saw_spec_gen::json::parse_json;
use saw_spec_gen::mir_json::extract_functions;

#[test]
fn test_parse_simple_function() {
    let mir = parse_json(
        r#"{
        "fns": [{
            "name": "add",
            "args": [
                { "name": "a", "ty": "ty::Int::I32", "mut": { "kind": "Not" } },
                { "name": "b", "ty": "ty::Int::I32", "mut": { "kind": "Not" } }
            ],
            "return_ty": "ty::Int::I32"
        }]
    }"#,
    )
    .unwrap();
    let funcs = extract_functions(&mir, None);
    assert_eq!(funcs.len(), 1);
    assert_eq!(funcs[0].name, "add");
    assert_eq!(funcs[0].params.len(), 2);
    assert_eq!(funcs[0].params[0].ty, TypeInfo::SignedInt(32));
    assert_eq!(funcs[0].return_type, TypeInfo::SignedInt(32));
    assert!(!funcs[0].can_throw);
}

#[test]
fn test_parse_ref_params() {
    let mir = parse_json(
        r#"{
        "fns": [{
            "name": "process",
            "args": [
                { "name": "input", "ty": "ty::Ref", "mut": { "kind": "Not" } },
                { "name": "output", "ty": "ty::Ref", "mut": { "kind": "Mut" } }
            ],
            "return_ty": "()"
        }]
    }"#,
    )
    .unwrap();
    let funcs = extract_functions(&mir, None);
    assert_eq!(funcs[0].params[0].mutability, Mutability::Readonly);
    assert_eq!(funcs[0].params[0].nullable, Nullability::NonNull);
    assert!(matches!(funcs[0].params[0].ty, TypeInfo::Pointer(_)));
    assert_eq!(funcs[0].params[1].mutability, Mutability::Mutable);
}

#[test]
fn test_parse_raw_pointer() {
    let mir = parse_json(
        r#"{
        "fns": [{
            "name": "unsafe_fn",
            "args": [{
                "name": "ptr",
                "ty": "RawPtr",
                "mut": { "kind": "Not" }
            }],
            "return_ty": "()"
        }]
    }"#,
    )
    .unwrap();
    let funcs = extract_functions(&mir, None);
    assert_eq!(funcs[0].params[0].nullable, Nullability::Nullable);
    assert!(matches!(funcs[0].params[0].ty, TypeInfo::Pointer(_)));
}

#[test]
fn test_parse_enum_from_adts() {
    let mir = parse_json(
        r#"{
        "adts": [{
            "name": "LatchState",
            "kind": "enum",
            "variants": [
                { "name": "Unlatched", "fields": [] },
                { "name": "Latched", "fields": [] }
            ],
            "discriminant_bits": 64
        }],
        "fns": [{
            "name": "check_latch",
            "args": [{
                "name": "state",
                "ty": "LatchState",
                "mut": { "kind": "Not" }
            }],
            "return_ty": "ty::Bool"
        }]
    }"#,
    )
    .unwrap();
    let funcs = extract_functions(&mir, None);
    if let TypeInfo::Enum {
        name,
        variants,
        discriminant_bits,
    } = &funcs[0].params[0].ty
    {
        assert_eq!(name, "LatchState");
        assert_eq!(variants.len(), 2);
        assert_eq!(variants[0].name, "Unlatched");
        assert_eq!(variants[1].name, "Latched");
        assert_eq!(*discriminant_bits, 64);
    } else {
        panic!(
            "Expected Enum type, got {:?}",
            funcs[0].params[0].ty
        );
    }
}

#[test]
fn test_parse_struct_from_adts() {
    let mir = parse_json(
        r#"{
        "adts": [{
            "name": "MetadataHeader",
            "kind": "struct",
            "size": 24,
            "variants": [{
                "name": "MetadataHeader",
                "fields": [
                    { "name": "version", "ty": "ty::Uint::U32" },
                    { "name": "length", "ty": "ty::Uint::U64" },
                    { "name": "flags", "ty": "ty::Uint::U32" }
                ]
            }]
        }],
        "fns": [{
            "name": "validate_header",
            "args": [{
                "name": "header",
                "ty": "MetadataHeader",
                "mut": { "kind": "Not" }
            }],
            "return_ty": "ty::Bool"
        }]
    }"#,
    )
    .unwrap();
    let funcs = extract_functions(&mir, None);
    if let TypeInfo::Struct {
        name,
        size_bytes,
        fields,
    } = &funcs[0].params[0].ty
    {
        assert_eq!(name, "MetadataHeader");
        assert_eq!(*size_bytes, Some(24));
        assert_eq!(fields.len(), 3);
        assert_eq!(fields[0].0, "version");
    } else {
        panic!(
            "Expected Struct type, got {:?}",
            funcs[0].params[0].ty
        );
    }
}

#[test]
fn test_parse_option_type() {
    let mir = parse_json(
        r#"{
        "fns": [{
            "name": "maybe_value",
            "args": [{
                "name": "opt",
                "ty": "Option<ty::Uint::U32>",
                "mut": { "kind": "Not" }
            }],
            "return_ty": "()"
        }]
    }"#,
    )
    .unwrap();
    let funcs = extract_functions(&mir, None);
    if let TypeInfo::Option(inner) = &funcs[0].params[0].ty {
        assert_eq!(**inner, TypeInfo::UnsignedInt(32));
    } else {
        panic!(
            "Expected Option type, got {:?}",
            funcs[0].params[0].ty
        );
    }
}

#[test]
fn test_parse_result_type() {
    let mir = parse_json(
        r#"{
        "fns": [{
            "name": "try_parse",
            "args": [],
            "return_ty": "Result<ty::Uint::U32, ty::Int::I32>"
        }]
    }"#,
    )
    .unwrap();
    let funcs = extract_functions(&mir, None);
    if let TypeInfo::Result(ok, err) = &funcs[0].return_type {
        assert_eq!(**ok, TypeInfo::UnsignedInt(32));
        assert_eq!(**err, TypeInfo::SignedInt(32));
    } else {
        panic!(
            "Expected Result type, got {:?}",
            funcs[0].return_type
        );
    }
}

#[test]
fn test_parse_async_function() {
    let mir = parse_json(
        r#"{
        "fns": [{
            "name": "async_fetch",
            "is_async": true,
            "args": [],
            "return_ty": "impl Future"
        }]
    }"#,
    )
    .unwrap();
    let funcs = extract_functions(&mir, None);
    if let TypeInfo::Opaque { name, .. } = &funcs[0].return_type {
        assert!(name.contains("async_coroutine"));
    } else {
        panic!(
            "Expected Opaque coroutine type, got {:?}",
            funcs[0].return_type
        );
    }
}

#[test]
fn test_parse_coroutine_return_type() {
    let mir = parse_json(
        r#"{
        "fns": [{
            "name": "poll_fn",
            "args": [],
            "return_ty": "Poll"
        }]
    }"#,
    )
    .unwrap();
    let funcs = extract_functions(&mir, None);
    assert!(matches!(funcs[0].return_type, TypeInfo::Opaque { .. }));
}

#[test]
fn test_filter_functions() {
    let mir = parse_json(
        r#"{
        "fns": [
            {
                "name": "latch_local",
                "args": [],
                "return_ty": "()"
            },
            {
                "name": "validate_header",
                "args": [],
                "return_ty": "()"
            }
        ]
    }"#,
    )
    .unwrap();
    let funcs = extract_functions(&mir, Some("latch"));
    assert_eq!(funcs.len(), 1);
    assert_eq!(funcs[0].name, "latch_local");
}

#[test]
fn test_parse_bool_types() {
    let mir = parse_json(
        r#"{
        "fns": [{
            "name": "check",
            "args": [{
                "name": "flag",
                "ty": "ty::Bool",
                "mut": { "kind": "Not" }
            }],
            "return_ty": "ty::Bool"
        }]
    }"#,
    )
    .unwrap();
    let funcs = extract_functions(&mir, None);
    assert_eq!(funcs[0].params[0].ty, TypeInfo::Bool);
    assert_eq!(funcs[0].return_type, TypeInfo::Bool);
}
