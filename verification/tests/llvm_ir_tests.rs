//! Functions and types of IR text.

use saw_spec_gen::constraints::{Annotation, Mutability, Nullability, TypeInfo};
use saw_spec_gen::ir_layout::{compute_ir_type_size, parse_ir_type_resolved, split_ir_params, IrStructDef};
use saw_spec_gen::llvm_ir::extract_functions;

#[test]
fn test_parse_declare() {
    let ir = "declare i32 @strlen(i8* nocapture readonly) nounwind\n";
    let funcs = extract_functions(ir, None).unwrap();
    assert_eq!(funcs.len(), 1);
    assert_eq!(funcs[0].name, "strlen");
    assert!(!funcs[0].can_throw);
    assert_eq!(funcs[0].return_type, TypeInfo::SignedInt(32));
}

#[test]
fn test_parse_define() {
    let ir = "define dso_local i32 @add(i32 %a, i32 %b) {\n";
    let funcs = extract_functions(ir, None).unwrap();
    assert_eq!(funcs.len(), 1);
    assert_eq!(funcs[0].name, "add");
    assert_eq!(funcs[0].params.len(), 2);
}

#[test]
fn test_parse_void_function() {
    let ir = "declare void @free(i8*)\n";
    let funcs = extract_functions(ir, None).unwrap();
    assert_eq!(funcs[0].return_type, TypeInfo::Void);
}

#[test]
fn test_parse_nounwind() {
    let ir = "declare void @safe_fn() nounwind\n";
    let funcs = extract_functions(ir, None).unwrap();
    assert!(!funcs[0].can_throw);
    assert!(funcs[0]
        .annotations
        .iter()
        .any(|a| matches!(a, Annotation::NoThrow)));
}

#[test]
fn test_parse_readonly_param() {
    let ir = "declare i32 @read_fn(i8* readonly)\n";
    let funcs = extract_functions(ir, None).unwrap();
    assert_eq!(funcs[0].params[0].mutability, Mutability::Readonly);
}

#[test]
fn test_parse_noalias_nocapture() {
    let ir = "declare void @process(i8* noalias nocapture)\n";
    let funcs = extract_functions(ir, None).unwrap();
    assert!(funcs[0].params[0]
        .annotations
        .iter()
        .any(|a| matches!(a, Annotation::NoAlias)));
    assert!(funcs[0].params[0]
        .annotations
        .iter()
        .any(|a| matches!(a, Annotation::NoCapture)));
}

#[test]
fn test_parse_ptr_type() {
    let ir = "declare void @write_fn(i32* writeonly)\n";
    let funcs = extract_functions(ir, None).unwrap();
    assert!(matches!(funcs[0].params[0].ty, TypeInfo::Pointer(_)));
    assert_eq!(funcs[0].params[0].mutability, Mutability::WriteOnly);
}

#[test]
fn test_parse_nonnull() {
    let ir = "declare void @nonnull_fn(i8* nonnull)\n";
    let funcs = extract_functions(ir, None).unwrap();
    assert_eq!(funcs[0].params[0].nullable, Nullability::NonNull);
}

#[test]
fn test_filter() {
    let ir = "declare void @foo()\ndeclare void @bar()\n";
    let funcs = extract_functions(ir, Some("foo")).unwrap();
    assert_eq!(funcs.len(), 1);
    assert_eq!(funcs[0].name, "foo");
}

#[test]
fn test_parse_ir_type_scalars() {
    let empty = [];
    assert_eq!(parse_ir_type_resolved("void", &empty), TypeInfo::Void);
    assert_eq!(parse_ir_type_resolved("i1", &empty), TypeInfo::Bool);
    assert_eq!(parse_ir_type_resolved("i32", &empty), TypeInfo::SignedInt(32));
    assert_eq!(parse_ir_type_resolved("i64", &empty), TypeInfo::SignedInt(64));
}

#[test]
fn test_parse_ir_type_array() {
    assert_eq!(parse_ir_type_resolved("[16 x i8]", &[]), TypeInfo::ByteArray(16));
}

#[test]
fn test_parse_ir_type_named() {
    if let TypeInfo::Opaque { name, .. } = parse_ir_type_resolved("%struct.MyData", &[]) {
        assert_eq!(name, "struct.MyData");
    } else {
        panic!("Expected Opaque type");
    }
}

#[test]
fn test_split_ir_params() {
    let params = split_ir_params("i32, i64, i8*");
    assert_eq!(params.len(), 3);

    let params = split_ir_params("{ i32, i64 }, i8*");
    assert_eq!(params.len(), 2);
}

#[test]
fn test_parse_multiple_functions() {
    let ir = "\
declare void @fn1(i32)
declare void @fn2(i64)
define dso_local void @fn3(i32 %x) {
ret void
}
";
    let funcs = extract_functions(ir, None).unwrap();
    assert_eq!(funcs.len(), 3);
}

#[test]
fn test_parse_struct_type_definition() {
    let ir = "\
%struct.Point = type { i32, i32 }
declare void @use_point(%struct.Point*)
";
    let funcs = extract_functions(ir, None).unwrap();
    assert_eq!(funcs.len(), 1);
    if let TypeInfo::Pointer(inner) = &funcs[0].params[0].ty {
        if let TypeInfo::Struct {
            name,
            size_bytes,
            fields,
        } = inner.as_ref()
        {
            assert_eq!(name, "struct.Point");
            assert_eq!(*size_bytes, Some(8)); // 2 x i32 = 8 bytes
            assert_eq!(fields.len(), 2);
        } else {
            panic!("Expected Struct type, got {:?}", inner);
        }
    } else {
        panic!("Expected Pointer type");
    }
}

#[test]
fn test_parse_struct_with_padding() {
    let ir = "\
%struct.Padded = type { i8, i64 }
declare void @use_padded(%struct.Padded*)
";
    let funcs = extract_functions(ir, None).unwrap();
    if let TypeInfo::Pointer(inner) = &funcs[0].params[0].ty {
        if let TypeInfo::Struct { size_bytes, .. } = inner.as_ref() {
            assert_eq!(*size_bytes, Some(16));
        } else {
            panic!("Expected Struct");
        }
    } else {
        panic!("Expected Pointer");
    }
}

#[test]
fn test_parse_packed_struct() {
    let ir = "\
%struct.Packed = type <{ i8, i64 }>
declare void @use_packed(%struct.Packed*)
";
    let funcs = extract_functions(ir, None).unwrap();
    if let TypeInfo::Pointer(inner) = &funcs[0].params[0].ty {
        if let TypeInfo::Struct { size_bytes, .. } = inner.as_ref() {
            assert_eq!(*size_bytes, Some(9));
        } else {
            panic!("Expected Struct");
        }
    } else {
        panic!("Expected Pointer");
    }
}

#[test]
fn test_parse_nested_struct() {
    let ir = "\
%struct.Inner = type { i32, i32 }
%struct.Outer = type { %struct.Inner, i64 }
declare void @use_outer(%struct.Outer*)
";
    let funcs = extract_functions(ir, None).unwrap();
    if let TypeInfo::Pointer(inner) = &funcs[0].params[0].ty {
        if let TypeInfo::Struct {
            name, size_bytes, ..
        } = inner.as_ref()
        {
            assert_eq!(name, "struct.Outer");
            assert_eq!(*size_bytes, Some(16));
        } else {
            panic!("Expected Struct");
        }
    } else {
        panic!("Expected Pointer");
    }
}

#[test]
fn test_struct_type_used_in_return() {
    let ir = "\
%struct.Result = type { i32, i32 }
define %struct.Result @get_result() {
ret %struct.Result zeroinitializer
}
";
    let funcs = extract_functions(ir, None).unwrap();
    if let TypeInfo::Struct {
        name, size_bytes, ..
    } = &funcs[0].return_type
    {
        assert_eq!(name, "struct.Result");
        assert_eq!(*size_bytes, Some(8));
    } else {
        panic!(
            "Expected Struct return type, got {:?}",
            funcs[0].return_type
        );
    }
}

#[test]
fn test_sret_param_detection() {
    let ir = "\
%struct.BigResult = type { i64, i64, i64, i64 }
define void @get_big_result(ptr sret(%struct.BigResult) %retval, i32 %input) {
ret void
}
";
    let funcs = extract_functions(ir, None).unwrap();
    assert_eq!(funcs.len(), 1);
    let f = &funcs[0];
    assert_eq!(f.params[0].name, "retval");
    assert_eq!(f.params[0].mutability, Mutability::WriteOnly);
    assert_eq!(f.params[0].nullable, Nullability::NonNull);
    assert_eq!(f.params[1].name, "input");
    assert_eq!(f.return_type, TypeInfo::Void);
}

#[test]
fn test_sret_with_noalias() {
    let ir = "define void @make_thing(ptr noalias sret(%struct.Thing) %agg.result, i32 %x) {\nret void\n}\n";
    let funcs = extract_functions(ir, None).unwrap();
    let f = &funcs[0];
    assert_eq!(f.params[0].mutability, Mutability::WriteOnly);
    assert!(f.params[0]
        .annotations
        .iter()
        .any(|a| matches!(a, Annotation::NoAlias)));
    assert!(!f.params[0]
        .annotations
        .iter()
        .any(|a| matches!(a, Annotation::Custom(s) if s == "sret")));
}

#[test]
fn test_no_sret_leaves_return_alone() {
    let ir = "define i32 @normal_fn(i32 %x) {\nret i32 0\n}\n";
    let funcs = extract_functions(ir, None).unwrap();
    assert_eq!(funcs[0].return_type, TypeInfo::SignedInt(32));
    assert_eq!(funcs[0].params.len(), 1);
}

#[test]
fn test_compute_struct_sizes() {
    let mut map = Vec::new();
    map.push((
        "%struct.S1".to_string(),
        IrStructDef {
            fields: vec!["i32".into(), "i32".into()],
            is_packed: false,
        },
    ));
    assert_eq!(compute_ir_type_size("%struct.S1", &map), Some(8));

    map.push((
        "%struct.S2".to_string(),
        IrStructDef {
            fields: vec!["i8".into(), "i32".into()],
            is_packed: false,
        },
    ));
    assert_eq!(compute_ir_type_size("%struct.S2", &map), Some(8));

    map.push((
        "%struct.S3".to_string(),
        IrStructDef {
            fields: vec!["i8".into(), "i32".into()],
            is_packed: true,
        },
    ));
    assert_eq!(compute_ir_type_size("%struct.S3", &map), Some(5));
}
