//! Layouts of IR types, and IR text that has none.

use saw_spec_gen::constraints::{Annotation, TypeInfo};
use saw_spec_gen::gen_verify_rust::{
    contains_global_keyword, extract_param_ranges, extract_single_range, resolve_target,
    scan_globals, ResolveError,
};
use saw_spec_gen::gen_verify_rust_classify::{
    classify_inline_struct_return, classify_return, classify_sret_return, format_return_llvm_type,
    RustReturnKind,
};
use saw_spec_gen::ir_layout::{
    compute_ir_type_size, compute_struct_size, find_def, parse_ir_type_resolved,
    parse_struct_types, resolve_ir_type, split_ir_params, type_alignment, IrError, IrStructDef,
};
use saw_spec_gen::llvm_ir::{
    extract_functions, find_matching_paren, find_signature, ir_size_error, MAX_IR_FILE_SIZE,
};

fn defs(fields: &[&str], is_packed: bool) -> Vec<(String, IrStructDef)> {
    vec![(
        "%S".to_string(),
        IrStructDef {
            fields: fields.iter().map(|f| f.to_string()).collect(),
            is_packed,
        },
    )]
}

#[test]
fn a_struct_takes_a_multiple_of_its_alignment() {
    let d = defs(&["i8", "i64", "i16"], false);
    assert_eq!(compute_ir_type_size("%S", &d), Some(24));
    assert_eq!(type_alignment("%S", &d), Some(8));
    assert_eq!(compute_struct_size(&d[0].1, &d), Some(24));
}

#[test]
fn packing_saves() {
    let fields = ["i8", "i64", "i16"];
    assert_eq!(compute_ir_type_size("%S", &defs(&fields, true)), Some(11));
    assert_eq!(type_alignment("%S", &defs(&fields, true)), Some(1));
}

#[test]
fn sizes_of_scalars_and_arrays() {
    let none = [];
    for (ty, size) in [
        ("void", 0),
        ("i1", 1),
        ("i8", 1),
        ("i16", 2),
        ("i32", 4),
        ("float", 4),
        ("i64", 8),
        ("double", 8),
        ("ptr", 8),
        ("i128", 16),
        ("i8**", 8),
        ("[3 x i32]", 12),
        ("[2 x [2 x i16]]", 8),
    ] {
        assert_eq!(compute_ir_type_size(ty, &none), Some(size), "{ty}");
    }
    assert_eq!(compute_ir_type_size("%Unknown", &none), None);
    assert_eq!(compute_ir_type_size("[x i8]", &none), None);
    assert_eq!(type_alignment("void", &none), Some(1));
    assert_eq!(type_alignment("[9 x i32]", &none), Some(4));
    assert_eq!(type_alignment("x86_fp80", &none), None);
}

#[test]
fn the_last_definition_counts() {
    let d = parse_struct_types("%A = type { i8 }\n%A = type <{ i32, i8 }>\nA = type { i8 }\n");
    assert_eq!(d.len(), 2);
    let def = find_def(&d, "%A").unwrap();
    assert!(def.is_packed);
    assert_eq!(def.fields, vec!["i32", "i8"]);
    assert_eq!(find_def(&d, "%B"), None);
}

#[test]
fn a_struct_that_holds_itself_has_no_layout() {
    let d = defs(&["i32", "%S*"], false);
    assert_eq!(resolve_ir_type("%S", &d), Err(IrError::EndlessStruct));
    let ir = "%S = type { %S }\ndefine void @f(%S* %p) {\n";
    assert_eq!(extract_functions(ir, None), Err(IrError::EndlessStruct));
    assert_eq!(
        resolve_target(ir, "f"),
        Err(ResolveError::Ir(IrError::EndlessStruct))
    );
}

#[test]
fn a_size_beyond_the_address_space_is_refused() {
    let ir = "%S = type { [18446744073709551615 x i16] }\ndeclare void @f(%S)\n";
    assert_eq!(extract_functions(ir, None), Err(IrError::SizeTooLarge));
    let ok = "%S = type { i16 }\ndeclare void @f(%S)\n";
    assert!(extract_functions(ok, None).is_ok());
}

#[test]
fn stars_are_left_out_of_resolved_types() {
    let none = [];
    assert_eq!(parse_ir_type_resolved("i32**", &none), TypeInfo::SignedInt(32));
    assert_eq!(
        parse_ir_type_resolved("ptr", &none),
        TypeInfo::Pointer(Box::new(TypeInfo::UnsignedInt(8)))
    );
    assert_eq!(
        parse_ir_type_resolved("[4 x i32]", &none),
        TypeInfo::Opaque {
            name: "[4 x i32]".into(),
            size_bytes: 0
        }
    );
    assert_eq!(
        parse_ir_type_resolved("%\"struct.A\"", &none),
        TypeInfo::Opaque {
            name: "struct.A".into(),
            size_bytes: 0
        }
    );
}

#[test]
fn lists_are_split_outside_brackets() {
    assert_eq!(split_ir_params("i32, <2 x i8>, "), vec!["i32", "<2 x i8>"]);
    assert_eq!(split_ir_params("a, , b"), vec!["a", "", "b"]);
    assert!(split_ir_params("  ").is_empty());
    assert_eq!(split_ir_params("}, a"), vec!["}, a"]);
}

#[test]
fn parameters_keep_their_numbers() {
    let funcs = extract_functions("declare void @f(i32, ..., i64 dereferenceable(12), i8 %n)\n", None)
        .unwrap();
    let p = &funcs[0].params;
    assert_eq!(p.len(), 3);
    assert_eq!(p[0].name, "arg0");
    assert_eq!(p[1].name, "arg1");
    assert_eq!(p[1].annotations, vec![Annotation::Dereferenceable(12)]);
    assert_eq!(p[2].name, "n");
    assert!(!funcs[0].has_body);
    assert!(funcs[0].can_throw);
}

#[test]
fn a_range_is_no_part_of_the_type() {
    let funcs = extract_functions("define i8 @f(i8 range(i8 0, 3) %x) {\n", None).unwrap();
    assert_eq!(funcs[0].params[0].ty, TypeInfo::SignedInt(8));
    assert_eq!(funcs[0].params[0].name, "x");
    assert!(funcs[0].has_body);
}

#[test]
fn lines_without_a_parameter_list_are_no_functions() {
    assert!(extract_functions("declare void @f\ndefine x\n", None)
        .unwrap()
        .is_empty());
    assert_eq!(find_signature("define i8 @f(i8 (i8)) x)"), Some((10, 12, 20)));
    assert_eq!(find_signature("@f(("), None);
    let cs: Vec<char> = "a(b)".chars().collect();
    assert_eq!(find_matching_paren(&cs, 1), Some(3));
}

#[test]
fn large_files_are_refused() {
    assert_eq!(ir_size_error("a.ll", MAX_IR_FILE_SIZE), None);
    let text = ir_size_error("a.ll", MAX_IR_FILE_SIZE + 1048576).unwrap();
    assert!(text.starts_with("LLVM IR file a.ll is too large (201 MB, limit is 200 MB)."));
}

#[test]
fn ranges_are_read() {
    assert_eq!(extract_single_range("i8 range(0, 3) %x"), Some((0, 3)));
    assert_eq!(extract_single_range("i8 range(0) %x"), None);
    assert_eq!(extract_single_range("i8 range(i8 0, 3)"), None);
    assert_eq!(extract_single_range("i8 %x"), None);
    assert_eq!(
        extract_param_ranges("i8, i8 range(1, 2)"),
        vec![None, Some((1, 2))]
    );
    assert!(extract_param_ranges(" ").is_empty());
}

#[test]
fn each_variable_is_listed_once() {
    let ir = "\
@A = global i32 0
  @\"B C\" = internal unnamed_addr global i32 0
@A = global i32 0
@K = constant i32 1
@L = alias i32, ptr @A
@__imp_x = external global ptr
@N = external thread_local(localexec) global i32
nothing = global
";
    assert_eq!(scan_globals(ir), vec!["A", "B C"]);
    assert!(contains_global_keyword("internal global i32"));
    assert!(!contains_global_keyword("constant global"));
    assert!(!contains_global_keyword("x-y global"));
}

#[test]
fn the_shortest_symbol_is_chosen() {
    let ir = "\
define i32 @_RNvCs0_4test3one3get(i32 %x) {
define i32 @_RNvCs0_3get(i32 %x) {
define void @_R3get(ptr %x) {
";
    assert_eq!(resolve_target(ir, "get").unwrap().mangled_name, "_RNvCs0_3get");
}

#[test]
fn targets_that_cannot_be_told_are_refused() {
    let ir = "define i32 @_RA3get(i32 %x) {\ndefine i32 @_RB3get(i32 %x) {\n";
    let e = resolve_target(ir, "get").unwrap_err();
    assert_eq!(
        e,
        ResolveError::Ambiguous {
            tied: vec!["_RA3get".to_string(), "_RB3get".to_string()]
        }
    );
    assert!(e.message("get").ends_with("Tied candidates:\n  _RA3get\n  _RB3get"));
    let e = resolve_target("declare i32 @_RA3get(i32)\n", "get").unwrap_err();
    assert_eq!(e, ResolveError::NoSymbol);
    assert!(e.message("get").contains("ends with '3get'"));
    let e = resolve_target("define void @_RA3get(i32) {\n", "get").unwrap_err();
    assert_eq!(
        e,
        ResolveError::NoCompatible {
            names: vec!["_RA3get".to_string()]
        }
    );
    assert!(e.message("get").ends_with("Candidates were:\n  _RA3get"));
    let e = ResolveError::Ir(IrError::SizeTooLarge);
    assert!(e.message("get").contains("exceeds the address space"));
}

#[test]
fn results_are_classified() {
    assert_eq!(
        classify_return(&TypeInfo::Bool),
        Some(RustReturnKind::Scalar { bits: 1 })
    );
    assert_eq!(classify_return(&TypeInfo::Void), None);
    let unsized_struct = TypeInfo::Struct {
        name: "S".into(),
        size_bytes: None,
        fields: vec![("f".into(), TypeInfo::Void)],
    };
    assert_eq!(classify_return(&unsized_struct), None);
    let sized = TypeInfo::Struct {
        name: "S".into(),
        size_bytes: Some(24),
        fields: vec![("f".into(), TypeInfo::Void)],
    };
    let kind = RustReturnKind::Sret {
        llvm_type: "%S".into(),
        size_bytes: 24,
    };
    assert_eq!(classify_return(&sized), Some(kind));
    assert_eq!(
        classify_sret_return(&TypeInfo::ByteArray(5)),
        Some(RustReturnKind::Sret {
            llvm_type: "[5 x i8]".into(),
            size_bytes: 5
        })
    );
    assert_eq!(classify_sret_return(&TypeInfo::Bool), None);
    assert_eq!(
        classify_inline_struct_return("{ i1, i64 }"),
        Some(RustReturnKind::Aggregate {
            field_bits: vec![1, 64]
        })
    );
    assert_eq!(classify_inline_struct_return("{ }"), None);
    assert_eq!(classify_inline_struct_return("{ i1, ptr }"), None);
    assert_eq!(
        format_return_llvm_type(&RustReturnKind::Aggregate {
            field_bits: vec![8, 32]
        }),
        "{ i8, i32 }"
    );
    assert_eq!(
        format_return_llvm_type(&RustReturnKind::Scalar { bits: 16 }),
        "i16"
    );
}

#[test]
fn results_returned_through_memory_are_handled() {
    let ir = "\
%Big = type { i64, i64, i64 }
define void @_RNvCs0_4test1f(ptr sret(%Big) %out, i32 range(1, 9) %x) {
define void @_RNvCs0_4test1g(ptr noalias sret([24 x i8]) %out, i8 %x) {
define void @_RNvCs0_4test1h(ptr writeonly %out, i8 %x) {
";
    let f = resolve_target(ir, "f").unwrap();
    assert_eq!(
        f.return_kind,
        RustReturnKind::Sret {
            llvm_type: "%Big".into(),
            size_bytes: 24
        }
    );
    assert_eq!(f.params.len(), 1);
    assert_eq!(f.params[0].index, 0);
    assert_eq!(f.params[0].bits, 32);
    assert_eq!(f.params[0].range, Some((1, 9)));
    let g = resolve_target(ir, "g").unwrap();
    assert_eq!(g.return_llvm_type, "[24 x i8]");
    assert_eq!(g.return_bits(), None);
    assert!(resolve_target(ir, "h").is_err());
}

#[test]
fn a_filter_leaves_functions_out() {
    let ir = "declare void @ab()\ndeclare void @c()\ndefine void @cab() {\n";
    let names = |filter: Option<&str>| -> Vec<String> {
        let funcs = extract_functions(ir, filter).unwrap();
        funcs.into_iter().map(|f| f.name).collect()
    };
    assert_eq!(names(None), vec!["ab", "c", "cab"]);
    assert_eq!(names(Some("ab")), vec!["ab", "cab"]);
    assert!(names(Some("x")).is_empty());
    let bad = "%S = type { %S }\ndeclare void @f(%S)\n";
    assert_eq!(extract_functions(bad, Some("x")), Err(IrError::EndlessStruct));
}
