//! What the models of strings, the widths of types and the identifiers of
//! symbols have in common.

use saw_spec_gen::bitcode_overrides_functional::StlMethod;
use saw_spec_gen::bitcode_overrides_functional_string::{emit_string_override, StringLayout};
use saw_spec_gen::constraints::{
    ClassConstructor, FunctionInfo, InterfaceMethod, ReturnConstraint, SpecConstraint, TypeInfo,
};
use saw_spec_gen::cryptol_bridge::{AbiReturnBridge, Endianness, PackedField};
use saw_spec_gen::cryptol_sig_parse::{cryptol_param_widths_from_str, parse_cry_width};
use saw_spec_gen::gen_verify_rust_classify::{
    classify_inline_struct_return, format_return_llvm_type, RustReturnKind,
};
use saw_spec_gen::mangle::short_hash;
use saw_spec_gen::names::{sanitize_name, spec_safe_id};
use saw_spec_gen::stubs::{emit_interface_stubs, layouts_ok};

fn body(method: StlMethod) -> String {
    let layout = StringLayout {
        alias: "class.std::basic_string".into(),
        size_field_index: 2,
    };
    let mut out = String::new();
    emit_string_override(&mut out, method, &layout, "sym", "safe", "ov");
    out
}

const SIZE: &str = "    llvm_points_to (llvm_elem s 2) ";

#[test]
fn queries_read_the_size_before_the_call() {
    for m in [StlMethod::BasicStringSize, StlMethod::BasicStringEmpty] {
        let text = body(m);
        let call = text.find("llvm_execute_func").unwrap();
        assert!(text.find(SIZE).unwrap() < call);
        assert!(!text[call..].contains("llvm_points_to"));
        assert!(text[call..].contains("    llvm_return "));
    }
}

#[test]
fn setters_state_the_size_after_the_call() {
    for (m, returns) in [
        (StlMethod::BasicStringCtorDefault, false),
        (StlMethod::BasicStringCtorFromCStr, false),
        (StlMethod::BasicStringCtorCopy, false),
        (StlMethod::BasicStringResize, false),
        (StlMethod::BasicStringAssignCStr, true),
        (StlMethod::BasicStringAssignStr, true),
        (StlMethod::BasicStringOpEqCStr, true),
        (StlMethod::BasicStringOpEqStr, true),
    ] {
        let text = body(m);
        let call = text.find("llvm_execute_func").unwrap();
        assert!(text.find(SIZE).unwrap() > call);
        assert_eq!(text.contains("    llvm_return s;\n"), returns);
    }
}

#[test]
fn other_methods_say_nothing_of_memory() {
    for (m, returns) in [
        (StlMethod::BasicStringDtor, false),
        (StlMethod::BasicStringByteViewNoArg, true),
        (StlMethod::BasicStringByteViewIndexArg, true),
        (StlMethod::BasicStringSizeNeutralScalarQuery, true),
        (StlMethod::BasicStringSizeNeutralMutator, false),
    ] {
        let text = body(m);
        assert!(!text.contains("llvm_points_to"));
        assert_eq!(text.contains("llvm_return"), returns);
    }
}

#[test]
fn the_model_of_an_assignment_is_written_in_full() {
    assert_eq!(
        body(StlMethod::BasicStringAssignStr),
        "\n// override: sym  [stl-functional: BasicStringAssignStr]\n\
         let safe_spec = do {\n\
         \x20   s <- llvm_fresh_pointer (llvm_alias \"class.std::basic_string\");\n\
         \x20   src <- llvm_fresh_pointer (llvm_alias \"class.std::basic_string\");\n\
         \x20   sz_src <- llvm_fresh_var \"sz_src\" (llvm_int 64);\n\
         \x20   llvm_points_to (llvm_elem src 2) (llvm_term sz_src);\n\
         \x20   llvm_execute_func [s, src];\n\
         \x20   llvm_points_to (llvm_elem s 2) (llvm_term sz_src);\n\
         \x20   llvm_return s;\n\
         };\n\
         ov <- llvm_unsafe_assume_spec m \"sym\" safe_spec;\n"
    );
}

#[test]
fn a_sequence_has_its_elements_width_many_times() {
    for ty in ["Bit", "[8]", " [3][5] ", "[2] Bit"] {
        let w = parse_cry_width(ty).unwrap();
        for n in [0u32, 1, 4, 100] {
            assert_eq!(parse_cry_width(&format!("[{n}]{ty}")), Some(n * w));
        }
    }
    assert_eq!(parse_cry_width("Bit"), Some(1));
}

#[test]
fn widths_that_do_not_count_may_be_large() {
    assert_eq!(parse_cry_width("[x][70000][70000]"), None);
    let text = "f : Integer -> [70000][70000] -> Bit\n";
    assert_eq!(cryptol_param_widths_from_str(text, "f"), None);
}

#[test]
fn an_aggregate_is_read_back() {
    for bits in [vec![1], vec![8, 16], vec![64, 32, 1, 8]] {
        let kind = RustReturnKind::Aggregate { field_bits: bits };
        let text = format_return_llvm_type(&kind);
        assert_eq!(classify_inline_struct_return(&text), Some(kind));
    }
    for text in ["i8, i8", "{ i8", "{}", "{ i8, i128 }", "{ i8, }"] {
        assert_eq!(classify_inline_struct_return(text), None);
    }
}

fn spec(name: &str, mangled: Option<&str>) -> SpecConstraint {
    SpecConstraint {
        function_name: name.into(),
        mangled_name: mangled.map(String::from),
        params: vec![],
        return_constraint: ReturnConstraint {
            saw_type: String::new(),
            value_constraints: vec![],
            is_sret: false,
            returns_pointer: false,
            sret_prestate: false,
        },
        can_throw: false,
        is_virtual: false,
        has_body: true,
        referenced_globals: vec![],
        postconditions: vec![],
    }
}

#[test]
fn a_symbol_is_identified_by_its_readable_form_and_its_hash() {
    let id = spec_safe_id(&spec("add", Some("_Z3addii")));
    assert_eq!(id, format!("add_{}", short_hash("_Z3addii")));
    assert_ne!(id, "add");
    for mangled in [None, Some(""), Some("a::b")] {
        assert_eq!(spec_safe_id(&spec("a::b", mangled)), sanitize_name("a::b"));
    }
}

#[test]
fn fields_are_packed_in_one_order() {
    let field = |offset_bits: u32, width: u32| PackedField {
        offset_bits,
        width,
    };
    let bridge = |endian: Endianness| AbiReturnBridge::PackInt {
        fields: vec![field(8, 8), field(0, 8), field(8, 4)],
        total_bits: 16,
        endian,
    };
    let part = |k: usize| {
        if k == 1 {
            "(zext`{16} (r).1)".to_string()
        } else {
            format!("((zext`{{16}} (r).{k}) << 8)")
        }
    };
    assert_eq!(
        bridge(Endianness::Little).wrap("r"),
        format!("{} || {} || {}", part(1), part(0), part(2))
    );
    assert_eq!(
        bridge(Endianness::Big).wrap("r"),
        format!("{} || {} || {}", part(0), part(2), part(1))
    );
}

fn constructor(class: &str, bits: u32) -> ClassConstructor {
    ClassConstructor {
        class_name: class.into(),
        mangled_name: "c".into(),
        layout_fields: vec![("f".into(), TypeInfo::UnsignedInt(bits), String::new())],
    }
}

fn method(class: &str) -> InterfaceMethod {
    InterfaceMethod {
        class_name: class.into(),
        method: FunctionInfo {
            name: "m".into(),
            mangled_name: None,
            params: vec![],
            return_type: TypeInfo::Void,
            can_throw: false,
            is_virtual: true,
            has_body: false,
            is_system: false,
            called_functions: vec![],
            referenced_globals: vec![],
            annotations: vec![],
        },
        is_pure: true,
        is_override: false,
        source_offset: 0,
    }
}

#[test]
fn only_classes_with_methods_need_a_layout() {
    let large = [constructor("A", u32::MAX), constructor("B", 8)];
    assert!(!layouts_ok(&large, &[method("A")]));
    assert!(layouts_ok(&large, &[method("B")]));
    assert!(layouts_ok(&large, &[]));
    let files = emit_interface_stubs(vec![method("B")], &large, &[], &[], None, None);
    assert_eq!(files.len(), 3);
}
