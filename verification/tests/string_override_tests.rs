//! The model of strings.

use saw_spec_gen::bitcode_overrides_functional::StlMethod;
use saw_spec_gen::bitcode_overrides_functional_string::{
    discover_string_layout, emit_string_override, StringLayout,
};
use saw_spec_gen::ir_layout::IrStructDef;

fn def_basic_string() -> (String, IrStructDef) {
    (
        "class.std::__cxx11::basic_string".to_string(),
        IrStructDef {
            fields: vec![
                "%\"struct.std::__cxx11::basic_string<char>::_Alloc_hider\"".to_string(),
                "i64".to_string(),
                "%union.anon".to_string(),
            ],
            is_packed: false,
        },
    )
}

#[test]
fn discover_string_layout_finds_libstdcpp_struct() {
    let mut defs = Vec::new();
    let (k, v) = def_basic_string();
    defs.push((k.clone(), v));
    let layout = discover_string_layout(&defs).expect("layout discovered");
    assert_eq!(layout.alias, k);
    assert_eq!(layout.size_field_index, 1);
}

#[test]
fn discover_string_layout_returns_none_without_basic_string() {
    let mut defs = Vec::new();
    defs.push((
        "class.std::vector".to_string(),
        IrStructDef {
            fields: vec!["ptr".to_string(), "ptr".to_string(), "ptr".to_string()],
            is_packed: false,
        },
    ));
    assert!(discover_string_layout(&defs).is_none());
}

#[test]
fn discover_string_layout_skips_alloc_hider_alias() {
    let mut defs = Vec::new();
    defs.push((
        "struct.std::__cxx11::basic_string<char>::_Alloc_hider".to_string(),
        IrStructDef {
            fields: vec!["ptr".to_string()],
            is_packed: false,
        },
    ));
    assert!(discover_string_layout(&defs).is_none());
}

#[test]
fn emit_size_uses_integer_index_not_field_name() {
    let (alias, _) = def_basic_string();
    let layout = StringLayout {
        alias,
        size_field_index: 1,
    };
    let mut out = String::new();
    emit_string_override(
        &mut out,
        StlMethod::BasicStringSize,
        &layout,
        "_ZNKSt7__cxx1112basic_stringIcSt11char_traitsIcESaIcEE4sizeEv",
        "ov_size_safe",
        "ov_size",
    );
    assert!(out.contains("llvm_elem s 1"), "spec body:\n{out}");
    assert!(!out.contains("_M_string_length"));
    assert!(out.contains("llvm_return (llvm_term sz)"));
}

#[test]
fn emit_resize_writes_field_after_execute() {
    let (alias, _) = def_basic_string();
    let layout = StringLayout {
        alias,
        size_field_index: 1,
    };
    let mut out = String::new();
    emit_string_override(
        &mut out,
        StlMethod::BasicStringResize,
        &layout,
        "_ZNSt7__cxx1112basic_stringIcSt11char_traitsIcESaIcEE6resizeEm",
        "ov_resize_safe",
        "ov_resize",
    );
    let exec_pos = out.find("llvm_execute_func").expect("has execute");
    let write_pos = out
        .find("llvm_points_to (llvm_elem s 1) (llvm_term n)")
        .expect("has write");
    assert!(write_pos > exec_pos, "write must come after execute");
}

#[test]
fn emit_data_is_model_agnostic_no_prestate_points_to() {
    let (alias, _) = def_basic_string();
    let layout = StringLayout {
        alias,
        size_field_index: 1,
    };
    let mut out = String::new();
    emit_string_override(
        &mut out,
        StlMethod::BasicStringByteViewNoArg,
        &layout,
        "_ZNSt7__cxx1112basic_stringIcSt11char_traitsIcESaIcEE4dataEv",
        "ov_data_safe",
        "ov_data",
    );
    let exec_pos = out.find("llvm_execute_func").expect("has execute");
    let pre_slice = &out[..exec_pos];
    assert!(
        !pre_slice.contains("llvm_points_to"),
        "data() pre-state must be empty for option (a); got:\n{out}",
    );
    assert!(out.contains("llvm_fresh_pointer (llvm_int 8)"));
    assert!(out.contains("llvm_return d"));
}

#[test]
fn emit_cstr_matches_data_pattern() {
    let (alias, _) = def_basic_string();
    let layout = StringLayout {
        alias,
        size_field_index: 1,
    };
    let mut out = String::new();
    emit_string_override(
        &mut out,
        StlMethod::BasicStringByteViewNoArg,
        &layout,
        "_ZNKSt7__cxx1112basic_stringIcSt11char_traitsIcESaIcEE5c_strEv",
        "ov_cstr_safe",
        "ov_cstr",
    );
    assert!(out.contains("llvm_fresh_pointer (llvm_int 8)"));
    assert!(out.contains("llvm_return d"));
    let exec_pos = out.find("llvm_execute_func").expect("has execute");
    assert!(!out[..exec_pos].contains("llvm_points_to"));
}

#[test]
fn emit_index_passes_idx_and_returns_fresh_pointer() {
    let (alias, _) = def_basic_string();
    let layout = StringLayout {
        alias,
        size_field_index: 1,
    };
    let mut out = String::new();
    emit_string_override(
        &mut out,
        StlMethod::BasicStringByteViewIndexArg,
        &layout,
        "_ZNSt7__cxx1112basic_stringIcSt11char_traitsIcESaIcEEixEm",
        "ov_idx_safe",
        "ov_idx",
    );
    assert!(out.contains("llvm_fresh_var \"idx\""));
    assert!(out.contains("llvm_execute_func [s, llvm_term idx]"));
    assert!(out.contains("llvm_fresh_pointer (llvm_int 8)"));
    assert!(out.contains("llvm_return d"));
}

#[test]
fn emit_empty_returns_size_eq_zero() {
    let (alias, _) = def_basic_string();
    let layout = StringLayout {
        alias,
        size_field_index: 1,
    };
    let mut out = String::new();
    emit_string_override(
        &mut out,
        StlMethod::BasicStringEmpty,
        &layout,
        "_ZNKSt7__cxx1112basic_stringIcSt11char_traitsIcESaIcEE5emptyEv",
        "ov_empty_safe",
        "ov_empty",
    );
    assert!(out.contains("llvm_fresh_var \"sz\""));
    assert!(out.contains("llvm_points_to (llvm_elem s 1) (llvm_term sz)"));
    assert!(out.contains("llvm_return (llvm_term {{ sz == 0 }})"));
}

#[test]
fn emit_copy_assign_threads_size_from_src_to_dst() {
    let (alias, _) = def_basic_string();
    let layout = StringLayout {
        alias: alias.clone(),
        size_field_index: 1,
    };
    let mut out = String::new();
    emit_string_override(
        &mut out,
        StlMethod::BasicStringAssignStr,
        &layout,
        "_ZNSt7__cxx1112basic_stringIcSt11char_traitsIcESaIcEE6assignERKS4_",
        "ov_assign_safe",
        "ov_assign",
    );
    assert!(out.contains(&format!("llvm_fresh_pointer (llvm_alias \"{alias}\")",)));
    assert!(out.contains("sz_src"));
    assert!(out.contains("llvm_points_to (llvm_elem src 1) (llvm_term sz_src)"));
    assert!(out.contains("llvm_points_to (llvm_elem s 1) (llvm_term sz_src)"));
    assert!(out.contains("llvm_return s"));
}

#[test]
fn emit_ctor_from_cstr_sets_symbolic_size_no_return() {
    let (alias, _) = def_basic_string();
    let layout = StringLayout {
        alias,
        size_field_index: 1,
    };
    let mut out = String::new();
    emit_string_override(
        &mut out,
        StlMethod::BasicStringCtorFromCStr,
        &layout,
        "_ZNSt7__cxx1112basic_stringIcSt11char_traitsIcESaIcEEC1EPKc",
        "ov_ctor_cstr_safe",
        "ov_ctor_cstr",
    );
    assert!(out.contains("llvm_fresh_pointer (llvm_int 8)"));
    assert!(out.contains("llvm_fresh_var \"n\""));
    assert!(out.contains("llvm_points_to (llvm_elem s 1) (llvm_term n)"));
    assert!(
        !out.contains("llvm_return"),
        "ctor must not emit llvm_return"
    );
}

#[test]
fn emit_reserve_has_no_post_state() {
    let (alias, _) = def_basic_string();
    let layout = StringLayout {
        alias,
        size_field_index: 1,
    };
    let mut out = String::new();
    emit_string_override(
        &mut out,
        StlMethod::BasicStringSizeNeutralMutator,
        &layout,
        "_ZNSt7__cxx1112basic_stringIcSt11char_traitsIcESaIcEE7reserveEm",
        "ov_reserve_safe",
        "ov_reserve",
    );
    let exec_pos = out.find("llvm_execute_func").expect("has execute");
    let post_slice = &out[exec_pos..];
    assert!(
        !post_slice.contains("llvm_points_to"),
        "reserve post-state must be empty; got:\n{out}",
    );
    assert!(!out.contains("llvm_return"));
}
