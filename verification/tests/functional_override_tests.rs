//! Methods of the standard library that have a model.

use saw_spec_gen::bitcode_overrides_functional::{
    classify, needs_vector_ghost, try_emit_functional, FunctionalLayouts, StlMethod,
};

#[test]
fn classify_recognises_basic_string_size() {
    let m = "_ZNKSt7__cxx1112basic_stringIcSt11char_traitsIcESaIcEE4sizeEv";
    assert_eq!(classify(m), Some(StlMethod::BasicStringSize));
}

#[test]
fn classify_recognises_basic_string_resize() {
    let m = "_ZNSt7__cxx1112basic_stringIcSt11char_traitsIcESaIcEE6resizeEm";
    assert_eq!(classify(m), Some(StlMethod::BasicStringResize));
}

#[test]
fn classify_recognises_basic_string_default_ctor_and_dtor() {
    assert_eq!(
        classify("_ZNSt7__cxx1112basic_stringIcSt11char_traitsIcESaIcEEC1Ev"),
        Some(StlMethod::BasicStringCtorDefault),
    );
    assert_eq!(
        classify("_ZNSt7__cxx1112basic_stringIcSt11char_traitsIcESaIcEED1Ev"),
        Some(StlMethod::BasicStringDtor),
    );
}

#[test]
fn classify_recognises_vector_methods() {
    assert_eq!(
        classify("_ZNSt6vectorIjSaIjEEC2Ev"),
        Some(StlMethod::VectorCtorDefault),
    );
    assert_eq!(
        classify("_ZNSt6vectorIjSaIjEED2Ev"),
        Some(StlMethod::VectorDtor),
    );
    assert_eq!(
        classify("_ZNSt6vectorIjSaIjEE9push_backEOj"),
        Some(StlMethod::VectorPushBackRvalue),
    );
    assert_eq!(
        classify("_ZNSt6vectorIjSaIjEE4backEv"),
        Some(StlMethod::VectorBack),
    );
}

#[test]
fn classify_skips_unsupported_methods() {
    assert_eq!(
        classify("_ZNSt7__cxx1112basic_stringIcSt11char_traitsIcESaIcEE6appendEPKc"),
        None,
    );
    assert_eq!(classify("_ZNKSt6vectorIjSaIjEE4sizeEv"), None);
    assert_eq!(classify("_Z3fooi"), None);
}

#[test]
fn needs_vector_ghost_true_when_any_vector_method_present() {
    let syms = vec![
        "_ZNKSt7__cxx1112basic_stringIcSt11char_traitsIcESaIcEE4sizeEv",
        "_ZNSt6vectorIjSaIjEE9push_backEOj",
    ];
    assert!(needs_vector_ghost(&syms));
}

#[test]
fn needs_vector_ghost_false_for_string_only() {
    let syms = vec![
        "_ZNSt7__cxx1112basic_stringIcSt11char_traitsIcESaIcEEC1Ev",
        "_ZNKSt7__cxx1112basic_stringIcSt11char_traitsIcESaIcEE4sizeEv",
    ];
    assert!(!needs_vector_ghost(&syms));
}

#[test]
fn needs_vector_ghost_false_for_unsupported_vector_element() {
    let syms = vec!["_ZNSt6vectorIN3foo3BarESaIS1_EEC2Ev"];
    assert!(!needs_vector_ghost(&syms));
}

#[test]
fn try_emit_functional_skips_unknown_symbol() {
    let mut out = String::new();
    let layouts = FunctionalLayouts::default();
    assert!(!try_emit_functional(
        &mut out, "_Z3fooi", "f", "ov_f", &layouts,
    ));
    assert!(out.is_empty());
}
