//! The inventory of verified functions.

use saw_spec_gen::inventory::{
    aggregate_inventory, build_models_note, emit_fragment, resolve_cpp_source_file, should_skip_dir,
    InventoryEntry, InventoryError, SourceNode,
};

#[test]
fn emits_fragment_with_expected_optional_fields() {
    let v = emit_fragment(
        "provisionKey",
        "cpp",
        Some("?provisionKey@@YAXH@Z".to_string()),
        Some("cpp/src/decision.cpp".to_string()),
        "provisionKey_model",
        Some("bounded model only".to_string()),
    )
    .unwrap();
    assert_eq!(v.name, "provisionKey");
    assert_eq!(v.lang, "cpp");
    assert_eq!(v.symbol.as_deref(), Some("?provisionKey@@YAXH@Z"));
    assert_eq!(v.file.as_deref(), Some("cpp/src/decision.cpp"));
    assert_eq!(v.models.as_deref(), Some("provisionKey_model"));
    assert_eq!(v.models_note.as_deref(), Some("bounded model only"));
    assert!(v.composes.is_empty());
}

#[test]
fn aggregates_fragments_into_single_document() {
    let alpha = emit_fragment(
        "alpha",
        "cpp",
        Some("_Z5alphav".to_string()),
        Some("cpp/alpha.cpp".to_string()),
        "alpha",
        None,
    )
    .unwrap();
    let beta = emit_fragment(
        "beta",
        "rust",
        Some("_RNvCsbeta4beta".to_string()),
        None,
        "beta_spec",
        Some("variant-mapped return via ABI adapter".to_string()),
    )
    .unwrap();
    let doc = aggregate_inventory(vec![beta, alpha]);
    assert_eq!(doc.functions.len(), 2);
    assert_eq!(doc.functions[0].name, "alpha");
    assert_eq!(doc.functions[0].models, None);
    assert_eq!(doc.functions[1].name, "beta");
    assert_eq!(doc.functions[1].models.as_deref(), Some("beta_spec"));
}

#[test]
fn entries_that_say_nothing_are_refused() {
    let e = emit_fragment("  ", "cpp", None, None, "m", None).unwrap_err();
    assert_eq!(e, InventoryError::EmptyName);
    assert_eq!(
        e.message("cpp"),
        "inventory entry requires a non-empty function name"
    );
    let e = emit_fragment("f", "go", None, None, "m", None).unwrap_err();
    assert_eq!(e, InventoryError::UnknownLanguage);
    assert_eq!(
        e.message("go"),
        "inventory entry lang must be 'cpp' or 'rust', got 'go'"
    );
}

#[test]
fn notes_name_what_limits_the_model() {
    assert_eq!(build_models_note(false, false), None);
    assert_eq!(
        build_models_note(true, false).as_deref(),
        Some("bounded model only")
    );
    assert_eq!(
        build_models_note(false, true).as_deref(),
        Some("variant-mapped return via ABI adapter")
    );
    assert_eq!(
        build_models_note(true, true).as_deref(),
        Some("bounded model only; variant-mapped return via ABI adapter")
    );
}

fn entry(name: &str, lang: &str, symbol: Option<&str>, note: &str) -> InventoryEntry {
    InventoryEntry {
        name: name.into(),
        lang: lang.into(),
        symbol: symbol.map(String::from),
        file: None,
        models: None,
        models_note: Some(note.into()),
        composes: vec![],
    }
}

#[test]
fn the_order_is_by_name_language_and_symbol_and_is_stable() {
    let doc = aggregate_inventory(vec![
        entry("b", "cpp", None, "1"),
        entry("a", "rust", None, "2"),
        entry("a", "cpp", Some("s"), "3"),
        entry("a", "cpp", None, "4"),
        entry("a", "cpp", Some("s"), "5"),
    ]);
    let notes: Vec<&str> = doc
        .functions
        .iter()
        .map(|e| e.models_note.as_deref().unwrap())
        .collect();
    assert_eq!(notes, vec!["4", "3", "5", "2", "1"]);
}

#[test]
fn build_directories_are_left_out() {
    for name in ["target", "node_modules", ".git", ".beads", "dist", "build"] {
        assert!(should_skip_dir(name));
    }
    assert!(!should_skip_dir("src"));
}

fn node(file: Option<&str>, name: &str, mangled: &str, has_body: bool, offset: u64) -> SourceNode {
    SourceNode {
        file: file.map(String::from),
        is_function: true,
        name: Some(name.into()),
        mangled_name: Some(mangled.into()),
        has_body,
        offset,
    }
}

#[test]
fn definitions_win_over_declarations() {
    let nodes = [
        node(Some("a\\b.h"), "f", "_f", false, 1),
        node(None, "g", "_g", true, 2),
        node(Some("c.cpp"), "f", "_f", true, 9),
        node(Some("d.cpp"), "f", "_x", true, 3),
    ];
    assert_eq!(
        resolve_cpp_source_file(&nodes, "f", "_f").as_deref(),
        Some("c.cpp")
    );
    assert_eq!(
        resolve_cpp_source_file(&nodes[..2], "f", "_f").as_deref(),
        Some("a/b.h")
    );
    assert_eq!(
        resolve_cpp_source_file(&nodes[..2], "g", "_q").as_deref(),
        Some("a/b.h")
    );
    assert_eq!(resolve_cpp_source_file(&nodes, "h", "_h"), None);
}

#[test]
fn a_node_without_a_file_is_no_source() {
    let nodes = [node(None, "f", "_f", true, 0)];
    assert_eq!(resolve_cpp_source_file(&nodes, "f", "_f"), None);
}
