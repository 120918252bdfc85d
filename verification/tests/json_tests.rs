//! JSON documents, read and written.

use saw_spec_gen::gen_verify_rust::{meta_document, resolve_target};
use saw_spec_gen::json::{parse_json, Json, JsonError};
use saw_spec_gen::mir_json::{extract_functions_from_text, mir_size_error, MAX_MIR_FILE_SIZE};

#[test]
fn each_kind_of_value_is_read() {
    let doc = parse_json(r#"{"b": [null, true, 7, -1, 2.5, "x"], "a": {}}"#).unwrap();
    let b = doc.get("b").unwrap().as_array().unwrap();
    assert_eq!(b[0], Json::Null);
    assert_eq!(b[1], Json::Bool(true));
    assert_eq!(b[2], Json::Unsigned(7));
    assert_eq!(b[3], Json::OtherNumber("-1".to_string()));
    assert_eq!(b[4], Json::OtherNumber("2.5".to_string()));
    assert_eq!(b[5], Json::Text("x".to_string()));
    assert_eq!(doc.get("a"), Some(&Json::Object(vec![])));
    assert_eq!(doc.get("c"), None);
}

#[test]
fn of_two_members_with_one_name_the_later_one_counts() {
    let doc = parse_json(r#"{"k": 1, "k": 2}"#).unwrap();
    assert_eq!(doc.get_u64("k"), Some(2));
    let made = Json::Object(vec![
        ("k".to_string(), Json::Unsigned(1)),
        ("k".to_string(), Json::Unsigned(2)),
    ]);
    assert_eq!(made.get_u64("k"), Some(2));
}

#[test]
fn accessors_refuse_other_kinds() {
    let doc = parse_json(r#"{"n": 3, "s": "t", "f": false}"#).unwrap();
    assert_eq!(doc.get_str("n"), None);
    assert_eq!(doc.get_str("s"), Some("t"));
    assert_eq!(doc.get_u64("s"), None);
    assert_eq!(doc.get("f").unwrap().as_bool(), Some(false));
    assert_eq!(doc.get("n").unwrap().as_bool(), None);
    assert_eq!(doc.get_array("n"), None);
    assert_eq!(doc.get("s").unwrap().get("x"), None);
}

#[test]
fn text_that_is_no_document_is_refused() {
    assert_eq!(parse_json("{"), Err(JsonError::Malformed));
    assert_eq!(parse_json(""), Err(JsonError::Malformed));
    assert_eq!(
        extract_functions_from_text("[1, ]", None),
        Err(JsonError::Malformed)
    );
}

#[test]
fn functions_are_read_from_text() {
    let text = r#"{"fns": [{"name": "f", "attrs": ["nounwind", "inline"]}, {"args": []}]}"#;
    let funcs = extract_functions_from_text(text, None).unwrap();
    assert_eq!(funcs.len(), 1);
    assert_eq!(funcs[0].name, "f");
    assert_eq!(funcs[0].annotations.len(), 1);
    let none = extract_functions_from_text("{}", Some("f")).unwrap();
    assert!(none.is_empty());
}

#[test]
fn the_description_of_a_function_is_written_with_sorted_names() {
    let ir = "\
@G = global i32 0
define i32 @_RNvCs0_4test1f(i32 %x) {
";
    let arts = resolve_target(ir, "f").unwrap();
    assert_eq!(arts.return_bits(), Some(32));
    let text = meta_document("f", "f_spec", &arts);
    let expected = r#"{
  "cryptol_fn": "f_spec",
  "function": "f",
  "globals": [
    "G"
  ],
  "mangled_name": "_RNvCs0_4test1f",
  "params": [
    {
      "bits": 32,
      "index": 0,
      "llvm_type": "i32",
      "name": "x0"
    }
  ],
  "return_bits": 32,
  "return_llvm_type": "i32",
  "schema_version": 1
}
"#;
    assert_eq!(text, expected);
}

#[test]
fn an_aggregate_has_no_width() {
    let ir = "\
%Pair = type { i1, i8 }
define %Pair @_RNvCs0_4test1f() {
";
    let arts = resolve_target(ir, "f").unwrap();
    assert_eq!(arts.return_bits(), None);
    assert_eq!(arts.return_llvm_type, "{ i1, i8 }");
    let text = meta_document("f", "f_spec", &arts);
    assert!(text.contains("\"return_bits\": null"));
    assert!(text.contains("\"params\": []"));
}

#[test]
fn large_dumps_are_refused() {
    assert_eq!(mir_size_error("a.json", MAX_MIR_FILE_SIZE), None);
    let text = mir_size_error("a.json", MAX_MIR_FILE_SIZE + 1).unwrap();
    assert!(text.starts_with("MIR file a.json is too large (100 MB, limit is 100 MB)."));
}
