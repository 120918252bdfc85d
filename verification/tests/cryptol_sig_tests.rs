//! Signatures of Cryptol functions.

use saw_spec_gen::cryptol_sig_parse::{cryptol_arity_from_str, cryptol_param_widths_from_str};

#[test]
fn simple_arity() {
    let cry = "getStatus : Bit -> Bit -> Bit -> [16][8] -> [20][8]\n";
    assert_eq!(cryptol_arity_from_str(cry, "getStatus"), Some(4));
}

#[test]
fn arity_with_prestate_param() {
    let cry = "\
getStatus :
    Bit ->
    Bit ->
    Bit ->
    [16][8] ->
    [17][8] ->
    [20][8]
";
    assert_eq!(cryptol_arity_from_str(cry, "getStatus"), Some(5));
}

#[test]
fn arity_no_params() {
    let cry = "someConst : [32]\n";
    assert_eq!(cryptol_arity_from_str(cry, "someConst"), Some(0));
}

#[test]
fn arity_nested_brackets() {
    let cry = "f : [8] -> ([4] -> [4]) -> [8]\n";
    assert_eq!(cryptol_arity_from_str(cry, "f"), Some(2));
}

#[test]
fn arity_not_found() {
    let cry = "other : Bit -> Bit\n";
    assert_eq!(cryptol_arity_from_str(cry, "missing"), None);
}

#[test]
fn arity_with_line_comment() {
    let cry = "\
getStatus :
    Bit ->  // fleetEnabled
    Bit ->  // hasKey
    [20][8]
";
    assert_eq!(cryptol_arity_from_str(cry, "getStatus"), Some(2));
}

#[test]
fn cryptol_sig_parse_cryptol_widths_simple() {
    let cry = "f : [8] -> [32]\n";
    let w = cryptol_param_widths_from_str(cry, "f").unwrap();
    assert_eq!(w, vec![8]);
}

#[test]
fn cryptol_sig_parse_cryptol_widths_multi() {
    let cry = "f : Bit -> [8] -> [32] -> [16]\n";
    let w = cryptol_param_widths_from_str(cry, "f").unwrap();
    assert_eq!(w, vec![1, 8, 32]);
}

#[test]
fn cryptol_sig_parse_cryptol_widths_byte_array() {
    let cry = "g : [4][8] -> [32]\n";
    let w = cryptol_param_widths_from_str(cry, "g").unwrap();
    assert_eq!(w, vec![32]);
}
