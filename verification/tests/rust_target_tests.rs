//! The verified Rust function.

use saw_spec_gen::gen_verify_rust::resolve_target;
use saw_spec_gen::gen_verify_rust_classify::RustReturnKind;

#[test]
fn resolves_simple_unary_function() {
    let ir = "\
define internal i32 @_RNvCs1234_8mycrate7add_one(i32 %x) unnamed_addr {
entry:
  ret i32 1
}
";
    let arts = resolve_target(ir, "add_one").unwrap();
    assert_eq!(arts.mangled_name, "_RNvCs1234_8mycrate7add_one");
    assert_eq!(arts.params.len(), 1);
    assert_eq!(arts.params[0].bits, 32);
    assert!(matches!(
        arts.return_kind,
        RustReturnKind::Scalar { bits: 32 }
    ));
    assert!(arts.globals.is_empty());
}


#[test]
fn skips_drop_glue_via_signature_filter() {
    let ir = "\
define internal void @_RINvNtCs0_4core3ptr13drop_in_placeNvCs1_8mycrate7add_oneEB7_(ptr %0) {
entry:
  ret void
}
define internal i32 @_RNvCs1_8mycrate7add_one(i32 %x) {
entry:
  ret i32 1
}
";
    let arts = resolve_target(ir, "add_one").unwrap();
    assert_eq!(arts.mangled_name, "_RNvCs1_8mycrate7add_one");
}

#[test]
fn picks_up_mutable_globals_only() {
    let ir = "\
@COUNTER = internal global i32 0
@MAX = internal constant i32 42
@__imp_foo = external global ptr
define i32 @_RNvCs0_2cc3get() {
entry:
  ret i32 0
}
";
    let arts = resolve_target(ir, "get").unwrap();
    assert_eq!(arts.globals, vec!["COUNTER".to_string()]);
}





#[test]
fn resolves_aggregate_return() {
    let ir = "\
%Pair = type { i1, i1 }
define %Pair @_RNvCs0_4test9make_pair(i32 %x) {
entry:
  ret %Pair zeroinitializer
}
";
    let arts = resolve_target(ir, "make_pair").unwrap();
    match &arts.return_kind {
        RustReturnKind::Aggregate { field_bits } => {
            assert_eq!(field_bits, &[1, 1]);
        }
        other => panic!("expected Aggregate, got {other:?}"),
    }
}

#[test]
fn parses_range_attr_on_param() {
    let ir = "\
define i32 @_RNvCs0_4test8classify(i8 range(0, 3) %x) {
entry:
  ret i32 0
}
";
    let arts = resolve_target(ir, "classify").unwrap();
    assert_eq!(arts.params[0].range, Some((0, 3)));
}
