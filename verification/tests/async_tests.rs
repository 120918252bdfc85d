//! Asynchronous functions.

use saw_spec_gen::gen_verify_rust::RustVerifyParam;
use saw_spec_gen::gen_verify_rust_async::{
    bits_to_mir_type, emit_async_mir_saw_script, resolve_resume_symbol, sanitize_ident,
    AsyncResumeInfo,
};

fn make_params(bits: &[u32]) -> Vec<RustVerifyParam> {
    bits.iter()
        .enumerate()
        .map(|(i, &b)| RustVerifyParam {
            index: i,
            name: format!("x{i}"),
            bits: b,
            llvm_type: format!("i{b}"),
            range: None,
        })
        .collect()
}

#[test]
fn finds_resume_symbol_for_async_fn() {
    let ir = "\
define i64 @_RNvCs1234_6decide6decide(i32 %req) unnamed_addr {
entry:
  ret i64 0
}
define void @_RNCNvCs1234_6decide6decide0Bc_(ptr %self, ptr %cx) unnamed_addr {
entry:
  ret void
}
";
    let params = make_params(&[32]);
    let info = resolve_resume_symbol(ir, "decide", params, 32).unwrap();
    assert_eq!(info.resume_symbol, "_RNCNvCs1234_6decide6decide0Bc_");
}

#[test]
fn skips_constructor_shim() {
    let ir = "\
define i32 @_RNvCs0_4test7add_one(i32 %x) {
entry:
  ret i32 0
}
define void @_RNCNvCs0_4test7add_one0B3_(ptr %s, ptr %c) {
entry:
  ret void
}
";
    let info = resolve_resume_symbol(ir, "add_one", make_params(&[32]), 32).unwrap();
    assert!(
        info.resume_symbol.starts_with("_RNC"),
        "expected _RNC prefix, got: {}",
        info.resume_symbol
    );
}

#[test]
fn error_when_no_resume_symbol() {
    let ir = "\
define i32 @_RNvCs0_4test7add_one(i32 %x) {
entry:
  ret i32 0
}
";
    let err = resolve_resume_symbol(ir, "add_one", make_params(&[32]), 32);
    assert!(err.is_err(), "expected error for missing resume symbol");
    let msg = err.unwrap_err().message("add_one");
    assert!(msg.contains("No coroutine resume symbol"), "got: {msg}");
}

#[test]
fn picks_least_nested_resume() {
    let ir = "\
define void @_RNCNvCs0_4test6decide0B3_(ptr %s, ptr %c) {
entry:
  ret void
}
define void @_RNCNCNvCs0_4test6decide0B5_(ptr %s, ptr %c) {
entry:
  ret void
}
";
    let info = resolve_resume_symbol(ir, "decide", make_params(&[32]), 32).unwrap();
    assert_eq!(info.resume_symbol, "_RNCNvCs0_4test6decide0B3_");
}

#[test]
fn detects_sub_await_stubs() {
    let ir = "\
define void @_RNCNvCs0_4test3foo0B3_(ptr %s, ptr %c) {
entry:
  call void @_RNCNvCs0_4test3bar0B3_(ptr %s, ptr %c)
  ret void
}
define void @_RNCNvCs0_4test3bar0B3_(ptr %s, ptr %c) {
entry:
  ret void
}
";
    let info = resolve_resume_symbol(ir, "foo", make_params(&[]), 0).unwrap();
    assert_eq!(info.sub_await_stubs, vec!["_RNCNvCs0_4test3bar0B3_"]);
}

fn simple_info(_fn_name: &str, resume: &str) -> AsyncResumeInfo {
    AsyncResumeInfo {
        resume_symbol: resume.to_string(),
        sub_await_stubs: vec![],
        original_params: make_params(&[32]),
        return_bits: 32,
    }
}

#[test]
fn emits_mir_load_module() {
    let info = simple_info("decide", "_RNCNvCs0_6decide6decide0Bc_");
    let saw = emit_async_mir_saw_script(
        "decide",
        "decide_spec",
        "decide.linked-mir.json",
        "decide.cry",
        &info,
    );
    assert!(saw.contains("mir_load_module \"decide.linked-mir.json\""));
}

#[test]
fn emits_mir_verify_with_resume_symbol() {
    let info = simple_info("decide", "_RNCNvCs0_6decide6decide0Bc_");
    let saw = emit_async_mir_saw_script(
        "decide",
        "decide_spec",
        "decide.linked-mir.json",
        "decide.cry",
        &info,
    );
    assert!(
        saw.contains("mir_verify m \"_RNCNvCs0_6decide6decide0Bc_\""),
        "missing mir_verify with resume symbol:\n{saw}"
    );
}

#[test]
fn emits_begin_proof_before_mir_verify() {
    let info = simple_info("decide", "_RNCNvCs0_6decide6decide0Bc_");
    let saw = emit_async_mir_saw_script("decide", "decide_spec", "m.json", "s.cry", &info);
    let begin_idx = saw.find("BEGIN_PROOF decide").unwrap();
    let verify_idx = saw.find("mir_verify").unwrap();
    assert!(
        begin_idx < verify_idx,
        "BEGIN_PROOF must come before mir_verify"
    );
}

#[test]
fn emits_proved_and_verified() {
    let info = simple_info("decide", "_RNCNvCs0_6decide6decide0Bc_");
    let saw = emit_async_mir_saw_script("decide", "decide_spec", "m.json", "s.cry", &info);
    assert!(saw.contains("PROVED decide"));
    assert!(saw.contains("VERIFIED"));
}

#[test]
fn emits_fresh_var_for_each_arg() {
    let mut info = simple_info("decide", "_RNCNvCs0_6decide6decide0Bc_");
    info.original_params = make_params(&[32, 8]);
    let saw = emit_async_mir_saw_script("decide", "spec", "m.json", "s.cry", &info);
    assert!(saw.contains("mir_fresh_var \"x0\" (mir_u32)"));
    assert!(saw.contains("mir_fresh_var \"x1\" (mir_u8)"));
}

#[test]
fn emits_coroutine_alloc_comment() {
    let info = simple_info("decide", "_RNCNvCs0_6decide6decide0Bc_");
    let saw = emit_async_mir_saw_script("decide", "spec", "m.json", "s.cry", &info);
    assert!(
        saw.contains("coroutine#0"),
        "missing coroutine#0 ADT placeholder:\n{saw}"
    );
}

#[test]
fn emits_ready_wrapper_in_return() {
    let info = simple_info("decide", "_RNCNvCs0_6decide6decide0Bc_");
    let saw = emit_async_mir_saw_script("decide", "decide_spec", "m.json", "s.cry", &info);
    assert!(
        saw.contains("Ready (decide_spec x0)"),
        "missing Poll::Ready wrapper:\n{saw}"
    );
}

#[test]
fn emits_sub_await_stubs_when_present() {
    let info = AsyncResumeInfo {
        resume_symbol: "_RNCNvCs0_4test3foo0B3_".to_string(),
        sub_await_stubs: vec!["_RNCNvCs0_4test3bar0B3_".to_string()],
        original_params: make_params(&[32]),
        return_bits: 32,
    };
    let saw = emit_async_mir_saw_script("foo", "foo_spec", "m.json", "s.cry", &info);
    assert!(
        saw.contains("mir_unsafe_assume_spec"),
        "missing stub:\n{saw}"
    );
    assert!(
        saw.contains("RNCNvCs0_4test3bar0B3_"),
        "missing stub symbol:\n{saw}"
    );
}

#[test]
fn sanitize_ident_replaces_non_alnum() {
    assert_eq!(sanitize_ident("_RNCNvCs0_foo"), "RNCNvCs0_foo");
    assert_eq!(sanitize_ident("foo::bar"), "foo__bar");
}

#[test]
fn bits_to_mir_type_maps_known_widths() {
    assert_eq!(bits_to_mir_type(1), "mir_bool");
    assert_eq!(bits_to_mir_type(8), "mir_u8");
    assert_eq!(bits_to_mir_type(32), "mir_u32");
    assert_eq!(bits_to_mir_type(64), "mir_u64");
}
