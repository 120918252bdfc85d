//! Overrides of external functions.

use saw_spec_gen::bitcode_overrides::{emit_overrides, BrokenReason, OverrideTarget};
use saw_spec_gen::constraints::{GlobalVarInfo, TypeInfo};

fn target(
    symbol: &str,
    params: &[&str],
    ret: &str,
    variadic: bool,
    reason: BrokenReason,
) -> OverrideTarget {
    target_with_writes(symbol, params, ret, variadic, reason, &[])
}

fn target_with_writes(
    symbol: &str,
    params: &[&str],
    ret: &str,
    variadic: bool,
    reason: BrokenReason,
    globals_written: &[&str],
) -> OverrideTarget {
    OverrideTarget {
        symbol: symbol.to_string(),
        fixed_param_ir_types: params.iter().map(|s| s.to_string()).collect(),
        return_ir_type: ret.to_string(),
        is_variadic: variadic,
        reason,
        globals_written: globals_written.iter().map(|s| s.to_string()).collect(),
    }
}

#[test]
fn variadic_printf_uses_only_fixed_args_in_execute_func() {
    let t = target(
        "printf",
        &["ptr"],
        "i32",
        true,
        BrokenReason::UsesVarargsIntrinsic,
    );
    let out = emit_overrides(&[t], &[], &[], &Default::default());

    assert!(out
        .snippet
        .contains("ov_printf <- llvm_unsafe_assume_spec m \"printf\""));
    assert!(out.snippet.contains("llvm_execute_func [p0];"));
    assert!(out
        .snippet
        .contains("p0 <- llvm_fresh_pointer (llvm_int 8);"));
    assert!(out.snippet.contains("[body uses llvm.va_*; variadic]"));
    assert_eq!(out.override_names, vec!["ov_printf".to_string()]);
}

#[test]
fn declare_only_ucrt_extern_gets_full_signature() {
    let t = target(
        "__stdio_common_vfprintf",
        &["i64", "ptr", "ptr", "ptr", "ptr"],
        "i32",
        false,
        BrokenReason::DeclareOnly,
    );
    let out = emit_overrides(&[t], &[], &[], &Default::default());
    assert!(out
        .snippet
        .contains("p0 <- llvm_fresh_var \"p0\" (llvm_int 64);"));
    assert!(out
        .snippet
        .contains("p1 <- llvm_fresh_pointer (llvm_int 8);"));
    assert!(out
        .snippet
        .contains("llvm_execute_func [llvm_term p0, p1, p2, p3, p4];"));
    assert!(out
        .snippet
        .contains("rv <- llvm_fresh_var \"rv\" (llvm_int 32);"));
    assert!(out.snippet.contains("llvm_return (llvm_term rv);"));
    assert!(out.snippet.contains("[declare-only]"));
}

#[test]
fn void_return_omits_llvm_return() {
    let t = target("free", &["ptr"], "void", false, BrokenReason::DeclareOnly);
    let out = emit_overrides(&[t], &[], &[], &Default::default());
    assert!(out.snippet.contains("llvm_execute_func [p0];"));
    assert!(
        !out.snippet.contains("llvm_return"),
        "void-returning override must not emit llvm_return"
    );
}

#[test]
fn pointer_return_uses_fresh_pointer_not_fresh_var() {
    let t = target(
        "__acrt_iob_func",
        &["i32"],
        "ptr",
        false,
        BrokenReason::DeclareOnly,
    );
    let out = emit_overrides(&[t], &[], &[], &Default::default());
    assert!(out
        .snippet
        .contains("rv <- llvm_fresh_pointer (llvm_int 8);"));
    assert!(out.snippet.contains("llvm_return rv;"));
    assert!(
        !out.snippet.contains("llvm_term rv"),
        "ptr returns wrap the value directly, not via llvm_term"
    );
}

#[test]
fn already_covered_symbols_are_skipped() {
    let t = target("printf", &["ptr"], "i32", true, BrokenReason::DeclareOnly);
    let out = emit_overrides(&[t], &["printf".to_string()], &[], &Default::default());
    assert!(out.is_empty(), "AST-derived spec takes precedence");
    assert!(!out.snippet.contains("ov_printf"));
}

#[test]
fn empty_input_produces_empty_output() {
    let out = emit_overrides(&[], &[], &[], &Default::default());
    assert!(out.is_empty());
    assert!(out.snippet.is_empty());
}

#[test]
fn mangled_symbols_sanitize_safely() {
    let t = target(
        "?bar@@YAHXZ",
        &["i32"],
        "i32",
        false,
        BrokenReason::DeclareOnly,
    );
    let out = emit_overrides(&[t], &[], &[], &Default::default());
    assert!(
        out.snippet.contains("\"?bar@@YAHXZ\""),
        "raw mangled name preserved inside the assume_spec target string"
    );
    let name = &out.override_names[0];
    assert!(name.starts_with("ov_"));
    assert!(!name.contains('?'));
    assert!(!name.contains('@'));
}

#[test]
fn pointer_params_get_adversarial_post_clobber() {
    let t = target(
        "log_and_capture",
        &["ptr", "ptr"],
        "void",
        true,
        BrokenReason::UsesVarargsIntrinsic,
    );
    let out = emit_overrides(&[t], &[], &[], &Default::default());

    assert!(
        out.snippet
            .contains("p0_after <- llvm_fresh_var \"p0_after\" (llvm_int 8);"),
        "missing fresh symbolic byte for p0; snippet was:\n{}",
        out.snippet
    );
    assert!(
        out.snippet
            .contains("llvm_points_to_at_type p0 (llvm_int 8) (llvm_term p0_after);"),
        "missing post-clobber for p0; snippet was:\n{}",
        out.snippet
    );
    assert!(
        out.snippet
            .contains("p1_after <- llvm_fresh_var \"p1_after\" (llvm_int 8);"),
        "missing fresh symbolic byte for p1"
    );
    assert!(
        out.snippet
            .contains("llvm_points_to_at_type p1 (llvm_int 8) (llvm_term p1_after);"),
        "missing post-clobber for p1"
    );

    let exec_idx = out
        .snippet
        .find("llvm_execute_func")
        .expect("execute_func must be present");
    let clobber_idx = out
        .snippet
        .find("llvm_points_to_at_type")
        .expect("clobber must be present");
    assert!(
        clobber_idx > exec_idx,
        "post-condition clobber must appear after llvm_execute_func"
    );
}

#[test]
fn int_only_params_get_no_clobber() {
    let t = target(
        "compute_hash",
        &["i64", "i32"],
        "i64",
        false,
        BrokenReason::DeclareOnly,
    );
    let out = emit_overrides(&[t], &[], &[], &Default::default());
    assert!(
        !out.snippet.contains("llvm_points_to_at_type"),
        "non-ptr override must not emit any pointee clobber; snippet was:\n{}",
        out.snippet
    );
    assert!(
        !out.snippet.contains("_after"),
        "non-ptr override must not allocate `_after` fresh vars"
    );
}

#[test]
fn globals_get_adversarial_post_clobber() {
    let t = target_with_writes(
        "?log_inc@@YAXPEBDZZ",
        &["ptr"],
        "void",
        true,
        BrokenReason::UsesVarargsIntrinsic,
        &["?g_counter@@3IA", "?g_flag@@3_NA"],
    );
    let globals = vec![
        GlobalVarInfo {
            name: "g_counter".to_string(),
            mangled_name: "?g_counter@@3IA".to_string(),
            ty: TypeInfo::UnsignedInt(32),
            init_value: Some("0".to_string()),
            has_static_initializer: false,
        },
        GlobalVarInfo {
            name: "g_flag".to_string(),
            mangled_name: "?g_flag@@3_NA".to_string(),
            ty: TypeInfo::Bool,
            init_value: None,
            has_static_initializer: false,
        },
    ];
    let out = emit_overrides(&[t], &[], &globals, &Default::default());

    assert!(
        out.snippet
            .contains("g_counter_after <- llvm_fresh_var \"g_counter_after\" (llvm_int 32);"),
        "missing fresh var for g_counter; snippet was:\n{}",
        out.snippet
    );
    assert!(
        out.snippet.contains(
            "llvm_points_to (llvm_global \"?g_counter@@3IA\") (llvm_term g_counter_after);"
        ),
        "missing points-to for g_counter; snippet was:\n{}",
        out.snippet
    );
    assert!(
        out.snippet
            .contains("g_flag_after <- llvm_fresh_var \"g_flag_after\" (llvm_int 1);"),
        "missing fresh var for g_flag (Bool width=1); snippet was:\n{}",
        out.snippet
    );
    assert!(
        out.snippet
            .contains("llvm_points_to (llvm_global \"?g_flag@@3_NA\") (llvm_term g_flag_after);"),
        "missing points-to for g_flag; snippet was:\n{}",
        out.snippet
    );

    let exec_idx = out.snippet.find("llvm_execute_func").unwrap();
    let glob_idx = out.snippet.find("g_counter_after").unwrap();
    assert!(
        glob_idx > exec_idx,
        "global clobber must follow llvm_execute_func"
    );
}

#[test]
fn no_globals_means_no_global_clobber_emitted() {
    let t = target(
        "?log_inc@@YAXPEBDZZ",
        &["ptr"],
        "void",
        true,
        BrokenReason::UsesVarargsIntrinsic,
    );
    let out = emit_overrides(&[t], &[], &[], &Default::default());
    assert!(
        !out.snippet.contains("llvm_global"),
        "empty globals slice must emit zero `llvm_global` references; snippet was:\n{}",
        out.snippet
    );
}

#[test]
fn target_writes_no_globals_means_no_global_clobber() {
    let t = target_with_writes(
        "printf",
        &["ptr"],
        "i32",
        true,
        BrokenReason::UsesVarargsIntrinsic,
        &[], // scanner saw printf write nothing
    );
    let globals = vec![GlobalVarInfo {
        name: "super_important".to_string(),
        mangled_name: "?super_important@@3HA".to_string(),
        ty: TypeInfo::SignedInt(32),
        init_value: Some("7".to_string()),
        has_static_initializer: false,
    }];
    let out = emit_overrides(&[t], &[], &globals, &Default::default());
    assert!(
        !out.snippet.contains("super_important"),
        "printf-style override (empty globals_written) must not clobber \
         any module-wide global; snippet was:\n{}",
        out.snippet
    );
    assert!(
        !out.snippet.contains("llvm_global"),
        "no llvm_global reference should appear when the target writes \
         nothing; snippet was:\n{}",
        out.snippet
    );
}

#[test]
fn declare_only_extern_clobbers_globals_in_written_set() {
    let t = target_with_writes(
        "__stdio_common_vfprintf",
        &["i64", "ptr", "ptr", "ptr", "ptr"],
        "i32",
        false,
        BrokenReason::DeclareOnly,
        &["?user_state@@3HA"], // scanner fills this for declare-only
    );
    let globals = vec![GlobalVarInfo {
        name: "user_state".to_string(),
        mangled_name: "?user_state@@3HA".to_string(),
        ty: TypeInfo::SignedInt(32),
        init_value: None,
        has_static_initializer: false,
    }];
    let out = emit_overrides(&[t], &[], &globals, &Default::default());
    assert!(
        out.snippet.contains("user_state"),
        "declare-only extern with globals_written must havoc those globals; \
         snippet was:\n{}",
        out.snippet
    );
}

#[test]
fn bitcode_overrides_tests_mutex_lock_pins_success_sentinel_return() {
    let t = target(
        "_Mtx_lock",
        &["ptr"],
        "i32",
        false,
        BrokenReason::DeclareOnly,
    );
    let out = emit_overrides(&[t], &[], &[], &Default::default());
    assert!(
        out.snippet
            .contains("llvm_return (llvm_term {{ 0 : [32] }});"),
        "mutex lock override must pin the success sentinel; snippet was:\n{}",
        out.snippet
    );
    assert!(
        !out.snippet.contains("rv <- llvm_fresh_var"),
        "success-sentinel return must NOT allocate a fresh symbolic rv; \
         snippet was:\n{}",
        out.snippet
    );
    assert!(out.snippet.contains("_Thrd_success"));
}

#[test]
fn bitcode_overrides_tests_mutex_unlock_and_init_destroy_pin_success_sentinel() {
    for sym in ["_Mtx_unlock", "_Mtx_init", "_Mtx_destroy"] {
        let t = target(sym, &["ptr"], "i32", false, BrokenReason::DeclareOnly);
        let out = emit_overrides(&[t], &[], &[], &Default::default());
        assert!(
            out.snippet
                .contains("llvm_return (llvm_term {{ 0 : [32] }});"),
            "{sym} must pin the success sentinel; snippet was:\n{}",
            out.snippet
        );
        assert!(
            !out.snippet.contains("rv <- llvm_fresh_var"),
            "{sym} must not emit a fresh symbolic return; snippet was:\n{}",
            out.snippet
        );
    }
}

#[test]
fn bitcode_overrides_tests_mutex_trylock_is_not_pinned() {
    let t = target(
        "_Mtx_trylock",
        &["ptr"],
        "i32",
        false,
        BrokenReason::DeclareOnly,
    );
    let out = emit_overrides(&[t], &[], &[], &Default::default());
    assert!(
        out.snippet
            .contains("rv <- llvm_fresh_var \"rv\" (llvm_int 32);"),
        "trylock must keep a fresh symbolic return; snippet was:\n{}",
        out.snippet
    );
    assert!(
        !out.snippet.contains("_Thrd_success"),
        "trylock must not be pinned to the success sentinel"
    );
}

#[test]
fn bitcode_overrides_tests_ordinary_int_return_is_not_pinned() {
    let t = target(
        "compute_checksum",
        &["ptr"],
        "i32",
        false,
        BrokenReason::DeclareOnly,
    );
    let out = emit_overrides(&[t], &[], &[], &Default::default());
    assert!(
        out.snippet
            .contains("rv <- llvm_fresh_var \"rv\" (llvm_int 32);"),
        "non-primitive int return must stay symbolic; snippet was:\n{}",
        out.snippet
    );
    assert!(!out.snippet.contains("_Thrd_success"));
}

#[test]
fn byte_array_return_emits_llvm_array_fresh_var() {
    let t = target("f", &[], "[16 x i8]", false, BrokenReason::DeclareOnly);
    let out = emit_overrides(&[t], &[], &[], &Default::default());
    assert!(out
        .snippet
        .contains("llvm_fresh_var \"rv\" (llvm_array 16 (llvm_int 8))"));
}

#[test]
fn bitcode_overrides_tests_msvc_msvc_mutex_helper_pins_noop_bool_return() {
    let sym = "?_Verify_ownership_levels@_Mutex_base@std@@IEAA_NXZ";
    let t = target(sym, &["ptr"], "i1", false, BrokenReason::MsvcMutexHelper);
    let out = emit_overrides(&[t], &[], &[], &Default::default());
    let snip = &out.snippet;
    assert!(snip.contains("{{ 1 : [1] }}") && snip.contains("[msvc-mutex-helper]"));
}
