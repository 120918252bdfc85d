//! Overrides of mutex primitives.

use saw_spec_gen::bitcode_overrides::{emit_overrides, BrokenReason, OverrideTarget};

fn target(
    symbol: &str,
    params: &[&str],
    ret: &str,
    variadic: bool,
    reason: BrokenReason,
) -> OverrideTarget {
    OverrideTarget {
        symbol: symbol.to_string(),
        fixed_param_ir_types: params.iter().map(|s| s.to_string()).collect(),
        return_ir_type: ret.to_string(),
        is_variadic: variadic,
        reason,
        globals_written: Vec::new(),
    }
}

#[test]
fn bitcode_overrides_mutex_tests_mutex_lock_pins_success_sentinel_return() {
    let t = target(
        "_Mtx_lock",
        &["ptr"],
        "i32",
        false,
        BrokenReason::DeclareOnly,
    );
    let out = emit_overrides(&[t], &[], &[], &Default::default());
    assert!(
        out.snippet
            .contains("llvm_return (llvm_term {{ 0 : [32] }});"),
        "mutex lock override must pin the success sentinel; snippet was:\n{}",
        out.snippet
    );
    assert!(
        !out.snippet.contains("rv <- llvm_fresh_var"),
        "success-sentinel return must NOT allocate a fresh symbolic rv; \
         snippet was:\n{}",
        out.snippet
    );
    assert!(out.snippet.contains("_Thrd_success"));
}

#[test]
fn bitcode_overrides_mutex_tests_mutex_unlock_and_init_destroy_pin_success_sentinel() {
    for sym in ["_Mtx_unlock", "_Mtx_init", "_Mtx_destroy"] {
        let t = target(sym, &["ptr"], "i32", false, BrokenReason::DeclareOnly);
        let out = emit_overrides(&[t], &[], &[], &Default::default());
        assert!(
            out.snippet
                .contains("llvm_return (llvm_term {{ 0 : [32] }});"),
            "{sym} must pin the success sentinel; snippet was:\n{}",
            out.snippet
        );
        assert!(
            !out.snippet.contains("rv <- llvm_fresh_var"),
            "{sym} must not emit a fresh symbolic return; snippet was:\n{}",
            out.snippet
        );
    }
}

#[test]
fn bitcode_overrides_mutex_tests_mutex_trylock_is_not_pinned() {
    let t = target(
        "_Mtx_trylock",
        &["ptr"],
        "i32",
        false,
        BrokenReason::DeclareOnly,
    );
    let out = emit_overrides(&[t], &[], &[], &Default::default());
    assert!(
        out.snippet
            .contains("rv <- llvm_fresh_var \"rv\" (llvm_int 32);"),
        "trylock must keep a fresh symbolic return; snippet was:\n{}",
        out.snippet
    );
    assert!(
        !out.snippet.contains("_Thrd_success"),
        "trylock must not be pinned to the success sentinel"
    );
}

#[test]
fn posix_pthread_mutex_pins_success_sentinel() {
    for sym in [
        "pthread_mutex_lock",
        "pthread_mutex_unlock",
        "pthread_mutex_init",
        "pthread_mutex_destroy",
        "__gthrw_pthread_mutex_lock",
        "__gthrw_pthread_mutex_unlock",
    ] {
        let t = target(sym, &["ptr"], "i32", false, BrokenReason::DeclareOnly);
        let out = emit_overrides(&[t], &[], &[], &Default::default());
        assert!(
            out.snippet
                .contains("llvm_return (llvm_term {{ 0 : [32] }});"),
            "{sym} must pin the success sentinel; snippet was:\n{}",
            out.snippet
        );
        assert!(
            !out.snippet.contains("rv <- llvm_fresh_var"),
            "{sym} must not emit a fresh symbolic return; snippet was:\n{}",
            out.snippet
        );
    }
}

#[test]
fn posix_pthread_mutex_trylock_is_not_pinned() {
    let t = target(
        "pthread_mutex_trylock",
        &["ptr"],
        "i32",
        false,
        BrokenReason::DeclareOnly,
    );
    let out = emit_overrides(&[t], &[], &[], &Default::default());
    assert!(
        out.snippet
            .contains("rv <- llvm_fresh_var \"rv\" (llvm_int 32);"),
        "pthread_mutex_trylock must keep a fresh symbolic return; snippet was:\n{}",
        out.snippet
    );
}

#[test]
fn bitcode_overrides_mutex_tests_ordinary_int_return_is_not_pinned() {
    let t = target(
        "compute_checksum",
        &["ptr"],
        "i32",
        false,
        BrokenReason::DeclareOnly,
    );
    let out = emit_overrides(&[t], &[], &[], &Default::default());
    assert!(
        out.snippet
            .contains("rv <- llvm_fresh_var \"rv\" (llvm_int 32);"),
        "non-primitive int return must stay symbolic; snippet was:\n{}",
        out.snippet
    );
    assert!(!out.snippet.contains("_Thrd_success"));
}

#[test]
fn bitcode_overrides_mutex_tests_msvc_mutex_helper_pins_noop_bool_return() {
    let sym = "?_Verify_ownership_levels@_Mutex_base@std@@IEAA_NXZ";
    let t = target(sym, &["ptr"], "i1", false, BrokenReason::MsvcMutexHelper);
    let out = emit_overrides(&[t], &[], &[], &Default::default());
    let snip = &out.snippet;
    assert!(snip.contains("{{ 1 : [1] }}") && snip.contains("[msvc-mutex-helper]"));
}
