//! Functions that return a status.

use saw_spec_gen::status_primitives::{
    is_msvc_mutex_helper, is_noreturn_throw, msvc_mutex_noop_return, success_sentinel,
};

#[test]
fn pins_mutex_family() {
    for sym in [
        "_Mtx_lock",
        "_Mtx_unlock",
        "_Mtx_init",
        "_Mtx_destroy",
        "__gthread_mutex_lock",
        "__gthread_mutex_unlock",
        "pthread_mutex_lock",
        "pthread_mutex_unlock",
    ] {
        assert_eq!(success_sentinel(sym), Some(0), "{sym} should pin 0");
    }
}

#[test]
fn trylock_is_excluded() {
    assert_eq!(success_sentinel("_Mtx_trylock"), None);
}

#[test]
fn ordinary_symbol_is_not_pinned() {
    assert_eq!(success_sentinel("compute_checksum"), None);
    assert_eq!(success_sentinel("printf"), None);
}

#[test]
fn msvc_mutex_base_methods_are_helpers() {
    assert!(is_msvc_mutex_helper(
        "?_Verify_ownership_levels@_Mutex_base@std@@IEAA_NXZ"
    ));
    assert!(is_msvc_mutex_helper(
        "?_Stl_critical_section_begin@_Mutex_base@std@@IEAAXXZ"
    ));
}

#[test]
fn unrelated_symbols_are_not_msvc_mutex_helpers() {
    assert!(!is_msvc_mutex_helper("_Mtx_lock"));
    assert!(!is_msvc_mutex_helper("compute_checksum"));
    assert!(!is_msvc_mutex_helper("printf"));
    assert!(!is_msvc_mutex_helper(
        "_ZN15_Mutex_base_sim24_Verify_ownership_levelsEv"
    ));
}

#[test]
fn msvc_mutex_helper_noop_return_pins_true() {
    assert_eq!(
        msvc_mutex_noop_return("?_Verify_ownership_levels@_Mutex_base@std@@IEAA_NXZ"),
        Some(1)
    );
    assert_eq!(msvc_mutex_noop_return("_Mtx_lock"), None);
    assert_eq!(msvc_mutex_noop_return("compute_checksum"), None);
}

#[test]
fn recognizes_noreturn_throw_helpers() {
    for sym in [
        "?_Throw_Cpp_error@std@@YAXH@Z",
        "?_Xlength_error@std@@YAXPEBD@Z",
        "?_Xout_of_range@std@@YAXPEBD@Z",
        "_CxxThrowException",
        "__cxa_throw",
        "__cxa_rethrow",
        "_ZSt20__throw_length_errorPKc",
        "_ZSt24__throw_bad_optional_accessv",
    ] {
        assert!(is_noreturn_throw(sym), "{sym} should be noreturn-throw");
    }
}

#[test]
fn non_throw_symbols_are_not_noreturn() {
    assert!(!is_noreturn_throw("_Mtx_lock"));
    assert!(!is_noreturn_throw("memcmp"));
    assert!(!is_noreturn_throw("compute_checksum"));
}
