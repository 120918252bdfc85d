//! Helpers of mutexes.

use saw_spec_gen::mutex_helpers::is_msvc_mutex_helper;

#[test]
fn verify_ownership_levels_matches() {
    assert!(
        is_msvc_mutex_helper("?_Verify_ownership_levels@_Mutex_base@std@@IEAA_NXZ"),
        "primary failure symbol must match"
    );
}

#[test]
fn other_mutex_base_members_match() {
    assert!(is_msvc_mutex_helper(
        "?_Verify_ownership_level@_Mutex_base@std@@IEAA_NXZ"
    ));
    assert!(is_msvc_mutex_helper("?lock@_Mutex_base@std@@QEAAXXZ"));
}

#[test]
fn unrelated_mutex_symbols_do_not_match() {
    assert!(!is_msvc_mutex_helper("_Mtx_lock"));
    assert!(!is_msvc_mutex_helper("_Mtx_unlock"));
    assert!(!is_msvc_mutex_helper("acquire_mutex_handle"));
    assert!(!is_msvc_mutex_helper("std_mutex_lock"));
}

#[test]
fn empty_and_short_symbols_do_not_panic() {
    assert!(!is_msvc_mutex_helper(""));
    assert!(!is_msvc_mutex_helper("x"));
}
