//! Readable names of mangled symbols.

use saw_spec_gen::mangle::humanize;

#[test]
fn v0_trait_impl_method() {
    let m = "_RNvXCsdp1B4KIx7LM_11add_one_satNtB2_8ReadyU32NtNtNtCs25LAAAjbyGa_4core6future6future6Future4poll";
    assert_eq!(humanize(m).as_deref(), Some("ReadyU32__Future__poll"));
}

#[test]
fn v0_inherent_method() {
    let m = "_RNvMs4_NtCs25LAAAjbyGa_4core3pinINtB5_3PinQNtCsdp1B4KIx7LM_11add_one_sat8ReadyU32E13new_unchecked";
    assert_eq!(humanize(m).as_deref(), Some("Pin__ReadyU32__new_unchecked"));
}

#[test]
fn v0_free_function() {
    let m = "_RNvCsdp1B4KIx7LM_11add_one_sat7add_one";
    assert_eq!(humanize(m).as_deref(), Some("add_one_sat__add_one"));
}

#[test]
fn v0_closure() {
    let m = "_RNCNvCsdp1B4KIx7LM_11add_one_sat7add_one0B3_";
    let h = humanize(m).unwrap();
    assert_ne!(h, "add_one_sat__add_one");
    assert!(h.ends_with("__closure"), "got: {h}");
}

#[test]
fn itanium_drops_hash() {
    let m = "_ZN4core9panicking11panic_const28panic_const_async_fn_resumed17hd1fdb727465a38fdE";
    let h = humanize(m).unwrap();
    assert!(h.contains("panic_const_async_fn_resumed"), "got: {h}");
    assert!(!h.contains("hd1fdb727465a38fd"), "hash leaked: {h}");
}

#[test]
fn unmangled_returns_none() {
    assert_eq!(humanize("operator new"), None);
    assert_eq!(humanize("add_one"), None);
}

#[test]
fn empty_returns_none() {
    assert_eq!(humanize(""), None);
    assert_eq!(humanize("_R"), None);
}
