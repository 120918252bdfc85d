//! What a function reaches.

use saw_spec_gen::constraints::{CalledFunction, FunctionInfo, InterfaceMethod, TypeInfo};
use saw_spec_gen::gen_verify_callgraph::any_interface_reachable;

fn func(name: &str, mangled: &str, calls: &[(&str, &str)]) -> FunctionInfo {
    FunctionInfo {
        name: name.into(),
        mangled_name: Some(mangled.into()),
        params: vec![],
        return_type: TypeInfo::Void,
        can_throw: false,
        is_virtual: false,
        has_body: true,
        is_system: false,
        annotations: vec![],
        referenced_globals: vec![],
        called_functions: calls
            .iter()
            .map(|(n, m)| CalledFunction {
                name: (*n).into(),
                mangled_name: (*m).into(),
                has_body: false,
            })
            .collect(),
    }
}

fn vmethod(class: &str, name: &str, mangled: &str) -> InterfaceMethod {
    InterfaceMethod {
        class_name: class.into(),
        method: func(name, mangled, &[]),
        is_pure: false,
        is_override: false,
        source_offset: 0,
    }
}

#[test]
fn reachable_when_target_dispatches_to_vmethod() {
    let target = func("activate", "?activate@@", &[("log", "?log@ILog@@")]);
    let all = [func("activate", "?activate@@", &[("log", "?log@ILog@@")])];
    let vmethods = vec![vmethod("ILog", "log", "?log@ILog@@")];
    assert!(any_interface_reachable(&target, &all, &vmethods));
}

#[test]
fn reachable_transitively_through_in_module_callee() {
    let target = func("activate", "?activate@@", &[("helper", "?helper@@")]);
    let helper = func("helper", "?helper@@", &[("log", "?log@ILog@@")]);
    let all = [func("activate", "?activate@@", &[("helper", "?helper@@")]), helper];
    let vmethods = vec![vmethod("ILog", "log", "?log@ILog@@")];
    assert!(any_interface_reachable(&target, &all, &vmethods));
}

#[test]
fn not_reachable_when_target_ignores_polymorphic_types() {
    let target = func("activate", "?activate@@", &[("strlen", "strlen")]);
    let all = [func("activate", "?activate@@", &[("strlen", "strlen")])];
    let vmethods = vec![vmethod("ILog", "log", "?log@ILog@@")];
    assert!(!any_interface_reachable(&target, &all, &vmethods));
}

#[test]
fn empty_vmethods_is_not_reachable() {
    let target = func("activate", "?activate@@", &[]);
    let all = [func("activate", "?activate@@", &[])];
    assert!(!any_interface_reachable(&target, &all, &[]));
}
