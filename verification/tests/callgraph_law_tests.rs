//! The walk over calls, and what it leaves to overrides.

use saw_spec_gen::constraints::{
    CalledFunction, FunctionInfo, InterfaceMethod, ReturnConstraint, SpecConstraint, TypeInfo,
};
use saw_spec_gen::gen_verify::{
    already_covered, emit_external_specs, find_target, TargetError,
};
use saw_spec_gen::gen_verify_callgraph::{
    any_interface_reachable, collect_external_call_specs, crucible_safe, select_reachable_vmethods,
    should_recurse, RecursionPolicy,
};

fn func(name: &str, mangled: Option<&str>, calls: &[&str]) -> FunctionInfo {
    FunctionInfo {
        name: name.into(),
        mangled_name: mangled.map(String::from),
        params: vec![],
        return_type: TypeInfo::Void,
        can_throw: false,
        is_virtual: false,
        has_body: true,
        is_system: false,
        annotations: vec![],
        referenced_globals: vec![],
        called_functions: calls
            .iter()
            .map(|c| CalledFunction {
                name: c.to_string(),
                mangled_name: format!("_{c}"),
                has_body: false,
            })
            .collect(),
    }
}

fn spec(name: &str, mangled: Option<&str>) -> SpecConstraint {
    SpecConstraint {
        function_name: name.into(),
        mangled_name: mangled.map(String::from),
        params: vec![],
        return_constraint: ReturnConstraint {
            saw_type: "// void".into(),
            value_constraints: vec![],
            is_sret: false,
            returns_pointer: false,
            sret_prestate: false,
        },
        can_throw: false,
        is_virtual: false,
        has_body: false,
        referenced_globals: vec![],
        postconditions: vec![],
    }
}

fn method(mangled: &str) -> InterfaceMethod {
    InterfaceMethod {
        class_name: "I".into(),
        method: func("m", Some(mangled), &[]),
        is_pure: true,
        is_override: false,
        source_offset: 0,
    }
}

fn policy<'a>(safe: &'a [String]) -> RecursionPolicy<'a> {
    RecursionPolicy {
        safe_symbols: safe,
        no_system: false,
        stl_disabled: false,
    }
}

#[test]
fn the_walk_ends_on_cycles_and_reaches_all() {
    let all = [
        func("a", Some("_a"), &["b"]),
        func("b", Some("_b"), &["a", "c"]),
        func("c", None, &["ext"]),
    ];
    let target = func("a", Some("_a"), &["b"]);
    assert!(any_interface_reachable(&target, &all, &[method("_ext")]));
    assert!(any_interface_reachable(&target, &all, &[method("_x"), method("_c")]));
    assert!(!any_interface_reachable(&target, &all, &[method("_x")]));
}

#[test]
fn methods_are_kept_all_or_none() {
    let target = func("a", Some("_a"), &["m"]);
    let kept = select_reachable_vmethods(&target, &[], vec![method("_m"), method("_n")]);
    assert_eq!(kept.len(), 2);
    let none = select_reachable_vmethods(&target, &[], vec![method("_n")]);
    assert!(none.is_empty());
}

#[test]
fn only_called_functions_without_executed_bodies_need_overrides() {
    let mut system = func("sys", Some("_sys"), &["deep"]);
    system.is_system = true;
    let mut bodiless = func("ext", Some("_ext"), &[]);
    bodiless.has_body = false;
    let all = [
        func("a", Some("_a"), &["own", "ext", "sys"]),
        func("own", Some("_own"), &["far"]),
        system,
        bodiless,
    ];
    let target = func("a", Some("_a"), &["own", "ext", "sys"]);
    let mut builtin = spec("__builtin_trap", Some("_far"));
    builtin.has_body = false;
    let mut virtual_far = spec("far", Some("_far"));
    virtual_far.is_virtual = true;
    let specs = [
        spec("ext", Some("_ext")),
        spec("sys", Some("_sys")),
        spec("own", Some("_own")),
        spec("far", Some("_far")),
        spec("deep", Some("_deep")),
        spec("far", None),
        builtin,
        virtual_far,
    ];
    let names = |r: Vec<&SpecConstraint>| -> Vec<String> {
        r.iter().map(|s| s.function_name.clone()).collect()
    };
    let none: [String; 0] = [];
    let r = collect_external_call_specs(&target, &all, &specs, &policy(&none));
    assert_eq!(names(r), vec!["ext", "sys", "far"]);
    let safe = ["_sys".to_string()];
    let r = collect_external_call_specs(&target, &all, &specs, &policy(&safe));
    assert_eq!(names(r), vec!["ext", "far", "deep"]);
}

#[test]
fn system_bodies_are_entered_where_they_are_safe() {
    let mut f = func("sys", Some("_sys"), &[]);
    f.is_system = true;
    let safe = ["_sys".to_string()];
    let mut p = policy(&safe);
    assert!(should_recurse(&f, &p));
    assert!(crucible_safe(&f, &p));
    p.no_system = true;
    assert!(!should_recurse(&f, &p));
    f.has_body = false;
    p.no_system = false;
    assert!(!should_recurse(&f, &p));
    let stl = func("v", Some("_ZNSt6vectorIjSaIjEE9push_backEOj"), &[]);
    assert!(!should_recurse(&stl, &p));
    p.stl_disabled = true;
    assert!(should_recurse(&stl, &p));
}

#[test]
fn plain_functions_win_over_virtual_ones() {
    let mut v = func("f", Some("_v"), &[]);
    v.is_virtual = true;
    let functions = [v, func("g", None, &[]), func("f", Some("_f"), &[])];
    let mut vs = spec("f", Some("_v"));
    vs.is_virtual = true;
    let specs = [vs, spec("f", Some("_f"))];
    assert_eq!(find_target(&functions, &specs, "f"), Ok((2, 1)));
}

#[test]
fn targets_that_are_missing_are_refused() {
    let functions = [func("f", Some("_f"), &[])];
    let e = find_target(&functions, &[], "g").unwrap_err();
    assert_eq!(e, TargetError::NoFunction);
    assert_eq!(e.message("g"), "Function 'g' not found in AST");
    assert!(e.reason().contains("Cryptol-only helper used by other models"));
    let e = find_target(&functions, &[], "f").unwrap_err();
    assert_eq!(e, TargetError::NoSpec);
    assert!(e.reason().starts_with("Function found in AST"));
    let e = find_target(&functions, &[spec("f", None)], "f").unwrap_err();
    assert_eq!(e, TargetError::NoSymbol);
    assert_eq!(e.message("f"), "No mangled name for 'f'");
}

#[test]
fn external_functions_get_their_files() {
    let mut maker = func("make", Some("_make"), &[]);
    maker.return_type = TypeInfo::Pointer(Box::new(TypeInfo::Opaque {
        name: "IShape".into(),
        size_bytes: 0,
    }));
    let specs = [
        spec("operator new", None),
        spec("make", Some("_make")),
        spec("other", None),
    ];
    let files = emit_external_specs(&specs, &[maker], &["IShape".to_string()], &[]);
    assert_eq!(files[0].name, "operator_new_auto_spec.saw");
    assert!(files[0].content.contains("\"??2@YAPEAX_K@Z\""));
    assert_eq!(files[1].name, "_make_auto_spec.saw");
    assert!(files[1].content.contains("ishape"));
    assert_eq!(files[2].name, "other_auto_spec.saw");
    assert_eq!(
        already_covered(&specs),
        vec!["operator new", "_make", "other"]
    );
}
