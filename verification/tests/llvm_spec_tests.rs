//! Specifications over LLVM.

use saw_spec_gen::constraints::{AllocType, ParamConstraint, ReturnConstraint, SpecConstraint};
use saw_spec_gen::llvm_spec::{emit_saw_specs, generate_saw_spec};
use saw_spec_gen::writer::VOID_SAW_TYPE;

fn make_spec(
    name: &str,
    params: Vec<ParamConstraint>,
    return_type: &str,
    can_throw: bool,
) -> SpecConstraint {
    SpecConstraint {
        function_name: name.into(),
        mangled_name: None,
        params,
        return_constraint: ReturnConstraint {
            saw_type: return_type.into(),
            value_constraints: vec![],
            is_sret: false,
            returns_pointer: false,
            sret_prestate: false,
        },
        can_throw,
        is_virtual: false,
        has_body: true,
        referenced_globals: vec![],
        postconditions: vec![],
    }
}

#[test]
fn llvm_spec_test_generate_llvm_spec_readonly() {
    let spec = make_spec(
        "test_fn",
        vec![ParamConstraint {
            name: "x".into(),
            alloc_type: AllocType::AllocReadonly,
            saw_type: "llvm_int 32".into(),
            preconditions: vec![],
            unchanged_after: true,
            dereferenceable_size: None,
            out_postcond: None,
        }],
        VOID_SAW_TYPE,
        false,
    );
    let output = generate_saw_spec(&spec, &spec.referenced_globals);
    assert!(output.contains("LLVMSetup ()"));
    assert!(output.contains("llvm_alloc_readonly"));
    assert!(output.contains("llvm_fresh_var"));
    assert!(output.contains("llvm_execute_func"));
}

#[test]
fn llvm_spec_test_generate_llvm_spec_mutable() {
    let spec = make_spec(
        "mutate_fn",
        vec![ParamConstraint {
            name: "buf".into(),
            alloc_type: AllocType::AllocMutable,
            saw_type: "llvm_int 64".into(),
            preconditions: vec![],
            unchanged_after: false,
            dereferenceable_size: None,
            out_postcond: None,
        }],
        VOID_SAW_TYPE,
        false,
    );
    let output = generate_saw_spec(&spec, &spec.referenced_globals);
    assert!(output.contains("llvm_alloc (llvm_int 64)"));
    assert!(!output.contains("llvm_alloc_readonly"));
}

#[test]
fn llvm_spec_test_generate_llvm_spec_freshvar() {
    let spec = make_spec(
        "add",
        vec![
            ParamConstraint {
                name: "a".into(),
                alloc_type: AllocType::FreshVar,
                saw_type: "llvm_int 32".into(),
                preconditions: vec![],
                unchanged_after: false,
                dereferenceable_size: None,
                out_postcond: None,
            },
            ParamConstraint {
                name: "b".into(),
                alloc_type: AllocType::FreshVar,
                saw_type: "llvm_int 32".into(),
                preconditions: vec![],
                unchanged_after: false,
                dereferenceable_size: None,
                out_postcond: None,
            },
        ],
        "llvm_int 32",
        false,
    );
    let output = generate_saw_spec(&spec, &spec.referenced_globals);
    assert!(output.contains("a <- llvm_fresh_var \"a\" (llvm_int 32)"));
    assert!(output.contains("llvm_term a, llvm_term b"));
}

#[test]
fn llvm_spec_test_generate_llvm_spec_return() {
    let spec = make_spec("get_val", vec![], "llvm_int 32", false);
    let output = generate_saw_spec(&spec, &spec.referenced_globals);
    assert!(output.contains("ret <- llvm_fresh_var \"ret\" (llvm_int 32)"));
    assert!(output.contains("llvm_return (llvm_term ret)"));
    assert!(output.contains("ACTION REQUIRED"));
    assert!(output.contains("llvm_verify"));
    assert!(!output.contains("llvm_unsafe_assume_spec"));
}

#[test]
fn llvm_spec_test_generate_llvm_spec_void_return() {
    let spec = make_spec("noop", vec![], VOID_SAW_TYPE, false);
    let output = generate_saw_spec(&spec, &spec.referenced_globals);
    assert!(!output.contains("llvm_return"));
}

#[test]
fn llvm_spec_test_generate_llvm_spec_can_throw() {
    let spec = make_spec("risky", vec![], VOID_SAW_TYPE, true);
    let output = generate_saw_spec(&spec, &spec.referenced_globals);
    assert!(output.contains("WARNING: Function may throw"));
}

#[test]
fn llvm_spec_test_emit_saw_specs_creates_files() {
    let specs = vec![make_spec("test_fn", vec![], VOID_SAW_TYPE, false)];
    let files = emit_saw_specs(&specs, false);
    assert!(files.iter().any(|f| f.name == "test_fn_auto_spec.saw"));
    let index = files.iter().find(|f| f.name == "auto_specs.saw").unwrap();
    assert!(index.content.contains("include \"test_fn_auto_spec.saw\""));
}

#[test]
fn llvm_spec_test_generate_postconditions() {
    let spec = SpecConstraint {
        function_name: "read_fn".into(),
        mangled_name: None,
        params: vec![ParamConstraint {
            name: "data".into(),
            alloc_type: AllocType::AllocReadonly,
            saw_type: "llvm_int 32".into(),
            preconditions: vec![],
            unchanged_after: true,
            dereferenceable_size: None,
            out_postcond: None,
        }],
        return_constraint: ReturnConstraint {
            saw_type: VOID_SAW_TYPE.into(),
            value_constraints: vec![],
            is_sret: false,
            returns_pointer: false,
            sret_prestate: false,
        },
        can_throw: false,
        is_virtual: false,
        has_body: true,
        referenced_globals: vec![],
        postconditions: vec!["llvm_points_to data_ptr (llvm_term data_before)".into()],
    };
    let output = generate_saw_spec(&spec, &spec.referenced_globals);
    assert!(output.contains("Postconditions"));
    assert!(output.contains("data_before"));
}
