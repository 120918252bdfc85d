//! Specifications over MIR.

use saw_spec_gen::constraints::{AllocType, ParamConstraint, ReturnConstraint, SpecConstraint};
use saw_spec_gen::llvm_spec::emit_mir_saw_specs;
use saw_spec_gen::mir_spec::generate_mir_spec;

fn make_spec(
    name: &str,
    params: Vec<ParamConstraint>,
    return_type: &str,
    can_throw: bool,
) -> SpecConstraint {
    SpecConstraint {
        function_name: name.into(),
        mangled_name: None,
        params,
        return_constraint: ReturnConstraint {
            saw_type: return_type.into(),
            value_constraints: vec![],
            is_sret: false,
            returns_pointer: false,
            sret_prestate: false,
        },
        can_throw,
        is_virtual: false,
        has_body: true,
        referenced_globals: vec![],
        postconditions: vec![],
    }
}

#[test]
fn test_generate_mir_spec_basic() {
    let spec = make_spec(
        "rust_fn",
        vec![ParamConstraint {
            name: "x".into(),
            alloc_type: AllocType::FreshVar,
            saw_type: "llvm_int 32".into(),
            preconditions: vec![],
            unchanged_after: false,
            dereferenceable_size: None,
            out_postcond: None,
        }],
        "llvm_int 32",
        false,
    );
    let output = generate_mir_spec(&spec);
    assert!(output.contains("MIRSetup ()"));
    assert!(output.contains("mir_fresh_var"));
    assert!(output.contains("mir_execute_func"));
    assert!(output.contains("mir_return"));
}

#[test]
fn test_generate_mir_spec_alloc() {
    let spec = make_spec(
        "rust_ref_fn",
        vec![ParamConstraint {
            name: "data".into(),
            alloc_type: AllocType::AllocReadonly,
            saw_type: "llvm_int 64".into(),
            preconditions: vec![],
            unchanged_after: true,
            dereferenceable_size: None,
            out_postcond: None,
        }],
        "// void",
        false,
    );
    let output = generate_mir_spec(&spec);
    assert!(output.contains("mir_alloc_readonly"));
    assert!(output.contains("mir_points_to"));
}

#[test]
fn test_emit_mir_saw_specs() {
    let specs = vec![make_spec("rust_fn", vec![], "llvm_int 32", false)];
    let files = emit_mir_saw_specs(&specs);
    let spec = files.iter().find(|f| f.name == "rust_fn_auto_spec.saw").unwrap();
    assert!(spec.content.contains("MIRSetup"));
    let index = files.iter().find(|f| f.name == "auto_specs.saw").unwrap();
    assert!(index.content.contains("Mode: MIR"));
}
