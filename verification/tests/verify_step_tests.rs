//! The specification of the verified function.

use saw_spec_gen::buffer_overrides::BufferOverrides;
use saw_spec_gen::constraints::{
    AllocType, FunctionInfo, Mutability, Nullability, ParamConstraint, ParamInfo, ReturnConstraint,
    SpecConstraint, TypeInfo,
};
use saw_spec_gen::cryptol_bridge::{cryptol_arg_for, cryptol_return_for};
use saw_spec_gen::verify_script_close::{emit_postcondition_and_close, PostconditionCtx};
use saw_spec_gen::verify_script_steps::{emit_equiv_spec_body, SretPrestate};

fn close(
    out: &mut String,
    cryptol_fn: &str,
    cryptol_args: &Vec<String>,
    execute_args: &Vec<String>,
    return_type: &TypeInfo,
    is_sret: bool,
) {
    let ctx = PostconditionCtx {
        sub_callee_specs: &[],
        return_type,
        is_sret,
        return_bridge: None,
        auto_out_postconds: &[],
    };
    emit_postcondition_and_close(
        out,
        cryptol_fn,
        cryptol_args,
        execute_args,
        &ctx,
        &BufferOverrides::none(),
    );
}

#[test]
fn cryptol_arg_for_wraps_bool_with_index_zero() {
    let arg = cryptol_arg_for("dateValid", &TypeInfo::Bool);
    assert_eq!(arg, "(dateValid ! 0)");
}

#[test]
fn cryptol_arg_for_passes_through_integers() {
    let arg = cryptol_arg_for("count", &TypeInfo::UnsignedInt(32));
    assert_eq!(arg, "count");
}

#[test]
fn cryptol_arg_for_wraps_pointer_to_bool() {
    let ty = TypeInfo::Pointer(Box::new(TypeInfo::Bool));
    let arg = cryptol_arg_for("flag", &ty);
    assert_eq!(arg, "(flag ! 0)");
}

#[test]
fn cryptol_arg_for_does_not_wrap_pointer_to_int() {
    let ty = TypeInfo::Pointer(Box::new(TypeInfo::SignedInt(32)));
    let arg = cryptol_arg_for("p", &ty);
    assert_eq!(arg, "p");
}

#[test]
fn cryptol_return_for_wraps_bool_return_as_singleton_bitvector() {
    let call = cryptol_return_for("authenticate x y z", &TypeInfo::Bool);
    assert_eq!(call, "[authenticate x y z] : [1]");
}

#[test]
fn cryptol_return_for_passes_through_integer_return() {
    let call = cryptol_return_for("compute x", &TypeInfo::SignedInt(64));
    assert_eq!(call, "compute x");
}

#[test]
fn cryptol_return_for_passes_through_void_return() {
    let call = cryptol_return_for("do_thing", &TypeInfo::Void);
    assert_eq!(call, "do_thing");
}

#[test]
fn emit_postcondition_wraps_bool_return() {
    let mut out = String::new();
    close(&mut out, "authenticate", &vec![
            "(dateValid ! 0)".to_string(),
            "(signatureValid ! 0)".to_string(),
            "(claimsValid ! 0)".to_string(),
        ], &vec![
            "llvm_term dateValid".to_string(),
            "llvm_term signatureValid".to_string(),
            "llvm_term claimsValid".to_string(),
        ], &TypeInfo::Bool, false);

    assert!(
        out.contains(
            "llvm_return (llvm_term {{ [authenticate (dateValid ! 0) (signatureValid ! 0) (claimsValid ! 0)] : [1] }});"
        ),
        "expected bool return to be wrapped as [..] : [1]; got:\n{out}"
    );
}

#[test]
fn emit_postcondition_does_not_wrap_int_return() {
    let mut out = String::new();
    close(&mut out, "compute", &vec!["x".to_string()], &vec!["llvm_term x".to_string()], &TypeInfo::SignedInt(32), false);

    assert!(
        out.contains("llvm_return (llvm_term {{ compute x }});"),
        "expected raw call for non-bool return; got:\n{out}"
    );
    assert!(
        !out.contains(": [1]"),
        "non-bool return should not get [..] : [1] wrapping; got:\n{out}"
    );
}

#[test]
fn emit_postcondition_uses_points_to_for_sret_return() {
    let mut out = String::new();
    close(&mut out, "getStatus", &vec!["x".to_string()], &vec!["result_ptr".to_string(), "llvm_term x".to_string()], &TypeInfo::Struct {
            name: "EnrollmentStatus".into(),
            size_bytes: None,
            fields: vec![],
        }, true);

    assert!(
        out.contains("llvm_points_to result_ptr (llvm_term {{ getStatus x }});"),
        "expected sret postcondition to bind into result_ptr; got:\n{out}"
    );
    assert!(
        !out.contains("llvm_return"),
        "sret must NOT use llvm_return (LLVM function returns void); got:\n{out}"
    );
}

#[test]
fn emit_sret_prestate_threads_prebytes_into_cryptol_call() {
    let target_spec = SpecConstraint {
        function_name: "getStatus".into(),
        mangled_name: Some("?getStatus@@YA?AUEnrollmentStatus@@_N0_NQBUUuid@@@Z".into()),
        params: vec![
            ParamConstraint {
                name: "fE".into(),
                saw_type: "llvm_int 1".into(),
                alloc_type: AllocType::FreshVar,
                preconditions: vec![],
                unchanged_after: false,
                dereferenceable_size: None,
                out_postcond: None,
            },
            ParamConstraint {
                name: "hK".into(),
                saw_type: "llvm_int 1".into(),
                alloc_type: AllocType::FreshVar,
                preconditions: vec![],
                unchanged_after: false,
                dereferenceable_size: None,
                out_postcond: None,
            },
            ParamConstraint {
                name: "kA".into(),
                saw_type: "llvm_int 1".into(),
                alloc_type: AllocType::FreshVar,
                preconditions: vec![],
                unchanged_after: false,
                dereferenceable_size: None,
                out_postcond: None,
            },
            ParamConstraint {
                name: "keyId".into(),
                saw_type: "llvm_array 16 (llvm_int 8)".into(),
                alloc_type: AllocType::AllocReadonly,
                preconditions: vec![],
                unchanged_after: false,
                dereferenceable_size: None,
                out_postcond: None,
            },
        ],
        return_constraint: ReturnConstraint {
            saw_type: "llvm_array 20 (llvm_int 8)".into(),
            value_constraints: vec![],
            is_sret: true,
            returns_pointer: false,
            sret_prestate: false,
        },
        referenced_globals: vec![],
        has_body: true,
        is_virtual: false,
        can_throw: false,
        postconditions: vec![],
    };
    let target_fn = FunctionInfo {
        name: "getStatus".into(),
        mangled_name: Some("?getStatus@@YA?AUEnrollmentStatus@@_N0_NQBUUuid@@@Z".into()),
        return_type: TypeInfo::Struct {
            name: "EnrollmentStatus".into(),
            size_bytes: Some(20),
            fields: vec![],
        },
        params: vec![
            ParamInfo {
                name: "fE".into(),
                ty: TypeInfo::Bool,
                mutability: Mutability::Readonly,
                nullable: Nullability::NonNull,
                annotations: vec![],
            },
            ParamInfo {
                name: "hK".into(),
                ty: TypeInfo::Bool,
                mutability: Mutability::Readonly,
                nullable: Nullability::NonNull,
                annotations: vec![],
            },
            ParamInfo {
                name: "kA".into(),
                ty: TypeInfo::Bool,
                mutability: Mutability::Readonly,
                nullable: Nullability::NonNull,
                annotations: vec![],
            },
            ParamInfo {
                name: "keyId".into(),
                ty: TypeInfo::Pointer(Box::new(TypeInfo::ByteArray(16))),
                mutability: Mutability::Readonly,
                nullable: Nullability::NonNull,
                annotations: vec![],
            },
        ],
        called_functions: vec![],
        has_body: true,
        is_virtual: false,
        is_system: false,
        can_throw: false,
        annotations: vec![],
        referenced_globals: vec![],
    };

    let mut out = String::new();
    let (cryptol_args, execute_args) = emit_equiv_spec_body(
        &mut out,
        1,
        "getStatus",
        "getStatus_cpp",
        &target_spec,
        &target_fn,
        &[],
        &[],
        Some(&SretPrestate {
            take_bytes: 17,
            drop_bytes: 3,
            buf_size: 20,
        }),
        &BufferOverrides::none(),
    );

    assert!(
        out.contains("preBytes <- llvm_fresh_var \"preBytes\" (llvm_array 20 (llvm_int 8))"),
        "expected preBytes at full buffer size; got:\n{out}"
    );
    assert!(
        out.contains("llvm_points_to result_ptr (llvm_term preBytes)"),
        "expected preBytes pre-condition on sret buffer; got:\n{out}"
    );
    let slice_expr = "(take`{17} (drop`{3} preBytes))";
    assert!(
        cryptol_args.contains(&slice_expr.to_string()),
        "expected slice expression in cryptol_args; got: {cryptol_args:?}"
    );
    assert!(
        execute_args.contains(&"result_ptr".to_string()),
        "expected result_ptr in execute_args; got: {execute_args:?}"
    );

    close(&mut out, "getStatus_cpp", &cryptol_args, &execute_args, &TypeInfo::Struct {
            name: "EnrollmentStatus".into(),
            size_bytes: Some(20),
            fields: vec![],
        }, true);

    assert!(
        out.contains(&format!(
            "getStatus_cpp (fE ! 0) (hK ! 0) (kA ! 0) keyId {slice_expr}"
        )),
        "expected slice expression in Cryptol call; got:\n{out}"
    );
}

#[test]
fn emit_sret_no_prestate_omits_prebytes() {
    let target_spec = SpecConstraint {
        function_name: "getStatus".into(),
        mangled_name: Some("?getStatus@@YA?AUEnrollmentStatus@@_N@Z".into()),
        params: vec![ParamConstraint {
            name: "fE".into(),
            saw_type: "llvm_int 1".into(),
            alloc_type: AllocType::FreshVar,
            preconditions: vec![],
            unchanged_after: false,
            dereferenceable_size: None,
            out_postcond: None,
        }],
        return_constraint: ReturnConstraint {
            saw_type: "llvm_array 20 (llvm_int 8)".into(),
            value_constraints: vec![],
            is_sret: true,
            returns_pointer: false,
            sret_prestate: false,
        },
        referenced_globals: vec![],
        has_body: true,
        is_virtual: false,
        can_throw: false,
        postconditions: vec![],
    };
    let target_fn = FunctionInfo {
        name: "getStatus".into(),
        mangled_name: Some("?getStatus@@YA?AUEnrollmentStatus@@_N@Z".into()),
        return_type: TypeInfo::Struct {
            name: "EnrollmentStatus".into(),
            size_bytes: Some(20),
            fields: vec![],
        },
        params: vec![ParamInfo {
            name: "fE".into(),
            ty: TypeInfo::Bool,
            mutability: Mutability::Readonly,
            nullable: Nullability::NonNull,
            annotations: vec![],
        }],
        called_functions: vec![],
        has_body: true,
        is_virtual: false,
        is_system: false,
        can_throw: false,
        annotations: vec![],
        referenced_globals: vec![],
    };

    let mut out = String::new();
    let (cryptol_args, _) = emit_equiv_spec_body(
        &mut out,
        1,
        "getStatus",
        "getStatus_cpp",
        &target_spec,
        &target_fn,
        &[],
        &[],
        None,
        &BufferOverrides::none(),
    );

    assert!(
        !out.contains("preBytes"),
        "should NOT emit preBytes without prestate; got:\n{out}"
    );
    assert!(
        !cryptol_args.contains(&"preBytes".to_string()),
        "preBytes should NOT be in cryptol_args; got: {cryptol_args:?}"
    );
}
