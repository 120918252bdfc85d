//! Predicates over discriminants.

use saw_spec_gen::constraints::{EnumVariant, FunctionInfo, Mutability, Nullability, ParamInfo, TypeInfo};
use saw_spec_gen::cryptol_emit::{
    emit_cryptol_constraints, generate_cryptol_predicates, generate_type_predicate, type_short_name,
};

#[test]
fn test_enum_predicate() {
    let mut emitted = Vec::new();
    let ty = TypeInfo::Enum {
        name: "LatchState".into(),
        variants: vec![
            EnumVariant::new("Unlatched", 0),
            EnumVariant::new("Latched", 1),
        ],
        discriminant_bits: 64,
    };
    let pred = generate_type_predicate(&ty, &mut emitted).unwrap();
    assert!(pred.contains("valid_LatchState_disc"));
    assert!(pred.contains("[64] -> Bit"));
    assert!(
        pred.contains("<= (1 : [64])"),
        "expected range bound on max discriminant, got: {pred}"
    );
}

#[test]
fn test_enum_predicate_gapped() {
    let mut emitted = Vec::new();
    let ty = TypeInfo::Enum {
        name: "Status".into(),
        variants: vec![
            EnumVariant::new("Ok", 0),
            EnumVariant::new("NotFound", 2),
            EnumVariant::new("Denied", 100),
        ],
        discriminant_bits: 8,
    };
    let pred = generate_type_predicate(&ty, &mut emitted).unwrap();
    assert!(pred.contains("valid_Status_disc"));
    assert!(
        pred.contains("(x == (0 : [8])) \\/ (x == (2 : [8])) \\/ (x == (100 : [8]))"),
        "expected membership disjunction, got: {pred}"
    );
}

#[test]
fn test_option_predicate() {
    let mut emitted = Vec::new();
    let ty = TypeInfo::Option(Box::new(TypeInfo::UnsignedInt(32)));
    let pred = generate_type_predicate(&ty, &mut emitted).unwrap();
    assert!(pred.contains("valid_option_u32_disc"));
    assert!(pred.contains("[8] -> Bit"));
    assert!(pred.contains("<= 1"));
}

#[test]
fn test_result_predicate() {
    let mut emitted = Vec::new();
    let ty = TypeInfo::Result(
        Box::new(TypeInfo::UnsignedInt(32)),
        Box::new(TypeInfo::SignedInt(32)),
    );
    let pred = generate_type_predicate(&ty, &mut emitted).unwrap();
    assert!(pred.contains("valid_result_u32_i32_disc"));
}

#[test]
fn test_bool_predicate() {
    let mut emitted = Vec::new();
    let pred = generate_type_predicate(&TypeInfo::Bool, &mut emitted).unwrap();
    assert!(pred.contains("valid_bool"));
}

#[test]
fn test_no_duplicate_predicates() {
    let mut emitted = Vec::new();
    let ty = TypeInfo::Bool;
    assert!(generate_type_predicate(&ty, &mut emitted).is_some());
    assert!(generate_type_predicate(&ty, &mut emitted).is_none());
}

#[test]
fn test_generate_cryptol_predicates() {
    let funcs = vec![FunctionInfo {
        name: "check".into(),
        mangled_name: None,
        params: vec![ParamInfo {
            name: "state".into(),
            ty: TypeInfo::Enum {
                name: "Status".into(),
                variants: vec![EnumVariant::new("Ok", 0), EnumVariant::new("Err", 1)],
                discriminant_bits: 32,
            },
            mutability: Mutability::Readonly,
            nullable: Nullability::NonNull,
            annotations: vec![],
        }],
        return_type: TypeInfo::Bool,
        can_throw: false,
        is_virtual: false,
        has_body: true,
        is_system: false,
        called_functions: vec![],
        referenced_globals: vec![],
        annotations: vec![],
    }];
    let output = generate_cryptol_predicates(&funcs);
    assert!(output.contains("valid_Status_disc"));
    assert!(output.contains("valid_bool"));
}

#[test]
fn test_emit_cryptol_constraints_creates_file() {
    let funcs = vec![FunctionInfo {
        name: "test".into(),
        mangled_name: None,
        params: vec![ParamInfo {
            name: "x".into(),
            ty: TypeInfo::Enum {
                name: "Status".into(),
                variants: vec![EnumVariant::new("Ok", 0), EnumVariant::new("Err", 1)],
                discriminant_bits: 32,
            },
            mutability: Mutability::Readonly,
            nullable: Nullability::NonNull,
            annotations: vec![],
        }],
        return_type: TypeInfo::Bool,
        can_throw: false,
        is_virtual: false,
        has_body: true,
        is_system: false,
        called_functions: vec![],
        referenced_globals: vec![],
        annotations: vec![],
    }];
    let file = emit_cryptol_constraints(&funcs);
    assert_eq!(file.name, "auto_constraints.cry");
    assert!(file.content.contains("valid_Status_disc"));
}

#[test]
fn type_short_name_handles_floats() {
    assert_eq!(type_short_name(&TypeInfo::Float(32)), "f32");
    assert_eq!(type_short_name(&TypeInfo::Float(64)), "f64");
}
