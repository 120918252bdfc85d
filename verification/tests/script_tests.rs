//! Complete scripts.

use saw_spec_gen::bitcode_overrides::EmittedBitcodeOverrides;
use saw_spec_gen::buffer_overrides::{BufferFlagError, BufferOverrides};
use saw_spec_gen::constraints::{
    AllocType, ClassConstructor, FunctionInfo, GlobalVarInfo, InterfaceMethod, Mutability,
    Nullability, ParamConstraint, ParamInfo, ReturnConstraint, SpecConstraint, TypeInfo,
};
use saw_spec_gen::cryptol_bridge::AbiReturnBridge;
use saw_spec_gen::equiv_body;
use saw_spec_gen::stubs::{
    assemble_vtable_stubs, link_stubs_with_main, AssembledStubs, StubStep,
};
use saw_spec_gen::verify_script::{
    emit_verification_script, ScriptOverrides, ScriptTarget,
};
use saw_spec_gen::verify_script_close::{
    emit_postcondition_and_close, emit_verify_step, InterfaceCtx, PostconditionCtx,
};
use saw_spec_gen::verify_script_precond::{
    emit_param_preconditions, emit_param_preconditions_filtered,
};
use saw_spec_gen::verify_script_steps::{
    emit_equiv_spec_body, emit_external_overrides_step, emit_load_bitcode_step,
    emit_sub_callee_step, emit_var_annotation_override, interface_of, is_operator_new,
    SretPrestate,
};

fn param(name: &str, alloc_type: AllocType, saw_type: &str) -> ParamConstraint {
    ParamConstraint {
        name: name.into(),
        alloc_type,
        saw_type: saw_type.into(),
        preconditions: vec![],
        unchanged_after: false,
        dereferenceable_size: None,
        out_postcond: None,
    }
}

fn spec(name: &str, mangled: Option<&str>, params: Vec<ParamConstraint>, ret: &str) -> SpecConstraint {
    SpecConstraint {
        function_name: name.into(),
        mangled_name: mangled.map(String::from),
        params,
        return_constraint: ReturnConstraint {
            saw_type: ret.into(),
            value_constraints: vec![],
            is_sret: false,
            returns_pointer: false,
            sret_prestate: false,
        },
        can_throw: false,
        is_virtual: false,
        has_body: true,
        referenced_globals: vec![],
        postconditions: vec![],
    }
}

fn info(name: &str, ty: TypeInfo) -> ParamInfo {
    ParamInfo {
        name: name.into(),
        ty,
        mutability: Mutability::Readonly,
        nullable: Nullability::NonNull,
        annotations: vec![],
    }
}

fn function(name: &str, params: Vec<ParamInfo>, return_type: TypeInfo) -> FunctionInfo {
    FunctionInfo {
        name: name.into(),
        mangled_name: None,
        params,
        return_type,
        can_throw: false,
        is_virtual: false,
        has_body: true,
        is_system: false,
        called_functions: vec![],
        referenced_globals: vec![],
        annotations: vec![],
    }
}

fn method(class: &str, name: &str, is_override: bool) -> InterfaceMethod {
    InterfaceMethod {
        class_name: class.into(),
        method: function(name, vec![], TypeInfo::Void),
        is_pure: true,
        is_override,
        source_offset: 0,
    }
}

#[test]
fn a_plain_function_gets_three_steps() {
    let s = spec(
        "add_one",
        Some("_Z7add_onej"),
        vec![param("x", AllocType::FreshVar, "llvm_int 32")],
        "llvm_int 32",
    );
    let f = function(
        "add_one",
        vec![info("x", TypeInfo::UnsignedInt(32))],
        TypeInfo::UnsignedInt(32),
    );
    let target = ScriptTarget {
        cryptol_fn: "add_one_spec",
        function_name: "add_one",
        mangled_name: "_Z7add_onej",
        spec: &s,
        function: &f,
        vmethods: &[],
        constructors: &[],
        all_globals: &[],
        sret_prestate: None,
        loop_invariants: &[],
    };
    let none = EmittedBitcodeOverrides::empty();
    let overrides = ScriptOverrides {
        has_interfaces: false,
        external_calls: &[],
        sub_callee_specs: &[],
        bitcode: &none,
        has_source_sal_annotations: false,
    };
    let file = emit_verification_script(
        "../code.bc",
        "../spec.cry",
        &target,
        &overrides,
        &AssembledStubs::NoStubs,
        &BufferOverrides::none(),
    );
    assert_eq!(file.name, "verify.saw");
    let expected = "\
// Auto-generated by saw-spec-gen gen-verify
// Function: add_one (_Z7add_onej)
// Cryptol:  add_one_spec in ../spec.cry

// Step 1: Load bitcode
m <- llvm_load_module \"../code.bc\";

// Step 2: Import Cryptol spec
import \"../spec.cry\";

// Step 3: Equivalence spec — C++ add_one == Cryptol add_one_spec
let add_one_equiv_spec = do {
    x <- llvm_fresh_var \"x\" (llvm_int 32);

    llvm_execute_func [llvm_term x];

    // Postcondition: C++ result == Cryptol spec
    llvm_return (llvm_term {{ add_one_spec x }});
};

// Step 4: Verify equivalence
print \"BEGIN_PROOF add_one\";
print \"=== Checking: add_one == add_one_spec (Cryptol) ===\";
llvm_verify m \"_Z7add_onej\"
    []
    false add_one_equiv_spec z3;

print \"=== VERIFIED: add_one == add_one_spec ===\";
print \"PROVED add_one\";
";
    assert_eq!(file.content, expected);
}

#[test]
fn every_kind_of_override_is_used_by_the_proof() {
    let s = spec("f", Some("_f"), vec![], "// void");
    let f = function("f", vec![], TypeInfo::Void);
    let vmethods = [method("ILog", "log", false), method("FileLog", "log", true)];
    let constructors = [
        ClassConstructor {
            class_name: "ILog".into(),
            mangled_name: "??0ILog@@QEAA@XZ".into(),
            layout_fields: vec![],
        },
        ClassConstructor {
            class_name: "Other".into(),
            mangled_name: "_ZN5OtherC1Ev".into(),
            layout_fields: vec![],
        },
    ];
    let target = ScriptTarget {
        cryptol_fn: "f_spec",
        function_name: "f",
        mangled_name: "_f",
        spec: &s,
        function: &f,
        vmethods: &vmethods,
        constructors: &constructors,
        all_globals: &[],
        sret_prestate: None,
        loop_invariants: &[],
    };
    let bitcode = EmittedBitcodeOverrides {
        snippet: "ov_free <- free_snippet;\n".into(),
        override_names: vec!["ov_free".into()],
    };
    let external = [spec("ext", None, vec![], "// void"), spec("operator new", None, vec![], "")];
    let callees = [spec("helper", None, vec![], "// void")];
    let overrides = ScriptOverrides {
        has_interfaces: true,
        external_calls: &external,
        sub_callee_specs: &callees,
        bitcode: &bitcode,
        has_source_sal_annotations: true,
    };
    let stubs = AssembledStubs::Bitcode {
        bc_filename: "vtable_stubs.bc".into(),
        assembler: "llvm-as".into(),
    };
    let file = emit_verification_script(
        "code.bc",
        "s.cry",
        &target,
        &overrides,
        &stubs,
        &BufferOverrides::none(),
    );
    let text = file.content;
    assert!(text.contains("enable_experimental;\n"));
    assert!(text.contains("m       <- llvm_combine_modules m_main [m_stubs];\n"));
    assert!(text.contains("// Step 2: Vtable havoc overrides + constructor overrides\n"));
    assert!(text.contains("// Step 3: No-op override for llvm.var.annotation"));
    assert!(text.contains("// Step 4: Assume external functions\n"));
    assert!(text.contains("// Step 5: Bitcode-derived extern overrides\nov_free <- free_snippet;\n\n"));
    assert!(text.contains("// Step 6: Sub-function adversarial overrides (compositional)\n"));
    assert!(text.contains("// Step 7: Equivalence spec"));
    assert!(text.contains("    // Void return — no llvm_return to emit.\n"));
    assert!(text.contains("// Step 8: Verify equivalence\n"));
    let list = "[
     ov_var_annotation,
     ov_ext,
     ov_new,
     ov_free,
     ov_helper,
     ov_ilog_ctor,
     ov_ilog_log_stub]";
    assert!(text.contains(list), "{text}");
}

#[test]
fn each_function_is_assumed_once() {
    let specs = [
        spec("f", None, vec![], ""),
        spec("f", None, vec![], ""),
        spec("memcmp", None, vec![], ""),
        spec("operator new", None, vec![], ""),
    ];
    let mut out = String::new();
    let mut names = vec!["ov_a".to_string()];
    emit_external_overrides_step(&mut out, 4, &specs, true, &mut names);
    assert_eq!(
        out,
        "// Step 4: Assume external functions\n\
         include \"specs_experimental/f_auto_spec.saw\";\n\
         include \"specs_experimental/operator_new_auto_spec.saw\";\n"
    );
    assert_eq!(names, vec!["ov_a", "ov_f", "ov_new"]);
    let mut out = String::new();
    let mut names = vec![];
    emit_sub_callee_step(&mut out, 5, &specs[2..], &mut names);
    assert_eq!(names, vec!["ov_memcmp", "ov_operator_new"]);
    assert!(out.ends_with("_auto_spec.saw\";\n\n"));
    assert!(is_operator_new(&specs[3]));
    assert!(!is_operator_new(&specs[0]));
}

#[test]
fn every_parameter_is_passed_and_the_hidden_pointer_in_its_place() {
    let mut s = spec(
        "get",
        None,
        vec![
            param("this", AllocType::AllocMutable, "llvm_int 64"),
            param("n", AllocType::FreshVar, "llvm_int 8"),
        ],
        "llvm_array 4 (llvm_int 8)",
    );
    s.return_constraint.is_sret = true;
    s.return_constraint.sret_prestate = true;
    let f = function(
        "get",
        vec![
            info("this", TypeInfo::Pointer(Box::new(TypeInfo::Void))),
            info("n", TypeInfo::Bool),
        ],
        TypeInfo::ByteArray(4),
    );
    let none = BufferOverrides::none();
    let mut out = String::new();
    let (cry, call) = emit_equiv_spec_body(&mut out, 1, "get", "g", &s, &f, &[], &[], None, &none);
    assert_eq!(call, vec!["this_ptr", "result_ptr", "llvm_term n"]);
    assert_eq!(cry, vec!["this", "(n ! 0)", "result_pre"]);
    assert!(out.contains("    result_pre <- llvm_fresh_var \"result_pre\" (llvm_array 4 (llvm_int 8));\n"));
    let whole = SretPrestate {
        take_bytes: 4,
        drop_bytes: 0,
        buf_size: 4,
    };
    let mut out = String::new();
    let (cry, _) =
        emit_equiv_spec_body(&mut out, 1, "get", "g", &s, &f, &[], &[], Some(&whole), &none);
    assert_eq!(cry[2], "preBytes");
    assert!(!out.contains("result_pre"));
    let mut out = String::new();
    let (cry, call) = equiv_body::emit_equiv_spec_body(&mut out, 1, "get", "g", &s, &f, &[]);
    assert_eq!(call, vec!["result_ptr", "this_ptr", "llvm_term n"]);
    assert_eq!(cry, vec!["this", "n"]);
}

#[test]
fn global_variables_hold_what_they_start_with() {
    let global = |name: &str, init: Option<&str>, has_static_initializer: bool| GlobalVarInfo {
        name: name.into(),
        mangled_name: name.into(),
        ty: TypeInfo::UnsignedInt(16),
        init_value: init.map(String::from),
        has_static_initializer,
    };
    let globals = [
        global("a", Some("7"), false),
        global("b", None, true),
        global("c", None, false),
    ];
    let s = spec("f", None, vec![], "// void");
    let f = function("f", vec![], TypeInfo::Void);
    let mut out = String::new();
    emit_equiv_spec_body(
        &mut out,
        1,
        "f",
        "g",
        &s,
        &f,
        &[],
        &globals,
        None,
        &BufferOverrides::none(),
    );
    assert!(out.ends_with(
        "\n    llvm_alloc_global \"a\";\n\
         \x20   llvm_points_to (llvm_global \"a\") (llvm_term {{ 7 : [16] }});\n\n\
         \x20   llvm_alloc_global \"b\";\n\
         \x20   llvm_points_to (llvm_global \"b\") (llvm_global_initializer \"b\");\n\n\
         \x20   llvm_alloc_global \"c\";\n\n"
    ));
}

#[test]
fn interfaces_and_declared_buffers_are_set_up() {
    let mut buf = param("buf", AllocType::AllocReadonly, "llvm_int 8");
    buf.preconditions = vec![
        "// TODO[saw-spec-gen]: pointer parameter `buf` has no length annotation.".into(),
        "//   give it one".into(),
        "llvm_precond {{ buf != zero }}".into(),
    ];
    let s = spec(
        "f",
        None,
        vec![param("log", AllocType::AllocMutable, "x"), buf],
        "// void",
    );
    let iface = TypeInfo::Pointer(Box::new(TypeInfo::Opaque {
        name: "ILog".into(),
        size_bytes: 0,
    }));
    let classes = ["ILog".to_string()];
    assert_eq!(interface_of(&iface, &classes).as_deref(), Some("ILog"));
    assert_eq!(interface_of(&TypeInfo::Bool, &classes), None);
    let f = function(
        "f",
        vec![
            info("log", iface),
            info("buf", TypeInfo::Pointer(Box::new(TypeInfo::UnsignedInt(8)))),
        ],
        TypeInfo::Void,
    );
    let overrides = BufferOverrides::from_cli(
        &["buf=16".into()],
        &[],
        &[],
        &["n=16".into()],
        &[],
        &[],
    )
    .unwrap();
    let mut out = String::new();
    let (cry, call) =
        emit_equiv_spec_body(&mut out, 2, "f", "g", &s, &f, &classes, &[], None, &overrides);
    assert_eq!(cry, vec!["buf"]);
    assert_eq!(call, vec!["log_ptr", "buf_ptr"]);
    assert!(out.contains("    log_ptr <- alloc_ilog_this;\n"));
    assert!(out.contains(
        "    buf_ptr <- llvm_alloc_readonly_aligned 8 (llvm_array 16 (llvm_int 8));\n"
    ));
    assert!(out.contains("    llvm_precond {{ buf != zero }};\n"));
    assert!(!out.contains("TODO"));
    assert!(out.contains("    llvm_precond {{ `16 >= n }};\n\n"));
}

#[test]
fn declarations_that_cannot_be_read_are_refused() {
    let bad = |a: &str| vec![a.to_string()];
    let none: Vec<String> = vec![];
    let read = |i: Vec<String>, o: Vec<String>, f: Vec<String>, p: Vec<String>| {
        BufferOverrides::from_cli(&i, &o, &f, &none, &none, &p)
    };
    assert_eq!(
        read(bad("x"), none.clone(), none.clone(), none.clone()),
        Err(BufferFlagError::MissingValue)
    );
    assert_eq!(
        read(bad("x=ten"), none.clone(), none.clone(), none.clone()),
        Err(BufferFlagError::BadSize)
    );
    assert_eq!(
        read(
            none.clone(),
            none.clone(),
            none.clone(),
            vec!["p".into(), "q".into()]
        ),
        Err(BufferFlagError::TwoPreconditions)
    );
    let ok = read(none.clone(), bad("b=8"), bad("b=post"), none.clone()).unwrap();
    assert!(ok.is_out_buffer("b"));
    assert_eq!(ok.value_var_for("b"), "b_pre");
    assert_eq!(
        ok.override_saw_type("b").as_deref(),
        Some("llvm_array 8 (llvm_int 8)")
    );
    assert_eq!(ok.override_saw_type("c"), None);
    assert_eq!(ok.cryptol_call_args("post"), None);
}

#[test]
fn preconditions_are_statements_and_notes_can_be_left_out() {
    let pre = [
        "  ".to_string(),
        "// a note".to_string(),
        "llvm_precond {{ x > 0 }}".to_string(),
    ];
    let mut out = String::new();
    emit_param_preconditions(&mut out, &pre);
    assert_eq!(out, "    // a note\n    llvm_precond {{ x > 0 }};\n");
    let noted = [
        "// TODO[saw-spec-gen]: pointer parameter `p` has no length annotation.".to_string(),
        "//   first".to_string(),
        "//   second".to_string(),
        "// kept".to_string(),
    ];
    let mut out = String::new();
    emit_param_preconditions_filtered(&mut out, &noted, "p");
    assert_eq!(out, "    // kept\n");
    let mut out = String::new();
    emit_param_preconditions_filtered(&mut out, &noted, "q");
    assert_eq!(out.lines().count(), 4);
}

#[test]
fn output_buffers_hold_what_the_model_says() {
    let buf = BufferOverrides::from_cli(
        &[],
        &["o=auto".into()],
        &["o=post".into()],
        &[],
        &["post=o,n".into()],
        &[],
    )
    .unwrap();
    let outs = [("w".to_string(), "w_post".to_string())];
    let callee = [spec("h", None, vec![], "")];
    let ctx = PostconditionCtx {
        sub_callee_specs: &callee,
        return_type: &TypeInfo::SignedInt(32),
        is_sret: false,
        return_bridge: None,
        auto_out_postconds: &outs,
    };
    let mut out = String::new();
    emit_postcondition_and_close(
        &mut out,
        "g",
        &vec!["w".to_string(), "n".to_string()],
        &vec!["w_ptr".to_string()],
        &ctx,
        &buf,
    );
    assert!(out.starts_with("    llvm_execute_func [w_ptr];\n\n"));
    assert!(out.contains("    llvm_points_to o_ptr (llvm_term {{ post o_pre n }});\n"));
    assert!(out.contains("    llvm_points_to w_ptr (llvm_term {{ w_post w_pre n }});\n"));
    assert!(out.ends_with("    llvm_return (llvm_term {{ g w n }});  // <-- replace with full mapping\n};\n\n"));
    let bridge = AbiReturnBridge::ZeroExtend {
        cry_bits: 3,
        llvm_bits: 8,
    };
    let bridged = PostconditionCtx {
        sub_callee_specs: &[],
        return_type: &TypeInfo::SignedInt(8),
        is_sret: false,
        return_bridge: Some(&bridge),
        auto_out_postconds: &[],
    };
    let mut out = String::new();
    emit_postcondition_and_close(
        &mut out,
        "g",
        &vec![],
        &vec![],
        &bridged,
        &BufferOverrides::none(),
    );
    assert_eq!(
        out,
        "    llvm_execute_func [];\n\n    llvm_return (llvm_term {{ zext`{8} (g) }});\n};\n\n"
    );
    let mut s = spec("f", None, vec![], "x");
    s.return_constraint.is_sret = true;
    let mut out = String::new();
    equiv_body::emit_postcondition_and_close(
        &mut out,
        "g",
        &vec!["a".to_string()],
        &vec!["result_ptr".to_string()],
        &[],
        &s,
    );
    assert!(out.contains("    llvm_points_to result_ptr (llvm_term {{ g a }});\n};\n"));
}

#[test]
fn the_proof_stands_between_its_markers() {
    let iface = InterfaceCtx {
        has_interfaces: false,
        vmethods: &[],
        constructors: &[],
    };
    let mut out = String::new();
    emit_verify_step(&mut out, 3, "f", "g", "_f", &iface, vec!["ov_a".into()], &[]);
    let begin = out.find("print \"BEGIN_PROOF f\";").unwrap();
    let run = out.find("llvm_verify m \"_f\"\n    [ov_a]\n    false f_equiv_spec z3;").unwrap();
    let proved = out.find("print \"PROVED f\";").unwrap();
    assert!(begin < run && run < proved);
}

#[test]
fn modules_are_loaded_as_the_stubs_are() {
    let mut out = String::new();
    let linked = AssembledStubs::LinkedBitcode {
        combined_filename: "code.combined.bc".into(),
        linker: "llvm-link".into(),
    };
    emit_load_bitcode_step(&mut out, 1, true, "code.bc", &linked);
    assert!(out.ends_with("m <- llvm_load_module \"code.combined.bc\";\n\n"));
    assert!(!out.contains("llvm_combine_modules"));
    let mut out = String::new();
    let text = AssembledStubs::TextOnly {
        ll_filename: "vtable_stubs.ll".into(),
    };
    emit_load_bitcode_step(&mut out, 1, true, "code.bc", &text);
    assert!(out.contains("//            llvm-as vtable_stubs.ll -o vtable_stubs.bc\n"));
    assert!(out.contains("m_stubs <- llvm_load_module \"vtable_stubs.bc\";\n"));
    let mut names = vec![];
    let mut out = String::new();
    emit_var_annotation_override(&mut out, 2, &mut names);
    assert_eq!(names, vec!["ov_var_annotation"]);
    assert!(out.contains("\"llvm.var.annotation.p0.p0\""));
}

#[test]
fn assemblers_are_tried_in_turn() {
    assert_eq!(
        assemble_vtable_stubs(false, 0, false),
        StubStep::Done(AssembledStubs::NoStubs)
    );
    assert_eq!(
        assemble_vtable_stubs(true, 0, false),
        StubStep::Run {
            command: "llvm-as".into(),
            extra_args: vec![]
        }
    );
    assert_eq!(
        assemble_vtable_stubs(true, 2, false),
        StubStep::Run {
            command: "clang".into(),
            extra_args: vec!["-c".into(), "-emit-llvm".into()]
        }
    );
    assert_eq!(
        assemble_vtable_stubs(true, 3, true),
        StubStep::Done(AssembledStubs::Bitcode {
            bc_filename: "vtable_stubs.bc".into(),
            assembler: "clang".into()
        })
    );
    let text = AssembledStubs::TextOnly {
        ll_filename: "vtable_stubs.ll".into(),
    };
    assert_eq!(text.script_filename(), Some("vtable_stubs.bc"));
    assert_eq!(AssembledStubs::NoStubs.script_filename(), None);
    assert_eq!(assemble_vtable_stubs(true, 6, false), StubStep::Done(text));
}

fn assembled() -> AssembledStubs {
    AssembledStubs::Bitcode {
        bc_filename: "vtable_stubs.bc".into(),
        assembler: "llvm-as".into(),
    }
}

#[test]
fn linkers_are_tried_in_turn() {
    assert_eq!(
        link_stubs_with_main(AssembledStubs::NoStubs, "s.bc", true, 0, false),
        StubStep::Done(AssembledStubs::NoStubs)
    );
    assert_eq!(
        link_stubs_with_main(assembled(), "s.bc", false, 0, false),
        StubStep::Done(assembled())
    );
    assert_eq!(
        link_stubs_with_main(assembled(), "out/s.bc", true, 1, false),
        StubStep::Run {
            command: "llvm-link.exe".into(),
            extra_args: vec!["--override=out/s.bc".into()]
        }
    );
    assert_eq!(
        link_stubs_with_main(assembled(), "s.bc", true, 1, true),
        StubStep::Done(AssembledStubs::LinkedBitcode {
            combined_filename: "code.combined.bc".into(),
            linker: "llvm-link".into()
        })
    );
    assert_eq!(
        link_stubs_with_main(assembled(), "s.bc", true, 2, false),
        StubStep::Done(assembled())
    );
}
