//! Emitted texts, on values that fix them exactly.

use saw_spec_gen::bitcode_overrides::{
    emit_overrides, global_width_bits, scan_and_emit, BitcodeScan, BrokenReason, OverrideTarget,
};
use saw_spec_gen::bitcode_overrides_functional::{
    classify, is_stl_functional, ContainerCatalog, FunctionalLayouts, StlMethod,
};
use saw_spec_gen::bitcode_overrides_functional_vector::{
    element_bits_from_mangled, emit_vector_ghost_decl, emit_vector_override,
};
use saw_spec_gen::constraints::{
    AllocType, Annotation, ClassConstructor, EnumVariant, FunctionInfo, GlobalVarInfo,
    InterfaceMethod, Mutability, Nullability, ParamConstraint, ParamInfo, ReturnConstraint,
    SpecConstraint, TypeInfo,
};
use saw_spec_gen::cryptol_bridge::{
    cryptol_literal_for_bits, is_bool_like, param_bridge, return_bridge, AbiParamBridge,
    AbiReturnBridge,
};
use saw_spec_gen::cryptol_emit::{generate_cryptol_predicates, generate_type_predicate};
use saw_spec_gen::cryptol_sig_parse::{
    cryptol_arity_from_str, cryptol_param_widths_from_str, cryptol_prestate_byte_width,
    detect_sret_prestate, parse_cry_width,
};
use saw_spec_gen::factory::emit_interface_factory_spec;
use saw_spec_gen::havoc::generate_havoc_spec;
use saw_spec_gen::havoc_params::{
    emit_adversarial_param, emit_struct_decomposed, emit_this_full_class_havoc, field_width,
    has_in_reads, has_out_writes, trailing_padding_bytes, HavocBehavior,
};
use saw_spec_gen::llvm_return::{
    emit_adversarial_return_and_postconds, emit_concrete_return_and_postconds,
};
use saw_spec_gen::llvm_setup::{emit_llvm_globals_setup, emit_llvm_param_setup};
use saw_spec_gen::llvm_spec::{
    emit_operator_new_spec, emit_saw_specs, emit_saw_specs_with_mode, emit_single_experimental_spec,
    union_globals, EmitMode,
};
use saw_spec_gen::overrides::{
    container_layout_for, emit_container_this, field_interface_name,
    generate_override_index_with_vtable,
};
use saw_spec_gen::rust_trait_emit::{emit_trait_stubs, Method, RustType, Trait, TraitSchema};
use saw_spec_gen::stl_overrides::{disabled, enabled_family_for};
use saw_spec_gen::stubs::emit_interface_stubs;
use saw_spec_gen::types::{alias_type, method_param_ir_pieces, pointee_to_saw, type_to_saw};
use saw_spec_gen::vtable_ir::TargetAbi;

fn global(name: &str, ty: TypeInfo, init: Option<&str>, is_static: bool) -> GlobalVarInfo {
    GlobalVarInfo {
        name: name.into(),
        mangled_name: name.into(),
        ty,
        init_value: init.map(String::from),
        has_static_initializer: is_static,
    }
}

fn param(name: &str, alloc_type: AllocType) -> ParamConstraint {
    ParamConstraint {
        name: name.into(),
        alloc_type,
        saw_type: "llvm_int 32".into(),
        preconditions: vec![],
        unchanged_after: false,
        dereferenceable_size: None,
        out_postcond: None,
    }
}

fn spec(name: &str, params: Vec<ParamConstraint>, ret: &str) -> SpecConstraint {
    SpecConstraint {
        function_name: name.into(),
        mangled_name: None,
        params,
        return_constraint: ReturnConstraint {
            saw_type: ret.into(),
            value_constraints: vec![],
            is_sret: false,
            returns_pointer: false,
            sret_prestate: false,
        },
        can_throw: false,
        is_virtual: false,
        has_body: true,
        referenced_globals: vec![],
        postconditions: vec![],
    }
}

fn function(name: &str, params: Vec<ParamInfo>, return_type: TypeInfo) -> FunctionInfo {
    FunctionInfo {
        name: name.into(),
        mangled_name: None,
        params,
        return_type,
        can_throw: false,
        is_virtual: true,
        has_body: false,
        is_system: false,
        called_functions: vec![],
        referenced_globals: vec![],
        annotations: vec![],
    }
}

fn info(name: &str, ty: TypeInfo, annotations: Vec<Annotation>) -> ParamInfo {
    ParamInfo {
        name: name.into(),
        ty,
        mutability: Mutability::Mutable,
        nullable: Nullability::NonNull,
        annotations,
    }
}

fn method(class: &str, name: &str, offset: u64) -> InterfaceMethod {
    InterfaceMethod {
        class_name: class.into(),
        method: function(name, vec![], TypeInfo::UnsignedInt(16)),
        is_pure: true,
        is_override: false,
        source_offset: offset,
    }
}

fn pointer_to(ty: TypeInfo) -> TypeInfo {
    TypeInfo::Pointer(Box::new(ty))
}

fn opaque(name: &str) -> TypeInfo {
    TypeInfo::Opaque {
        name: name.into(),
        size_bytes: 0,
    }
}

#[test]
fn parameters_are_set_up_by_kind() {
    let mut out = String::new();
    let mut p = param("x", AllocType::FreshVar);
    p.preconditions = vec!["llvm_precond {{ x > 0 }}".into()];
    emit_llvm_param_setup(&mut out, &p);
    assert_eq!(
        out,
        "\n    // Parameter: x\n    x <- llvm_fresh_var \"x\" (llvm_int 32);\n    llvm_precond {{ x > 0 }};\n"
    );
    let mut out = String::new();
    emit_llvm_param_setup(&mut out, &param("p", AllocType::AllocReadonly));
    assert!(out.contains("    p_before <- llvm_fresh_var \"p\" (llvm_int 32);\n"));
    assert!(out.contains("p_ptr <- llvm_alloc_readonly (llvm_int 32);\n"));
    let mut out = String::new();
    emit_llvm_param_setup(&mut out, &param("q", AllocType::AllocMutable));
    assert!(out.contains("    llvm_points_to q_ptr (llvm_term q_val);\n"));
}

#[test]
fn global_variables_are_set_up_by_what_is_known() {
    let mut out = String::new();
    emit_llvm_globals_setup(
        &mut out,
        &[
            global("a", TypeInfo::Bool, Some("1"), false),
            global("b", TypeInfo::Bool, None, true),
            global("c", TypeInfo::UnsignedInt(8), None, false),
        ],
    );
    assert_eq!(
        out,
        "\n    // Referenced global variables (initialized to compile-time values)\n\
         \x20   llvm_alloc_global \"a\";\n\
         \x20   llvm_points_to (llvm_global \"a\") (llvm_term {{ 1 : [1] }});\n\
         \x20   llvm_alloc_global \"b\";\n\
         \x20   llvm_points_to (llvm_global \"b\") (llvm_global_initializer \"b\");\n\
         \x20   llvm_alloc_global \"c\";\n\
         \x20   c_global <- llvm_fresh_var \"c\" (llvm_int 8);\n\
         \x20   llvm_points_to (llvm_global \"c\") (llvm_term c_global);\n"
    );
}

#[test]
fn results_are_arbitrary() {
    let mut s = spec("f", vec![param("m", AllocType::AllocMutable)], "llvm_int 8");
    let mut out = String::new();
    emit_adversarial_return_and_postconds(&mut out, &s);
    assert_eq!(
        out,
        "\n    ret <- llvm_fresh_var \"ret\" (llvm_int 8);\n\
         \x20   llvm_return (llvm_term ret);\n\
         \n    // Adversarial postconditions\n\
         \x20   // m: HAVOCED (mutable)\n\
         \x20   m_after <- llvm_fresh_var \"m_after\" (llvm_int 32);\n\
         \x20   llvm_points_to m_ptr (llvm_term m_after);\n"
    );
    let mut out = String::new();
    s.postconditions = vec!["llvm_postcond {{ True }}".into()];
    emit_concrete_return_and_postconds(&mut out, &s);
    assert!(out.contains("    //   llvm_return (llvm_term {{ my_spec x : [8] }});\n"));
    assert!(out.ends_with("\n    // Postconditions\n    llvm_postcond {{ True }};\n"));
    s.return_constraint.returns_pointer = true;
    let mut out = String::new();
    emit_concrete_return_and_postconds(&mut out, &s);
    assert!(out.contains("    llvm_return ret_ptr;\n"));
}

#[test]
fn files_come_in_order_with_their_index() {
    let mut a = spec("a::b", vec![], "// void");
    a.has_body = false;
    let specs = [a, spec("c", vec![], "llvm_int 8")];
    let files = emit_saw_specs_with_mode(&specs, EmitMode::Llvm, true, &[]);
    let names: Vec<&str> = files.iter().map(|f| f.name.as_str()).collect();
    assert_eq!(
        names,
        vec!["a__b_auto_spec.saw", "c_auto_spec.saw", "auto_specs.saw"]
    );
    assert!(files[2].content.contains("// Mode: LLVM\n"));
    let single = emit_single_experimental_spec(&specs[0], &[]);
    assert_eq!(single.name, files[0].name);
    assert_eq!(single.content, files[0].content);
}

#[test]
fn global_variables_are_united_in_order() {
    let mut f = spec("f", vec![], "// void");
    f.referenced_globals = vec![
        global("z", TypeInfo::Bool, Some("1"), false),
        global("a", TypeInfo::Bool, None, false),
    ];
    let mut g = spec("g", vec![], "// void");
    g.referenced_globals = vec![
        global("m", TypeInfo::Bool, None, false),
        global("z", TypeInfo::Bool, Some("2"), false),
    ];
    let u = union_globals(&[f, g]);
    let names: Vec<(&str, Option<&str>)> = u
        .iter()
        .map(|g| (g.mangled_name.as_str(), g.init_value.as_deref()))
        .collect();
    assert_eq!(names, vec![("a", None), ("m", None), ("z", Some("1"))]);
    assert_eq!(emit_saw_specs(&[], true).len(), 1);
}

#[test]
fn allocation_gives_fresh_memory() {
    let f = emit_operator_new_spec("_Znwm");
    assert_eq!(f.name, "operator_new_auto_spec.saw");
    assert!(f.content.contains("\"_Znwm\""));
    assert!(f.content.contains("ov_new"));
}

#[test]
fn factories_return_wired_objects() {
    let f = emit_interface_factory_spec(
        &spec("make", vec![param("n", AllocType::FreshVar)], "x"),
        "IShape",
        &[global("g", TypeInfo::Bool, None, false)],
    );
    assert_eq!(f.name, "make_auto_spec.saw");
    assert_eq!(
        f.content,
        "// Factory spec for make: returns IShape* wired to ishape_vtable.\n\
         // Must be included after interface_overrides.saw.\n\n\
         let make_factory : LLVMSetup () = do {\n\
         \x20   n <- llvm_fresh_var \"n\" (llvm_int 32);\n\
         \n    llvm_execute_func [llvm_term n];\n\n\
         \x20   g_post <- llvm_fresh_var \"g_post\" (llvm_int 1);\n\
         \x20   llvm_points_to (llvm_global \"g\") (llvm_term g_post);\n\
         \n    this_pointer <- alloc_ishape_this;\n\
         \x20   llvm_return this_pointer;\n\
         };\n\
         ov_make <- llvm_unsafe_assume_spec m \"make\" make_factory;\n"
    );
}

fn field(name: &str, ty: TypeInfo) -> (String, TypeInfo, String) {
    (name.into(), ty, String::new())
}

#[test]
fn objects_are_padded_to_words() {
    assert_eq!(field_width(&TypeInfo::Bool), 1);
    assert_eq!(field_width(&TypeInfo::SignedInt(24)), 24);
    assert_eq!(field_width(&TypeInfo::Void), 64);
    assert_eq!(trailing_padding_bytes(&[]), 0);
    assert_eq!(trailing_padding_bytes(&[field("b", TypeInfo::Bool)]), 7);
    assert_eq!(
        trailing_padding_bytes(&[field("a", TypeInfo::SignedInt(32)), field("b", TypeInfo::Bool)]),
        3
    );
    let layout = ClassConstructor {
        class_name: "C".into(),
        mangled_name: "_ZN1CC1Ev".into(),
        layout_fields: vec![field("n", TypeInfo::UnsignedInt(32))],
    };
    let mut setup = String::new();
    let mut post = String::new();
    emit_this_full_class_havoc(&layout, &mut setup, &mut post);
    assert!(setup.contains("llvm_int 32"));
    assert!(post.contains("llvm_fresh_var"));
}

#[test]
fn memory_is_preserved_or_havoced() {
    let run = |behavior: HavocBehavior| {
        let mut setup = String::new();
        let mut post = String::new();
        emit_adversarial_param(
            "p",
            &TypeInfo::UnsignedInt(8),
            behavior,
            &[],
            &mut setup,
            &mut post,
            None,
        );
        (setup, post)
    };
    let (setup, post) = run(HavocBehavior::Preserved);
    assert!(setup.contains("p_ptr <- llvm_alloc_readonly (llvm_int 8);"));
    assert!(!post.contains("llvm_fresh_var"));
    let (setup, post) = run(HavocBehavior::Havoced);
    assert!(setup.contains("p_ptr <- llvm_alloc (llvm_int 8);"));
    assert!(post.contains("llvm_fresh_var"));
    assert!(has_out_writes(&[Annotation::OutWrites(4)]));
    assert!(!has_out_writes(&[Annotation::InReads(4)]));
    assert!(has_in_reads(&[Annotation::NoAlias, Annotation::InReads(4)]));
    let mut setup = String::new();
    let mut post = String::new();
    emit_struct_decomposed(
        "s",
        "S",
        &[("x".into(), TypeInfo::Bool)],
        true,
        "llvm_alloc_readonly",
        "const",
        &mut setup,
        &mut post,
    );
    assert!(setup.contains("s_ptr"));
    assert!(!post.contains("llvm_fresh_var"));
}

#[test]
fn havoced_methods_return_anything_and_write_globals() {
    let text = generate_havoc_spec(
        &method("ILog", "read", 0),
        &[global("g", TypeInfo::UnsignedInt(32), None, false)],
        None,
        None,
    );
    assert!(text.contains("llvm_fresh_var"));
    assert!(text.contains("(llvm_int 16)"));
    assert!(text.contains("(llvm_global \"g\")"));
}

fn target(symbol: &str, reason: BrokenReason) -> OverrideTarget {
    OverrideTarget {
        symbol: symbol.into(),
        is_variadic: false,
        reason,
        fixed_param_ir_types: vec!["i32".into()],
        return_ir_type: "i32".into(),
        globals_written: vec![],
    }
}

#[test]
fn each_override_is_bound_once() {
    let targets = [
        target("ext", BrokenReason::DeclareOnly),
        target("ext", BrokenReason::DeclareOnly),
        target("done", BrokenReason::DeclareOnly),
    ];
    let r = emit_overrides(
        &targets,
        &["done".to_string()],
        &[],
        &FunctionalLayouts::default(),
    );
    assert_eq!(r.override_names.len(), 1);
    assert!(!r.is_empty());
    assert!(!r.snippet.contains("\"done\""));
    let name = &r.override_names[0];
    assert_eq!(r.snippet.matches(&format!("{name} <- ")).count(), 1);
}

#[test]
fn without_a_scan_nothing_is_overridden() {
    let catalog = ContainerCatalog { names: vec![] };
    assert!(scan_and_emit(None, &[], &[], &catalog).is_empty());
    let scan = BitcodeScan {
        targets: vec![target("ext", BrokenReason::DeclareOnly)],
        mutable_globals: vec!["g".into()],
        struct_defs: vec![],
        compared_length: None,
    };
    let r = scan_and_emit(
        Some(&scan),
        &[],
        &[
            global("g", TypeInfo::UnsignedInt(8), None, false),
            global("h", TypeInfo::UnsignedInt(8), None, false),
        ],
        &catalog,
    );
    assert_eq!(r.override_names.len(), 1);
    assert!(!r.snippet.contains("\"h\""));
    assert_eq!(global_width_bits(&TypeInfo::Bool), Some(8));
    assert_eq!(global_width_bits(&TypeInfo::Void), None);
}

#[test]
fn vectors_share_the_element_last_pushed() {
    let back = "_ZNSt6vectorIjSaIjEE4backEv";
    assert_eq!(classify(back), Some(StlMethod::VectorBack));
    assert!(StlMethod::VectorBack.is_vector());
    assert!(is_stl_functional(back));
    assert!(!is_stl_functional("_Z1fv"));
    assert_eq!(element_bits_from_mangled(back), Some(32));
    assert_eq!(element_bits_from_mangled("_ZNSt6vectorImSaImEE4backEv"), Some(64));
    assert_eq!(element_bits_from_mangled("_ZNSt6vectorI1SSaIS0_EE4backEv"), None);
    let mut out = String::new();
    emit_vector_ghost_decl(&mut out);
    assert!(out.ends_with("vec_last <- declare_ghost_state \"vec_last\";\n"));
    let mut out = String::new();
    emit_vector_override(&mut out, StlMethod::VectorBack, 32, back, "b", "ov_b");
    assert!(out.contains("    llvm_ghost_value vec_last x;\n    llvm_execute_func [v];\n"));
    assert!(out.ends_with(&format!("ov_b <- llvm_unsafe_assume_spec m \"{back}\" b_spec;\n")));
}

#[test]
fn overrides_of_containers_can_be_switched_off() {
    let m = "_ZNSt6vectorIjSaIjEE9push_backEOj";
    assert!(enabled_family_for(m, false).is_some());
    assert_eq!(enabled_family_for(m, true), None);
    assert!(!disabled(None));
    assert!(disabled(Some("1")));
}

#[test]
fn widths_are_bridged_both_ways() {
    assert!(is_bool_like(&TypeInfo::Bool));
    assert!(!is_bool_like(&TypeInfo::UnsignedInt(8)));
    assert_eq!(param_bridge(8, 8), AbiParamBridge::Identity);
    assert_eq!(return_bridge(8, 8), AbiReturnBridge::Identity);
    assert_eq!(cryptol_literal_for_bits(3, 8), "(3 : [8])");
}

#[test]
fn signatures_are_read() {
    let text = "f : [8] -> Bit -> [4][8] -> [32]\nf a b c = 0\n";
    assert_eq!(cryptol_arity_from_str(text, "f"), Some(3));
    assert_eq!(cryptol_arity_from_str(text, "g"), None);
    assert_eq!(
        cryptol_param_widths_from_str(text, "f"),
        Some(vec![8, 1, 32])
    );
    assert_eq!(cryptol_prestate_byte_width(text, "f"), Some(4));
    assert_eq!(parse_cry_width("[3][5]"), Some(15));
    assert_eq!(parse_cry_width("Integer"), None);
    let params = vec![param("a", AllocType::FreshVar), param("b", AllocType::FreshVar)];
    let mut s = spec("f", params, "x");
    s.return_constraint.is_sret = true;
    detect_sret_prestate(&mut s, text, "f");
    assert!(s.return_constraint.sret_prestate);
    let mut s = spec("f", vec![], "x");
    s.return_constraint.is_sret = true;
    detect_sret_prestate(&mut s, text, "f");
    assert!(!s.return_constraint.sret_prestate);
}

#[test]
fn variants_are_listed_once_and_in_order() {
    let ty = TypeInfo::Enum {
        name: "E".into(),
        variants: vec![
            EnumVariant {
                name: "C".into(),
                value: 5,
            },
            EnumVariant {
                name: "A".into(),
                value: 1,
            },
            EnumVariant {
                name: "B".into(),
                value: 5,
            },
        ],
        discriminant_bits: 8,
    };
    let mut emitted = vec![];
    let text = generate_type_predicate(&ty, &mut emitted).unwrap();
    assert_eq!(generate_type_predicate(&ty, &mut emitted), None);
    assert_eq!(emitted.len(), 1);
    let one = text.find("x == 1").unwrap();
    let five = text.find("x == 5").unwrap();
    assert!(one < five);
    assert_eq!(text.matches("x == 5").count(), 1);
    let f = |name: &str| function(name, vec![], TypeInfo::Bool);
    let all = generate_cryptol_predicates(&[f("f"), f("g")]);
    assert_eq!(all, generate_cryptol_predicates(&[f("f")]));
}

#[test]
fn types_are_written_for_scripts() {
    assert_eq!(type_to_saw(&TypeInfo::UnsignedInt(24)), "llvm_int 24");
    assert_eq!(pointee_to_saw(&TypeInfo::SignedInt(16)), "llvm_int 16");
    assert!(alias_type("S").contains("llvm_alias"));
    let f = function(
        "f",
        vec![info("a", TypeInfo::UnsignedInt(8), vec![])],
        TypeInfo::Void,
    );
    let pieces = method_param_ir_pieces(&f);
    assert_eq!(pieces.last().map(|s| s.contains("i8")), Some(true));
}

#[test]
fn containers_hold_interfaces() {
    let classes = ["ILog".to_string()];
    let ptr = pointer_to(opaque("ILog"));
    assert_eq!(field_interface_name(&ptr, &classes).as_deref(), Some("ILog"));
    assert_eq!(field_interface_name(&TypeInfo::Bool, &classes), None);
    let holder = pointer_to(TypeInfo::Struct {
        name: "Holder".into(),
        size_bytes: Some(16),
        fields: vec![("log".into(), ptr), ("n".into(), TypeInfo::UnsignedInt(64))],
    });
    let layout = container_layout_for(&holder, &classes).unwrap();
    assert_eq!(layout.len(), 2);
    let mut out = String::new();
    emit_container_this(&mut out, "h", &layout);
    assert!(out.contains("alloc_ilog_this"));
    assert!(container_layout_for(&TypeInfo::Bool, &classes).is_none());
}

#[test]
fn every_method_has_its_stub_and_its_specification() {
    let files = emit_interface_stubs(
        vec![method("ILog", "b", 20), method("ILog", "a", 10)],
        &[],
        &[],
        &[],
        None,
        None,
    );
    let names: Vec<&str> = files.iter().map(|f| f.name.as_str()).collect();
    assert!(names.contains(&"vtable_stubs.ll"));
    assert!(names.contains(&"interface_overrides.saw"));
    assert!(names.contains(&"ILog_a_havoc_spec.saw"));
    assert!(names.contains(&"ILog_b_havoc_spec.saw"));
    let ir = &files.iter().find(|f| f.name == "vtable_stubs.ll").unwrap().content;
    let a = ir.find("@ilog_a_stub").unwrap();
    let b = ir.find("@ilog_b_stub").unwrap();
    assert!(a < b);
    assert!(TargetAbi::from_triple(None).datalayout().contains("\"e-m:w-"));
    let index = generate_override_index_with_vtable(&[], &[], &[], &[]);
    assert!(!index.is_empty());
}

#[test]
fn traits_get_one_override_per_method() {
    let m = |name: &str, ret: RustType| Method {
        name: name.into(),
        args: vec![RustType::Ref, RustType::U16],
        ret,
    };
    let schema = TraitSchema {
        traits: vec![
            Trait {
                name: "A".into(),
                methods: vec![m("x", RustType::Unit), m("y", RustType::Bool)],
            },
            Trait {
                name: "B".into(),
                methods: vec![m("x", RustType::Ptr)],
            },
        ],
    };
    let files = emit_trait_stubs(&schema);
    assert_eq!(files.len(), 2);
    let saw = files.iter().find(|f| f.name.ends_with(".saw")).unwrap();
    assert!(saw
        .content
        .contains("let trait_overrides = [ov_A_x, ov_A_y, ov_B_x]"));
    let ll = files.iter().find(|f| f.name.ends_with(".ll")).unwrap();
    let x = ll.content.find("ptr @__stub_A_x").unwrap();
    let y = ll.content.find("ptr @__stub_A_y").unwrap();
    assert!(x < y);
    assert_eq!(RustType::Isize.llvm_ty(), "i64");
}

fn memcmp_scan(compared_length: Option<u64>) -> BitcodeScan {
    let with = |symbol: &str, params: &[&str], ret: &str| OverrideTarget {
        symbol: symbol.into(),
        is_variadic: false,
        reason: BrokenReason::DeclareOnly,
        fixed_param_ir_types: params.iter().map(|p| p.to_string()).collect(),
        return_ir_type: ret.into(),
        globals_written: vec!["state".into(), "pointer_state".into()],
    };
    BitcodeScan {
        targets: vec![
            with("external", &["ptr"], "void"),
            with("covered", &["ptr"], "void"),
            with("memcmp", &["ptr", "ptr", "i64"], "i32"),
        ],
        mutable_globals: vec!["state".into(), "hidden".into(), "pointer_state".into()],
        struct_defs: vec![],
        compared_length,
    }
}

#[test]
fn memcmp_is_overridden_although_it_is_covered() {
    let globals = [
        global("state", TypeInfo::UnsignedInt(32), None, false),
        global("hidden", TypeInfo::UnsignedInt(32), None, false),
        global("immutable", TypeInfo::UnsignedInt(32), None, false),
        global("absent", TypeInfo::UnsignedInt(32), None, false),
        global(
            "pointer_state",
            pointer_to(TypeInfo::UnsignedInt(8)),
            None,
            false,
        ),
    ];
    let catalog = ContainerCatalog { names: vec![] };
    let covered = ["covered".to_string(), "memcmp".to_string()];
    let r = scan_and_emit(Some(&memcmp_scan(None)), &covered, &globals, &catalog);
    assert_eq!(r.override_names, vec!["ov_external", "ov_memcmp"]);
    assert!(!r.snippet.contains("llvm_unsafe_assume_spec m \"covered\""));
    assert!(r.snippet.contains("llvm_unsafe_assume_spec m \"memcmp\""));
    assert!(r.snippet.contains("llvm_global \"state\""));
    for name in ["hidden", "immutable", "absent", "pointer_state"] {
        assert!(!r.snippet.contains(&format!("llvm_global \"{name}\"")));
    }
    assert!(!r.snippet.contains("[faithful;"));
    let direct = emit_overrides(
        &memcmp_scan(None).targets,
        &covered,
        &[],
        &FunctionalLayouts::default(),
    );
    assert_eq!(direct.override_names, vec!["ov_external"]);
}

#[test]
fn memcmp_of_one_length_is_modelled() {
    let catalog = ContainerCatalog { names: vec![] };
    let r = scan_and_emit(Some(&memcmp_scan(Some(16))), &[], &[], &catalog);
    assert_eq!(
        r.override_names,
        vec!["ov_external", "ov_covered", "ov_memcmp"]
    );
    assert!(r.snippet.contains("// override: memcmp  [faithful; fixed length 16]\n"));
    assert_eq!(r.snippet.matches("\"memcmp\"").count(), 1);
}
