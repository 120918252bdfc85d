//! Adversarial specifications of virtual and external methods.
//!
//! A method whose body is not modelled may leave behind any state that its
//! annotations and types allow: memory that is const or `_In_` is kept,
//! everything else may hold any value.

use vstd::prelude::*;

use crate::constraints::{
    globals_view, Annotation, ClassConstructor, FunctionInfo, GlobalVarInfo, GlobalView,
    InterfaceMethod, Mutability, ParamInfo, TypeInfo, TypeView,
};
use crate::havoc_params::{
    HavocBehavior, class_bits, emit_adversarial_param, emit_this_full_class_havoc, has_in_reads,
    param_post_text, param_setup_text, reads, this_post, this_setup,
};
use crate::names::{sanitize_name, sanitized, stub_function_name, stub_name};
use crate::text::{
    group_append, group_views, join, joined, lemma_append_assoc, lemma_append_nothing,
    lemma_mentions_inside, lemma_mentions_more, mentions, nil, only_if, opt_string, opt_view,
    owned, put, put2, put3, put5, put7, put_joined, same, views,
};
use crate::types::{saw_text, sret_inner_ir_type, sret_ir, type_to_saw};
use crate::writer::{is_void_saw_type, void_saw_type};

verus! {

/// What happens to the memory behind a parameter. The strictest constraint
/// wins: const and `_In_` memory is preserved whatever else is said of it.
pub open spec fn behavior_of(param: &ParamInfo) -> HavocBehavior {
    if param.mutability == Mutability::Readonly || reads(param.annotations@) {
        HavocBehavior::Preserved
    } else {
        HavocBehavior::Havoced
    }
}

/// What happens to the memory behind a parameter.
pub fn resolve_param_behavior(param: &ParamInfo) -> (r: HavocBehavior)
    ensures
        r == behavior_of(param),
{
    if param.mutability == Mutability::Readonly || has_in_reads(param.annotations.as_slice()) {
        HavocBehavior::Preserved
    } else {
        HavocBehavior::Havoced
    }
}

/// Where nothing but the type or an annotation makes a parameter
/// read-only, it is preserved; an `_Out_` or `_Inout_` beside it does not
/// change that.
pub proof fn law_strictest_wins(param: ParamInfo)
    ensures
        param.mutability == Mutability::Readonly ==> behavior_of(&param)
            == HavocBehavior::Preserved,
        reads(param.annotations@) ==> behavior_of(&param) == HavocBehavior::Preserved,
        param.mutability != Mutability::Readonly && !reads(param.annotations@) ==> behavior_of(
            &param,
        ) == HavocBehavior::Havoced,
{
}

pub open spec fn header_text(class_name: Seq<char>, method_name: Seq<char>) -> Seq<char> {
    "// Adversarial havoc spec for "@ + class_name + "::"@ + method_name + "\n"@ + "//\n"@
        + "// Models ANY implementation consistent with type-system and SAL constraints.\n"@
        + "// The solver can choose ANY value for mutable/writable memory after the call.\n"@
        + "// Const/_In_ memory is preserved — the solver cannot modify it.\n"@ + "//\n"@
        + "// Annotation key:\n"@
        + "//   _In_ / const    → PRESERVED (read-only, unchanged after call)\n"@
        + "//   _Out_           → HAVOCED   (write-only, any final value)\n"@
        + "//   _Inout_ / &mut  → HAVOCED   (read-write, any final value)\n"@
        + "//   no annotation   → inferred from const/mutable\n"@ + "//\n"@
        + "// NOT modeled: pointer chains >2 deep, aliased memory.\n\n"@
}

fn emit_header(out: &mut String, imethod: &InterfaceMethod)
    ensures
        final(out)@ == old(out)@ + header_text(imethod.class_name@, imethod.method.name@),
{
    broadcast use {group_append, group_views};
    let class_name = imethod.class_name.as_str();
    let method_name = imethod.method.name.as_str();
    put5(out, "// Adversarial havoc spec for ", class_name, "::", method_name, "\n");
    put(out, "//\n");
    put(out, "// Models ANY implementation consistent with type-system and SAL constraints.\n");
    put(out, "// The solver can choose ANY value for mutable/writable memory after the call.\n");
    put(out, "// Const/_In_ memory is preserved — the solver cannot modify it.\n");
    put(out, "//\n");
    put(out, "// Annotation key:\n");
    put(out, "//   _In_ / const    → PRESERVED (read-only, unchanged after call)\n");
    put(out, "//   _Out_           → HAVOCED   (write-only, any final value)\n");
    put(out, "//   _Inout_ / &mut  → HAVOCED   (read-write, any final value)\n");
    put(out, "//   no annotation   → inferred from const/mutable\n");
    put(out, "//\n");
    put(out, "// NOT modeled: pointer chains >2 deep, aliased memory.\n\n");
}

/// The inputs of the Cryptol function: scalar parameters, and the values behind preserved pointers.
pub open spec fn cryptol_inputs_item(p: ParamInfo) -> Seq<Seq<char>> {
    if p.name@ == "this"@ {
        Seq::empty()
    } else {
        match p.ty {
            TypeInfo::Pointer(_) => if behavior_of(&p) == HavocBehavior::Preserved {
                seq![p.name@ + "_val"@]
            } else {
                Seq::empty()
            },
            _ => seq![p.name@],
        }
    }
}

fn push_cryptol_inputs_item(out: &mut Vec<String>, p: &ParamInfo)
    ensures
        views(final(out)@) == views(old(out)@) + cryptol_inputs_item(*p),
{
    broadcast use {group_append, group_views};
    if !same(p.name.as_str(), "this") {
        match &p.ty {
            TypeInfo::Pointer(_) => {
                if resolve_param_behavior(p) == HavocBehavior::Preserved {
                    let mut t = String::new();
                    put2(&mut t, p.name.as_str(), "_val");
                    out.push(t);
                }
            },
            _ => {
                out.push(p.name.clone());
            },
        }
    }
}

/// The inputs of the Cryptol function: scalar parameters, and the values behind preserved pointers.
pub open spec fn cryptol_inputs(v: Seq<ParamInfo>) -> Seq<Seq<char>>
    decreases v.len(),
{
    if v.len() == 0 {
        Seq::empty()
    } else {
        cryptol_inputs(v.drop_last()) + cryptol_inputs_item(v.last())
    }
}

/// The inputs of the Cryptol function: scalar parameters, and the values behind preserved pointers.
fn push_cryptol_inputs(out: &mut Vec<String>, v: &[ParamInfo])
    ensures
        views(final(out)@) == views(old(out)@) + cryptol_inputs(v@),
{
    broadcast use lemma_append_nothing;
    let mut i: usize = 0;
    assert(cryptol_inputs(v@.take(0)) =~= Seq::<Seq<char>>::empty());
    while i < v.len()
        invariant
            i <= v@.len(),
            views(out@) == views(old(out)@) + cryptol_inputs(v@.take(i as int)),
        decreases v@.len() - i,
    {
        proof {
            assert(v@.take(i + 1).drop_last() =~= v@.take(i as int));
            lemma_append_assoc(views(old(out)@), cryptol_inputs(v@.take(i as int)), cryptol_inputs_item(v@[i as int]));
        }
        push_cryptol_inputs_item(out, &v[i]);
        i += 1;
    }
    assert(v@.take(v@.len() as int) =~= v@);
}

/// The call of the Cryptol function that defines `_Out_` memory.
pub open spec fn post_expr(params: Seq<ParamInfo>, cryptol_fn: Option<Seq<char>>) -> Option<Seq<char>> {
    match cryptol_fn {
        Some(f) => {
            let inputs = cryptol_inputs(params);
            Some(
                if inputs.len() == 0 {
                    f
                } else {
                    f + " "@ + joined(inputs, " "@)
                },
            )
        },
        None => None,
    }
}

fn cryptol_post_expr(func: &FunctionInfo, cryptol_fn: Option<&str>) -> (r: Option<String>)
    ensures
        opt_string(r) == post_expr(func.params@, opt_view(cryptol_fn)),
{
    broadcast use {group_append, group_views};
    match cryptol_fn {
        Some(f) => {
            let mut inputs: Vec<String> = Vec::new();
            push_cryptol_inputs(&mut inputs, func.params.as_slice());
            let mut r = owned(f);
            if inputs.len() > 0 {
                put(&mut r, " ");
                put_joined(&mut r, &inputs, " ");
            }
            Some(r)
        },
        None => None,
    }
}

/// Is the parameter a `this` to be havoced member by member?
pub open spec fn full_this(p: &ParamInfo, layout: Option<&ClassConstructor>) -> bool {
    p.name@ == "this"@ && behavior_of(p) == HavocBehavior::Havoced && layout is Some
        && layout->0.layout_fields@.len() > 0
}

/// The setup of one parameter.
pub open spec fn setup_of(p: &ParamInfo, layout: Option<&ClassConstructor>) -> Seq<char> {
    match p.ty {
        TypeInfo::Pointer(inner) => if full_this(p, layout) {
            this_setup(layout->0)
        } else {
            param_setup_text(p.name@, &*inner, behavior_of(p), p.annotations@)
        },
        _ => "\n    // Parameter: "@ + p.name@ + " (pass-by-value)\n"@ + "    "@ + p.name@
            + " <- llvm_fresh_var \""@ + p.name@ + "\" ("@ + saw_text(p.ty@) + ");\n"@,
    }
}

/// The postconditions of one parameter.
pub open spec fn post_of(
    p: &ParamInfo,
    layout: Option<&ClassConstructor>,
    post: Option<Seq<char>>,
) -> Seq<char> {
    match p.ty {
        TypeInfo::Pointer(inner) => if full_this(p, layout) {
            this_post(layout->0)
        } else {
            param_post_text(p.name@, &*inner, behavior_of(p), p.annotations@, post)
        },
        _ => nil(),
    }
}

/// How one parameter is passed to the call.
pub open spec fn arg_of(p: &ParamInfo) -> Seq<char> {
    match p.ty {
        TypeInfo::Pointer(_) => p.name@ + "_ptr"@,
        _ => "llvm_term "@ + p.name@,
    }
}

pub open spec fn setups(params: Seq<ParamInfo>, layout: Option<&ClassConstructor>) -> Seq<char>
    decreases params.len(),
{
    if params.len() == 0 {
        nil()
    } else {
        setups(params.drop_last(), layout) + setup_of(&params.last(), layout)
    }
}

pub open spec fn posts(
    params: Seq<ParamInfo>,
    layout: Option<&ClassConstructor>,
    post: Option<Seq<char>>,
) -> Seq<char>
    decreases params.len(),
{
    if params.len() == 0 {
        nil()
    } else {
        posts(params.drop_last(), layout, post) + post_of(&params.last(), layout, post)
    }
}

pub open spec fn args_of(params: Seq<ParamInfo>) -> Seq<Seq<char>> {
    Seq::new(params.len(), |i: int| arg_of(&params[i]))
}

/// The SAW type of the hidden buffer of a returned aggregate.
pub open spec fn sret_saw(ty: TypeView) -> Option<Seq<char>> {
    if sret_ir(ty) is None {
        None
    } else {
        match ty {
            TypeView::Opaque { size: 0, .. } => Some("llvm_array 16 (llvm_int 8)"@),
            TypeView::Struct { size: None, .. } => Some("llvm_array 16 (llvm_int 8)"@),
            _ => Some(saw_text(ty)),
        }
    }
}

fn sret_saw_type(ty: &TypeInfo) -> (r: Option<String>)
    ensures
        opt_string(r) == sret_saw(ty@),
{
    match sret_inner_ir_type(ty) {
        Some(_) => match ty {
            TypeInfo::Opaque { size_bytes, .. } => if *size_bytes == 0 {
                Some(owned("llvm_array 16 (llvm_int 8)"))
            } else {
                Some(type_to_saw(ty))
            },
            TypeInfo::Struct { size_bytes, .. } => match size_bytes {
                Some(_) => Some(type_to_saw(ty)),
                None => Some(owned("llvm_array 16 (llvm_int 8)")),
            },
            _ => Some(type_to_saw(ty)),
        },
        None => None,
    }
}

/// The setup of all parameters and of the hidden result buffer.
pub open spec fn setup_block(func: &FunctionInfo, layout: Option<&ClassConstructor>) -> Seq<char> {
    setups(func.params@, layout) + match sret_saw(func.return_type@) {
        Some(ty) => "\n    // sret: aggregate return passed via hidden output pointer\n"@
            + "    // (MSVC ABI: parameter index 1, immediately after `this`).\n"@
            + "    result_ptr <- llvm_alloc ("@ + ty + ");\n"@,
        None => nil(),
    }
}

/// The arguments of the call: the hidden result pointer stands behind the
/// first one.
pub open spec fn call_args(func: &FunctionInfo) -> Seq<Seq<char>> {
    let args = args_of(func.params@);
    if sret_saw(func.return_type@) is Some {
        if args.len() == 0 {
            seq!["result_ptr"@]
        } else {
            args.insert(1, "result_ptr"@)
        }
    } else {
        args
    }
}

/// The layout of a class, where given, fits into 32 bits.
pub open spec fn layout_fits(layout: Option<&ClassConstructor>) -> bool {
    layout is Some ==> class_bits(layout->0.layout_fields@) <= u32::MAX
}

/// Is the parameter an object that may change, so that its layout counts?
pub open spec fn is_changing_object(p: &ParamInfo) -> bool {
    p.ty is Pointer && p.name@ == "this"@ && behavior_of(p) == HavocBehavior::Havoced
}

/// Does the layout fit where one of the parameters needs it?
pub open spec fn layout_fits_params(
    layout: Option<&ClassConstructor>,
    params: Seq<ParamInfo>,
) -> bool {
    forall|i: int|
        0 <= i < params.len() && is_changing_object(&#[trigger] params[i]) ==> layout_fits(layout)
}

/// Emits setup and postconditions of one parameter; gives how it is passed.
fn emit_param(
    param: &ParamInfo,
    layout: Option<&ClassConstructor>,
    cryptol_post_expr: Option<&str>,
    setup: &mut String,
    postconds: &mut String,
) -> (arg: String)
    requires
        is_changing_object(param) ==> layout_fits(layout),
    ensures
        final(setup)@ == old(setup)@ + setup_of(param, layout),
        final(postconds)@ == old(postconds)@ + post_of(param, layout, opt_view(cryptol_post_expr)),
        arg@ == arg_of(param),
{
    broadcast use {group_append, group_views};
    let name = param.name.as_str();
    let mut arg = String::new();
    match &param.ty {
        TypeInfo::Pointer(inner) => {
            put2(&mut arg, name, "_ptr");
            let behavior = resolve_param_behavior(param);
            if let Some(class) = layout {
                if same(name, "this") && behavior == HavocBehavior::Havoced
                    && class.layout_fields.len() > 0 {
                    emit_this_full_class_havoc(class, setup, postconds);
                    return arg;
                }
            }
            emit_adversarial_param(
                name,
                inner,
                behavior,
                param.annotations.as_slice(),
                setup,
                postconds,
                cryptol_post_expr,
            );
        },
        _ => {
            let saw_type = type_to_saw(&param.ty);
            put3(setup, "\n    // Parameter: ", name, " (pass-by-value)\n");
            put7(
                setup,
                "    ",
                name,
                " <- llvm_fresh_var \"",
                name,
                "\" (",
                saw_type.as_str(),
                ");\n",
            );
            put2(&mut arg, "llvm_term ", name);
        },
    }
    arg
}

/// Setup, postconditions and arguments of all parameters, and the type of
/// the hidden result buffer.
fn build_param_blocks(
    func: &FunctionInfo,
    layout: Option<&ClassConstructor>,
    cryptol_post_expr: Option<&str>,
) -> (r: (String, String, Vec<String>, Option<String>))
    requires
        layout_fits_params(layout, func.params@),
    ensures
        r.0@ == setup_block(func, layout),
        r.1@ == posts(func.params@, layout, opt_view(cryptol_post_expr)),
        views(r.2@) == call_args(func),
        opt_string(r.3) == sret_saw(func.return_type@),
{
    let mut setup = String::new();
    let mut postconds = String::new();
    let mut args: Vec<String> = Vec::new();
    let ghost params = func.params@;
    let ghost post = opt_view(cryptol_post_expr);
    let mut i: usize = 0;
    while i < func.params.len()
        invariant
            layout_fits_params(layout, params),
            params == func.params@,
            post == opt_view(cryptol_post_expr),
            i <= params.len(),
            setup@ == setups(params.take(i as int), layout),
            postconds@ == posts(params.take(i as int), layout, post),
            args@.len() == i,
            forall|k: int| 0 <= k < i ==> (#[trigger] args@[k])@ == arg_of(&params[k]),
        decreases params.len() - i,
    {
        proof {
            assert(params.take(i + 1).drop_last() =~= params.take(i as int));
        }
        let arg = emit_param(
            &func.params[i],
            layout,
            cryptol_post_expr,
            &mut setup,
            &mut postconds,
        );
        args.push(arg);
        i += 1;
    }
    proof {
        assert(params.take(params.len() as int) =~= params);
        assert(views(args@) =~= args_of(params));
    }
    let sret = sret_saw_type(&func.return_type);
    if let Some(saw_type) = &sret {
        put(&mut setup, "\n    // sret: aggregate return passed via hidden output pointer\n");
        put(&mut setup, "    // (MSVC ABI: parameter index 1, immediately after `this`).\n");
        put3(&mut setup, "    result_ptr <- llvm_alloc (", saw_type.as_str(), ");\n");
        let ghost before = args@;
        if args.len() == 0 {
            args.push(owned("result_ptr"));
            assert(views(args@) =~= seq!["result_ptr"@]);
        } else {
            args.insert(1, owned("result_ptr"));
            assert(views(args@) =~= views(before).insert(1, "result_ptr"@));
        }
    }
    (setup, postconds, args, sret)
}

/// The result of the call: any value of its type.
pub open spec fn return_block(ty: TypeView) -> Seq<char> {
    match sret_saw(ty) {
        Some(saw) => "\n    // sret return: solver chooses any final value for *result_ptr\n"@
            + "    ret <- llvm_fresh_var \"ret\" ("@ + saw + ");\n"@
            + "    llvm_points_to result_ptr (llvm_term ret);\n"@,
        None => {
            let saw = saw_text(ty);
            if void_saw_type(saw) {
                nil()
            } else {
                "\n    // Return: unconstrained (solver chooses any value)\n"@
                    + "    ret <- llvm_fresh_var \"ret\" ("@ + saw + ");\n"@
                    + "    llvm_return (llvm_term ret);\n"@
            }
        },
    }
}

fn emit_return(out: &mut String, return_type: &TypeInfo, sret_saw_type: Option<&str>)
    requires
        opt_view(sret_saw_type) == sret_saw(return_type@),
    ensures
        final(out)@ == old(out)@ + return_block(return_type@),
{
    broadcast use {group_append, group_views};
    if let Some(saw) = sret_saw_type {
        put(out, "\n    // sret return: solver chooses any final value for *result_ptr\n");
        put3(out, "    ret <- llvm_fresh_var \"ret\" (", saw, ");\n");
        put(out, "    llvm_points_to result_ptr (llvm_term ret);\n");
    } else {
        let ret_saw = type_to_saw(return_type);
        let saw = ret_saw.as_str();
        if !is_void_saw_type(saw) {
            put(out, "\n    // Return: unconstrained (solver chooses any value)\n");
            put3(out, "    ret <- llvm_fresh_var \"ret\" (", saw, ");\n");
            put(out, "    llvm_return (llvm_term ret);\n");
        }
    }
}

/// Each global variable holds any value after the call.
pub open spec fn havoced_globals_item(g: GlobalView) -> Seq<char> {
    let safe = sanitized(g.name);
    "    "@ + safe + "_post <- llvm_fresh_var \""@ + safe + "_post\" ("@ + saw_text(g.ty)
        + ");\n"@ + "    llvm_points_to (llvm_global \""@ + g.mangled_name + "\") (llvm_term "@
        + safe + "_post);\n"@
}

fn put_havoced_globals_item(out: &mut String, g: &GlobalVarInfo)
    ensures
        final(out)@ == old(out)@ + havoced_globals_item(g@),
{
    broadcast use {group_append, group_views};
    let safe_name = sanitize_name(g.name.as_str());
    let safe = safe_name.as_str();
    let saw_type = type_to_saw(&g.ty);
    put7(
        out,
        "    ",
        safe,
        "_post <- llvm_fresh_var \"",
        safe,
        "_post\" (",
        saw_type.as_str(),
        ");\n",
    );
    put5(
        out,
        "    llvm_points_to (llvm_global \"",
        g.mangled_name.as_str(),
        "\") (llvm_term ",
        safe,
        "_post);\n",
    );
}

/// Each global variable holds any value after the call.
pub open spec fn havoced_globals(v: Seq<GlobalView>) -> Seq<char>
    decreases v.len(),
{
    if v.len() == 0 {
        nil()
    } else {
        havoced_globals(v.drop_last()) + havoced_globals_item(v.last())
    }
}

/// Each global variable holds any value after the call.
fn put_havoced_globals(out: &mut String, v: &[GlobalVarInfo])
    ensures
        final(out)@ == old(out)@ + havoced_globals(globals_view(v@)),
{
    broadcast use lemma_append_nothing;
    let ghost w = globals_view(v@);
    let mut i: usize = 0;
    assert(havoced_globals(w.take(0)) =~= nil());
    while i < v.len()
        invariant
            w == globals_view(v@),
            i <= v@.len(),
            out@ == old(out)@ + havoced_globals(w.take(i as int)),
        decreases v@.len() - i,
    {
        proof {
            assert(w.take(i + 1).drop_last() =~= w.take(i as int));
            assert(w.take(i + 1).last() == v@[i as int]@);
            lemma_append_assoc(old(out)@, havoced_globals(w.take(i as int)), havoced_globals_item(w[i as int]));
        }
        put_havoced_globals_item(out, &v[i]);
        i += 1;
    }
    assert(w.take(w.len() as int) =~= w);
}

pub open spec fn globals_block(globals: Seq<GlobalView>) -> Seq<char> {
    "\n    // --- Havoced globals ---\n"@
        + "    // A virtual method could be ANY implementation, including one\n"@
        + "    // that writes to global variables. Model as unconstrained.\n"@
        + havoced_globals(globals)
}

fn emit_global_havoc(out: &mut String, globals: &[GlobalVarInfo])
    ensures
        final(out)@ == old(out)@ + globals_block(globals_view(globals@)),
{
    broadcast use {group_append, group_views};
    put(out, "\n    // --- Havoced globals ---\n");
    put(out, "    // A virtual method could be ANY implementation, including one\n");
    put(out, "    // that writes to global variables. Model as unconstrained.\n");
    put_havoced_globals(out, globals);
}

/// The adversarial specification of a virtual method.
pub open spec fn havoc_text(
    imethod: &InterfaceMethod,
    globals: Seq<GlobalView>,
    layout: Option<&ClassConstructor>,
    cryptol_fn: Option<Seq<char>>,
) -> Seq<char> {
    let func = &imethod.method;
    let safe = sanitized(stub_name(imethod.class_name@, imethod.method.name@));
    let post = post_expr(func.params@, cryptol_fn);
    let postconds = posts(func.params@, layout, post);
    header_text(imethod.class_name@, imethod.method.name@) + "let "@ + safe
        + "_havoc : LLVMSetup () = do {\n"@ + setup_block(func, layout)
        + "\n    llvm_execute_func ["@ + joined(call_args(func), ", "@) + "];\n"@
        + return_block(func.return_type@) + only_if(
        postconds.len() > 0,
        "\n    // --- Postconditions ---\n"@ + postconds,
    ) + only_if(globals.len() > 0, globals_block(globals)) + "};\n"@
}

/// The adversarial specification of a virtual method.
///
/// Const and `_In_` memory is kept; `_Out_`, `_Inout_` and mutable memory,
/// the members of a mutable `this` and the global variables hold any value
/// after the call. Not modelled: chains of more than two pointers, and
/// memory that the signature does not show.
pub fn generate_havoc_spec(
    imethod: &InterfaceMethod,
    globals: &[GlobalVarInfo],
    layout: Option<&ClassConstructor>,
    cryptol_fn: Option<&str>,
) -> (r: String)
    requires
        layout_fits_params(layout, imethod.method.params@),
    ensures
        r@ == havoc_text(imethod, globals_view(globals@), layout, opt_view(cryptol_fn)),
{
    broadcast use {group_append, group_views};
    let mut out = String::new();
    let func = &imethod.method;
    let stub = stub_function_name(imethod);
    let safe_name = sanitize_name(stub.as_str());
    emit_header(&mut out, imethod);
    put3(&mut out, "let ", safe_name.as_str(), "_havoc : LLVMSetup () = do {\n");
    let expr = cryptol_post_expr(func, cryptol_fn);
    let post = match &expr {
        Some(s) => Some(s.as_str()),
        None => None,
    };
    let (setup, postconds, args, sret) = build_param_blocks(func, layout, post);
    put(&mut out, setup.as_str());
    put3(&mut out, "\n    llvm_execute_func [", join(&args, ", ").as_str(), "];\n");
    let sret_type = match &sret {
        Some(s) => Some(s.as_str()),
        None => None,
    };
    emit_return(&mut out, &func.return_type, sret_type);
    if !postconds.as_str().is_empty() {
        put2(&mut out, "\n    // --- Postconditions ---\n", postconds.as_str());
    }
    if globals.len() > 0 {
        emit_global_havoc(&mut out, globals);
    }
    put(&mut out, "};\n");
    out
}

/// What the specification says before and after the result.
proof fn lemma_havoc_parts(
    imethod: &InterfaceMethod,
    globals: Seq<GlobalView>,
    layout: Option<&ClassConstructor>,
    cryptol_fn: Option<Seq<char>>,
) -> (r: (Seq<char>, Seq<char>, Seq<char>))
    ensures
        havoc_text(imethod, globals, layout, cryptol_fn) == r.0 + return_block(
            imethod.method.return_type@,
        ) + r.1,
        havoc_text(imethod, globals, layout, cryptol_fn) == r.2 + only_if(
            globals.len() > 0,
            globals_block(globals),
        ) + "};\n"@,
{
    broadcast use {group_append, group_views};

    let func = &imethod.method;
    let safe = sanitized(stub_name(imethod.class_name@, imethod.method.name@));
    let post = post_expr(func.params@, cryptol_fn);
    let postconds = posts(func.params@, layout, post);
    let a = header_text(imethod.class_name@, imethod.method.name@) + "let "@ + safe
        + "_havoc : LLVMSetup () = do {\n"@ + setup_block(func, layout)
        + "\n    llvm_execute_func ["@ + joined(call_args(func), ", "@) + "];\n"@;
    let b = only_if(postconds.len() > 0, "\n    // --- Postconditions ---\n"@ + postconds);
    let c = only_if(globals.len() > 0, globals_block(globals));
    (a, b + c + "};\n"@, a + return_block(func.return_type@) + b)
}

/// The result of a method may be any value of its type: a fresh one is
/// returned, or written through the hidden pointer.
pub proof fn law_result_is_arbitrary(
    imethod: &InterfaceMethod,
    globals: Seq<GlobalView>,
    layout: Option<&ClassConstructor>,
    cryptol_fn: Option<Seq<char>>,
)
    ensures
        ({
            let text = havoc_text(imethod, globals, layout, cryptol_fn);
            let ty = imethod.method.return_type@;
            match sret_saw(ty) {
                Some(saw) => mentions(
                    text,
                    "    ret <- llvm_fresh_var \"ret\" ("@ + saw + ");\n"@
                        + "    llvm_points_to result_ptr (llvm_term ret);\n"@,
                ),
                None => void_saw_type(saw_text(ty)) || mentions(
                    text,
                    "    ret <- llvm_fresh_var \"ret\" ("@ + saw_text(ty) + ");\n"@
                        + "    llvm_return (llvm_term ret);\n"@,
                ),
            }
        }),
{
    broadcast use {group_append, group_views};

    let (a, b, _) = lemma_havoc_parts(imethod, globals, layout, cryptol_fn);
    let ty = imethod.method.return_type@;
    match sret_saw(ty) {
        Some(saw) => {
            let head = "\n    // sret return: solver chooses any final value for *result_ptr\n"@;
            let lines = "    ret <- llvm_fresh_var \"ret\" ("@ + saw + ");\n"@
                + "    llvm_points_to result_ptr (llvm_term ret);\n"@;
            assert(return_block(ty) == head + lines + nil());
            lemma_mentions_inside(head, lines, nil());
            lemma_mentions_more(a, return_block(ty), b, lines);
        },
        None => {
            let saw = saw_text(ty);
            if !void_saw_type(saw) {
                let head = "\n    // Return: unconstrained (solver chooses any value)\n"@;
                let lines = "    ret <- llvm_fresh_var \"ret\" ("@ + saw + ");\n"@
                    + "    llvm_return (llvm_term ret);\n"@;
                assert(return_block(ty) == head + lines + nil());
                lemma_mentions_inside(head, lines, nil());
                lemma_mentions_more(a, return_block(ty), b, lines);
            }
        },
    }
}

proof fn lemma_each_global_is_havoced(globals: Seq<GlobalView>, i: int)
    requires
        0 <= i < globals.len(),
    ensures
        mentions(havoced_globals(globals), havoced_globals_item(globals[i])),
    decreases globals.len(),
{
    broadcast use {group_append, group_views};

    let rest = havoced_globals(globals.drop_last());
    let last = havoced_globals_item(globals.last());
    if i < globals.len() - 1 {
        lemma_each_global_is_havoced(globals.drop_last(), i);
        assert(globals.drop_last()[i] == globals[i]);
        lemma_mentions_more(nil(), rest, last, havoced_globals_item(globals[i]));
        assert(nil() + rest + last == rest + last);
    } else {
        lemma_mentions_inside(rest, last, nil());
        assert(rest + last + nil() == rest + last);
    }
}

/// A method may write any global variable: a variable is bound at the type of
/// the global variable, and the global variable points to it.
pub proof fn law_globals_are_arbitrary(
    imethod: &InterfaceMethod,
    globals: Seq<GlobalView>,
    layout: Option<&ClassConstructor>,
    cryptol_fn: Option<Seq<char>>,
    i: int,
)
    requires
        0 <= i < globals.len(),
    ensures
        ({
            let safe = sanitized(globals[i].name);
            mentions(
                havoc_text(imethod, globals, layout, cryptol_fn),
                "    "@ + safe + "_post <- llvm_fresh_var \""@ + safe + "_post\" ("@
                    + saw_text(globals[i].ty) + ");\n"@ + "    llvm_points_to (llvm_global \""@
                    + globals[i].mangled_name + "\") (llvm_term "@ + safe + "_post);\n"@,
            )
        }),
{
    broadcast use {group_append, group_views};

    let (_, _, a) = lemma_havoc_parts(imethod, globals, layout, cryptol_fn);
    let block = globals_block(globals);
    let head = "\n    // --- Havoced globals ---\n"@
        + "    // A virtual method could be ANY implementation, including one\n"@
        + "    // that writes to global variables. Model as unconstrained.\n"@;
    let item = havoced_globals_item(globals[i]);
    lemma_each_global_is_havoced(globals, i);
    assert(block == head + havoced_globals(globals) + nil());
    lemma_mentions_more(head, havoced_globals(globals), nil(), item);
    lemma_mentions_more(a, block, "};\n"@, item);
}

} // verus!
