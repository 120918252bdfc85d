//! The steps of a verification script up to the specification of the
//! verified function.

use vstd::prelude::*;

use crate::buffer_overrides::BufferOverrides;
use crate::constraints::{
    globals_view, type_view, AllocType, FunctionInfo, GlobalVarInfo, GlobalView, ParamConstraint,
    ParamInfo, SpecConstraint, TypeInfo, TypeView,
};
use crate::cryptol_bridge::{arg_text, cryptol_arg_for};
use crate::names::{
    allocator, lower_id, object_allocator, sanitize_lower, sanitized, spec_key, spec_safe_id,
};
use crate::overrides::{
    FieldKind, container_layout_for, container_of, container_text, emit_container_this,
    field_interface_name, interface_name, kinds_view,
};
use crate::stubs::{AssembledStubs, script_file};
use crate::text::{
    CharSet, after_prefix, dec, from_chars, group_append, group_views, join, joined,
    lemma_append_assoc, lemma_append_nothing, list_has, nil, only_if, opt_string, owned,
    parse_bounded, parsed, put, put2, put3, put5, put7, put_dec, same, skip, skip_chars,
    strip_prefix, to_chars, views,
};
use crate::verify_script_precond::{
    emit_param_preconditions, emit_param_preconditions_filtered, length_note, noteless,
    preconditions,
};

verus! {

/// Does the specification describe the allocation function?
pub open spec fn operator_new(spec: &SpecConstraint) -> bool {
    spec.function_name@ == "operator new"@ || opt_string(spec.mangled_name) == Some(
        "??2@YAPEAX_K@Z"@,
    )
}

/// Is the linker name of the specification the given one?
fn is_mangled_as(spec: &SpecConstraint, name: &str) -> (r: bool)
    ensures
        r == (opt_string(spec.mangled_name) == Some(name@)),
{
    match &spec.mangled_name {
        Some(m) => same(m.as_str(), name),
        None => false,
    }
}

/// Does the specification describe the allocation function?
pub fn is_operator_new(spec: &SpecConstraint) -> (r: bool)
    ensures
        r == operator_new(spec),
{
    same(spec.function_name.as_str(), "operator new") || is_mangled_as(spec, "??2@YAPEAX_K@Z")
}

/// How the module of stubs came about.
pub open spec fn stubs_note(stubs: &AssembledStubs) -> Seq<char> {
    match stubs {
        AssembledStubs::TextOnly { ll_filename } => "//\n"@ + "// WARNING: vtable_stubs.bc was NOT auto-assembled at gen time\n"@
            + "//          (llvm-as / clang not found on PATH). Assemble it before\n"@
            + "//          running SAW:\n"@ + "//            llvm-as "@ + ll_filename@
            + " -o vtable_stubs.bc\n"@ + "//          (or)  clang -c -emit-llvm "@
            + ll_filename@ + " -o vtable_stubs.bc\n"@
            + "//          The load line below already references vtable_stubs.bc.\n"@,
        AssembledStubs::Bitcode { assembler, .. } => "// vtable_stubs.bc was assembled from vtable_stubs.ll via `"@ + assembler@
            + "`.\n"@
            + "// (Pre-linking with `llvm-link` was disabled via --use-llvm-combine-modules.)\n"@,
        _ => nil(),
    }
}

/// The step that loads the program, with the stubs where there are
/// interfaces.
pub open spec fn load_text(
    step: nat,
    has_interfaces: bool,
    bitcode: Seq<char>,
    stubs: &AssembledStubs,
) -> Seq<char> {
    if !has_interfaces {
        "// Step "@ + dec(step) + ": Load bitcode\n"@ + "m <- llvm_load_module \""@
            + bitcode + "\";\n\n"@
    } else if let AssembledStubs::LinkedBitcode { combined_filename, linker } = stubs {
        "// Step "@ + dec(step) + ": Load bitcode (vtable stubs pre-linked)\n"@ + "// "@
            + combined_filename@ + " was produced at gen time via `"@ + linker@ + "`\n"@
            + "// (main bitcode + vtable_stubs.bc). Loading one module here lets the\n"@
            + "// stock SAW v1.5 release tarball run this script unmodified.\n"@
            + "m <- llvm_load_module \""@ + combined_filename@ + "\";\n\n"@
    } else {
        let file = match script_file(stubs) {
            Some(f) => f,
            None => "vtable_stubs.bc"@,
        };
        "// Step "@ + dec(step) + ": Load bitcode + vtable stubs\n"@ + stubs_note(stubs)
            + "m_main  <- llvm_load_module \""@ + bitcode + "\";\n"@
            + "m_stubs <- llvm_load_module \""@ + file + "\";\n"@
            + "m       <- llvm_combine_modules m_main [m_stubs];\n\n"@
    }
}

fn put_stubs_note(out: &mut String, stubs: &AssembledStubs)
    ensures
        final(out)@ == old(out)@ + stubs_note(stubs),
{
    broadcast use {group_append, group_views};
    match stubs {
        AssembledStubs::TextOnly { ll_filename } => {
            let ll = ll_filename.as_str();
            put(out, "//\n");
            put(out, "// WARNING: vtable_stubs.bc was NOT auto-assembled at gen time\n");
            put(out, "//          (llvm-as / clang not found on PATH). Assemble it before\n");
            put(out, "//          running SAW:\n");
            put3(out, "//            llvm-as ", ll, " -o vtable_stubs.bc\n");
            put3(out, "//          (or)  clang -c -emit-llvm ", ll, " -o vtable_stubs.bc\n");
            put(out, "//          The load line below already references vtable_stubs.bc.\n");
        },
        AssembledStubs::Bitcode { assembler, .. } => {
            put3(
                out,
                "// vtable_stubs.bc was assembled from vtable_stubs.ll via `",
                assembler.as_str(),
                "`.\n",
            );
            put(
                out,
                "// (Pre-linking with `llvm-link` was disabled via --use-llvm-combine-modules.)\n",
            );
        },
        _ => {},
    }
}

/// Emits the step that loads the program.
pub fn emit_load_bitcode_step(
    out: &mut String,
    step: u32,
    has_interfaces: bool,
    bitcode_rel: &str,
    stubs_status: &AssembledStubs,
)
    ensures
        final(out)@ == old(out)@ + load_text(
            step as nat,
            has_interfaces,
            bitcode_rel@,
            stubs_status,
        ),
{
    broadcast use {group_append, group_views};
    if !has_interfaces {
        put(out, "// Step ");
        put_dec(out, step as u128);
        put(out, ": Load bitcode\n");
        put3(out, "m <- llvm_load_module \"", bitcode_rel, "\";\n\n");
    } else if let AssembledStubs::LinkedBitcode { combined_filename, linker } = stubs_status {
        let file = combined_filename.as_str();
        put(out, "// Step ");
        put_dec(out, step as u128);
        put(out, ": Load bitcode (vtable stubs pre-linked)\n");
        put5(out, "// ", file, " was produced at gen time via `", linker.as_str(), "`\n");
        put(out, "// (main bitcode + vtable_stubs.bc). Loading one module here lets the\n");
        put(out, "// stock SAW v1.5 release tarball run this script unmodified.\n");
        put3(out, "m <- llvm_load_module \"", file, "\";\n\n");
    } else {
        let file = match stubs_status.script_filename() {
            Some(f) => f,
            None => "vtable_stubs.bc",
        };
        put(out, "// Step ");
        put_dec(out, step as u128);
        put(out, ": Load bitcode + vtable stubs\n");
        put_stubs_note(out, stubs_status);
        put3(out, "m_main  <- llvm_load_module \"", bitcode_rel, "\";\n");
        put3(out, "m_stubs <- llvm_load_module \"", file, "\";\n");
        put(out, "m       <- llvm_combine_modules m_main [m_stubs];\n\n");
    }
}

/// The override of the intrinsic that carries annotations of variables:
/// it has no effect.
#[verifier::opaque]
pub open spec fn var_annotation_text(step: nat) -> Seq<char> {
    "// Step "@ + dec(step)
        + ": No-op override for llvm.var.annotation (SAL/__attribute__((annotate)))\n"@
        + "let var_annotation_spec = do {\n"@ + "    p1 <- llvm_fresh_pointer (llvm_int 8);\n"@
        + "    p2 <- llvm_fresh_pointer (llvm_int 8);\n"@
        + "    p3 <- llvm_fresh_pointer (llvm_int 8);\n"@
        + "    line <- llvm_fresh_var \"line\" (llvm_int 32);\n"@
        + "    p4 <- llvm_fresh_pointer (llvm_int 8);\n"@
        + "    llvm_execute_func [p1, p2, p3, llvm_term line, p4];\n"@ + "};\n"@
        + "ov_var_annotation <- llvm_unsafe_assume_spec m \"llvm.var.annotation.p0.p0\" var_annotation_spec;\n\n"@
}

/// Emits the override of the intrinsic that carries annotations of
/// variables.
pub fn emit_var_annotation_override(
    out: &mut String,
    step: u32,
    override_names: &mut Vec<String>,
)
    ensures
        final(out)@ == old(out)@ + var_annotation_text(step as nat),
        views(final(override_names)@) == views(old(override_names)@).push("ov_var_annotation"@),
{
    broadcast use {group_append, group_views};
    reveal(var_annotation_text);
    put(out, "// Step ");
    put_dec(out, step as u128);
    put(out, ": No-op override for llvm.var.annotation (SAL/__attribute__((annotate)))\n");
    put(out, "let var_annotation_spec = do {\n");
    put(out, "    p1 <- llvm_fresh_pointer (llvm_int 8);\n");
    put(out, "    p2 <- llvm_fresh_pointer (llvm_int 8);\n");
    put(out, "    p3 <- llvm_fresh_pointer (llvm_int 8);\n");
    put(out, "    line <- llvm_fresh_var \"line\" (llvm_int 32);\n");
    put(out, "    p4 <- llvm_fresh_pointer (llvm_int 8);\n");
    put(out, "    llvm_execute_func [p1, p2, p3, llvm_term line, p4];\n");
    put(out, "};\n");
    put(
        out,
        "ov_var_annotation <- llvm_unsafe_assume_spec m \"llvm.var.annotation.p0.p0\" var_annotation_spec;\n\n",
    );
    override_names.push(owned("ov_var_annotation"));
}

/// Does another step model the function? The allocation function has a
/// specification of its own, and `memcmp` one with typed pointers.
pub open spec fn modelled_elsewhere(spec: &SpecConstraint) -> bool {
    operator_new(spec) || spec.function_name@ == "memcmp"@ || opt_string(spec.mangled_name)
        == Some("memcmp"@)
}

/// The identifiers of the specifications, each once, in order; those
/// modelled by another step are left out where `external` holds.
pub open spec fn assumed_ids(v: Seq<SpecConstraint>, external: bool) -> Seq<Seq<char>>
    decreases v.len(),
{
    if v.len() == 0 {
        Seq::empty()
    } else {
        let rest = assumed_ids(v.drop_last(), external);
        let spec = v.last();
        let id = sanitized(spec_key(&spec));
        if external && modelled_elsewhere(&spec) || rest.contains(id) {
            rest
        } else {
            rest.push(id)
        }
    }
}

/// Each function is assumed once.
pub proof fn law_assumed_once(v: Seq<SpecConstraint>, external: bool)
    ensures
        assumed_ids(v, external).no_duplicates(),
        forall|i: int|
            0 <= i < v.len() && !(external && modelled_elsewhere(&v[i])) ==> assumed_ids(v, external).contains(
                sanitized(spec_key(&#[trigger] v[i])),
            ),
    decreases v.len(),
{
    if v.len() > 0 {
        law_assumed_once(v.drop_last(), external);
        let rest = assumed_ids(v.drop_last(), external);
        let all = assumed_ids(v, external);
        assert forall|i: int|
            0 <= i < v.len() && !(external && modelled_elsewhere(&v[i])) implies all.contains(
            sanitized(spec_key(&#[trigger] v[i])),
        ) by {
            let id = sanitized(spec_key(&v[i]));
            if i < v.len() - 1 {
                assert(v.drop_last()[i] == v[i]);
                assert(rest.contains(id));
                let k = choose|k: int| 0 <= k < rest.len() && rest[k] == id;
                assert(all[k] == id);
            } else if !rest.contains(id) {
                assert(all[all.len() - 1] == id);
            }
        }
    }
}

/// The lines that read the files of the specifications.
pub open spec fn assumed_lines(ids: Seq<Seq<char>>) -> Seq<char>
    decreases ids.len(),
{
    if ids.len() == 0 {
        nil()
    } else {
        assumed_lines(ids.drop_last()) + assumed_line(ids.last())
    }
}

pub open spec fn assumed_line(id: Seq<char>) -> Seq<char> {
    "include \"specs_experimental/"@ + id + "_auto_spec.saw\";\n"@
}

/// The names that the overrides are bound to.
pub open spec fn bound_names(ids: Seq<Seq<char>>) -> Seq<Seq<char>> {
    Seq::new(ids.len(), |i: int| bound_name(ids[i]))
}

pub open spec fn bound_name(id: Seq<char>) -> Seq<char> {
    "ov_"@ + id
}

fn put_assumed(out: &mut String, names: &mut Vec<String>, id: &str)
    ensures
        final(out)@ == old(out)@ + assumed_line(id@),
        views(final(names)@) == views(old(names)@).push(bound_name(id@)),
{
    broadcast use {group_append, group_views};
    put3(out, "include \"specs_experimental/", id, "_auto_spec.saw\";\n");
    let mut name = String::new();
    put2(&mut name, "ov_", id);
    names.push(name);
}

fn find_assumed(v: &[SpecConstraint], external: bool) -> (ids: Vec<String>)
    ensures
        views(ids@) == assumed_ids(v@, external),
{
    broadcast use {group_append, group_views};
    let mut ids: Vec<String> = Vec::new();
    let mut i: usize = 0;
    assert(v@.take(0) =~= Seq::empty());
    while i < v.len()
        invariant
            i <= v@.len(),
            views(ids@) == assumed_ids(v@.take(i as int), external),
        decreases v@.len() - i,
    {
        assert(v@.take(i + 1).drop_last() =~= v@.take(i as int));
        let spec = &v[i];
        let elsewhere = is_operator_new(spec) || same(spec.function_name.as_str(), "memcmp")
            || is_mangled_as(spec, "memcmp");
        if !(external && elsewhere) {
            let id = spec_safe_id(spec);
            if !list_has(&ids, id.as_str()) {
                ids.push(id);
            }
        }
        i += 1;
    }
    assert(v@.take(v@.len() as int) =~= v@);
    ids
}

fn put_assumed_all(out: &mut String, names: &mut Vec<String>, ids: &Vec<String>)
    ensures
        final(out)@ == old(out)@ + assumed_lines(views(ids@)),
        views(final(names)@) == views(old(names)@) + bound_names(views(ids@)),
{
    broadcast use lemma_append_nothing;
    let ghost v = views(ids@);
    let mut i: usize = 0;
    proof {
        assert(v.take(0) =~= Seq::empty());
        assert(bound_names(v.take(0)) =~= Seq::empty());
        assert(views(names@) + bound_names(v.take(0)) =~= views(names@));
    }
    while i < ids.len()
        invariant
            v == views(ids@),
            i <= ids@.len(),
            out@ == old(out)@ + assumed_lines(v.take(i as int)),
            views(names@) == views(old(names)@) + bound_names(v.take(i as int)),
        decreases ids@.len() - i,
    {
        proof {
            assert(v.take(i + 1).drop_last() =~= v.take(i as int));
            assert(bound_names(v.take(i + 1)) =~= bound_names(v.take(i as int)).push(
                bound_name(v[i as int]),
            ));
            lemma_append_assoc(
                old(out)@,
                assumed_lines(v.take(i as int)),
                assumed_line(v[i as int]),
            );
        }
        put_assumed(out, names, ids[i].as_str());
        i += 1;
    }
    assert(v.take(v.len() as int) =~= v);
}

/// The step that assumes the external functions.
#[verifier::opaque]
pub open spec fn external_step(step: nat, specs: Seq<SpecConstraint>, needs_new: bool) -> Seq<char> {
    let new = only_if(
        needs_new,
        "include \"specs_experimental/operator_new_auto_spec.saw\";\n"@,
    );
    "// Step "@ + dec(step) + ": Assume external functions\n"@
        + assumed_lines(assumed_ids(specs, true)) + new
}

/// The names bound in that step.
pub open spec fn external_names(specs: Seq<SpecConstraint>, needs_new: bool) -> Seq<Seq<char>> {
    bound_names(assumed_ids(specs, true)) + if needs_new {
        seq!["ov_new"@]
    } else {
        Seq::empty()
    }
}

/// Emits the step that assumes the external functions.
pub fn emit_external_overrides_step(
    out: &mut String,
    step: u32,
    external_calls: &[SpecConstraint],
    needs_operator_new: bool,
    override_names: &mut Vec<String>,
)
    ensures
        final(out)@ == old(out)@ + external_step(step as nat, external_calls@, needs_operator_new),
        views(final(override_names)@) == views(old(override_names)@) + external_names(
            external_calls@,
            needs_operator_new,
        ),
{
    broadcast use {group_append, group_views};
    reveal(external_step);
    put(out, "// Step ");
    put_dec(out, step as u128);
    put(out, ": Assume external functions\n");
    let ids = find_assumed(external_calls, true);
    put_assumed_all(out, override_names, &ids);
    if needs_operator_new {
        put(out, "include \"specs_experimental/operator_new_auto_spec.saw\";\n");
        override_names.push(owned("ov_new"));
    }
    assert(views(override_names@) =~= views(old(override_names)@) + external_names(
        external_calls@,
        needs_operator_new,
    ));
}

/// The step that assumes the called functions of the program.
#[verifier::opaque]
pub open spec fn callee_step(step: nat, specs: Seq<SpecConstraint>) -> Seq<char> {
    "// Step "@ + dec(step) + ": Sub-function adversarial overrides (compositional)\n"@
        + assumed_lines(assumed_ids(specs, false)) + "\n"@
}

/// Emits the step that assumes the called functions of the program.
pub fn emit_sub_callee_step(
    out: &mut String,
    step: u32,
    sub_callee_specs: &[SpecConstraint],
    override_names: &mut Vec<String>,
)
    ensures
        final(out)@ == old(out)@ + callee_step(step as nat, sub_callee_specs@),
        views(final(override_names)@) == views(old(override_names)@) + bound_names(
            assumed_ids(sub_callee_specs@, false),
        ),
{
    broadcast use {group_append, group_views};
    reveal(callee_step);
    put(out, "// Step ");
    put_dec(out, step as u128);
    put(out, ": Sub-function adversarial overrides (compositional)\n");
    let ids = find_assumed(sub_callee_specs, false);
    put_assumed_all(out, override_names, &ids);
    put(out, "\n");
}

/// The interface class that a value of the type points to.
pub open spec fn pointed_interface(ty: TypeView, classes: Seq<Seq<char>>) -> Option<Seq<char>> {
    if ty is Pointer {
        interface_name(ty, classes)
    } else {
        None
    }
}

/// The interface class that a value of the type points to.
pub fn interface_of(ty: &TypeInfo, interface_classes: &[String]) -> (r: Option<String>)
    ensures
        opt_string(r) == pointed_interface(ty@, views(interface_classes@)),
{
    if let TypeInfo::Pointer(_) = ty {
        field_interface_name(ty, interface_classes)
    } else {
        None
    }
}

/// The bytes of a result buffer that the Cryptol function takes: some
/// from a position on, of a buffer of the given size.
#[derive(Debug, Clone, Copy, PartialEq, Eq, Structural)]
pub struct SretPrestate {
    pub take_bytes: usize,
    pub drop_bytes: usize,
    pub buf_size: usize,
}

/// What one parameter adds to the specification.
pub struct ParamStep {
    pub declaration: String,
    /// The preconditions, which may speak of other parameters.
    pub deferred: String,
    pub cryptol_arg: Option<String>,
    pub call_arg: String,
}

/// What one parameter adds to the specification.
pub ghost struct StepView {
    pub declaration: Seq<char>,
    pub deferred: Seq<char>,
    pub cryptol_arg: Option<Seq<char>>,
    pub call_arg: Seq<char>,
}

impl View for ParamStep {
    type V = StepView;

    open spec fn view(&self) -> StepView {
        StepView {
            declaration: self.declaration@,
            deferred: self.deferred@,
            cryptol_arg: opt_string(self.cryptol_arg),
            call_arg: self.call_arg@,
        }
    }
}

/// The type of a parameter of the function; `None` for one that only the
/// specification has.
pub open spec fn param_type(params: Seq<ParamInfo>, i: int) -> Option<TypeInfo> {
    if 0 <= i < params.len() {
        Some(params[i].ty)
    } else {
        None
    }
}

/// The Cryptol argument for a variable of a parameter of that type.
pub open spec fn typed_arg(name: Seq<char>, ty: Option<TypeInfo>) -> Seq<char> {
    match ty {
        Some(t) => arg_text(name, t@),
        None => name,
    }
}

/// The lines that allocate an object and fill it with a fresh value.
pub open spec fn object_lines(name: Seq<char>, val: Seq<char>, alloc: Seq<char>, ty: Seq<char>) -> Seq<
    char,
> {
    "    "@ + name + "_ptr <- "@ + alloc + " ("@ + ty + ");\n"@ + "    "@ + val
        + " <- llvm_fresh_var \""@ + val + "\" ("@ + ty + ");\n"@ + "    llvm_points_to "@
        + name + "_ptr (llvm_term "@ + val + ");\n"@
}

pub fn put_object_lines(out: &mut String, name: &str, val: &str, alloc: &str, ty: &str)
    ensures
        final(out)@ == old(out)@ + object_lines(name@, val@, alloc@, ty@),
{
    broadcast use {group_append, group_views};
    put7(out, "    ", name, "_ptr <- ", alloc, " (", ty, ");\n");
    put7(out, "    ", val, " <- llvm_fresh_var \"", val, "\" (", ty, ");\n");
    put5(out, "    llvm_points_to ", name, "_ptr (llvm_term ", val, ");\n");
}

/// The name of the pointer to a parameter's object.
pub open spec fn pointer_name(name: Seq<char>) -> Seq<char> {
    name + "_ptr"@
}

/// An object of an interface class: the stubs' allocator makes it.
pub open spec fn interface_step(name: Seq<char>, class: Seq<char>) -> StepView {
    StepView {
        declaration: "    // "@ + name + " : "@ + class + "* — wire vptr to stub vtable\n"@ + "    "@
            + name + "_ptr <- alloc_"@ + lower_id(class) + "_this;\n"@,
        deferred: nil(),
        cryptol_arg: None,
        call_arg: pointer_name(name),
    }
}

/// An object whose fields hold interfaces.
pub open spec fn container_step(
    name: Seq<char>,
    kinds: Seq<(Seq<char>, Option<Seq<char>>)>,
) -> StepView {
    StepView {
        declaration: container_text(name, kinds),
        deferred: nil(),
        cryptol_arg: None,
        call_arg: pointer_name(name),
    }
}

/// A buffer that the user declares. Its preconditions stand both at the
/// declaration and after all parameters.
pub open spec fn buffer_step(p: &ParamConstraint, buf: &BufferOverrides) -> StepView {
    let name = p.name@;
    let val = buf.value_var(name);
    let ty = match buf.buffer_type(name) {
        Some(t) => t,
        None => p.saw_type@,
    };
    let pre = noteless(p.preconditions@, length_note(name), 0);
    StepView {
        declaration: object_lines(name, val, allocator(buf.out_buffer(name), ty), ty) + pre,
        deferred: pre,
        cryptol_arg: Some(val),
        call_arg: pointer_name(name),
    }
}

/// A value, or an object that a pointer is to.
pub open spec fn plain_step(p: &ParamConstraint, ty: Option<TypeInfo>) -> StepView {
    let name = p.name@;
    let saw = p.saw_type@;
    if p.alloc_type is FreshVar {
        StepView {
            declaration: "    "@ + name + " <- llvm_fresh_var \""@ + name + "\" ("@ + saw + ");\n"@,
            deferred: preconditions(p.preconditions@),
            cryptol_arg: Some(typed_arg(name, ty)),
            call_arg: "llvm_term "@ + name,
        }
    } else {
        let val = if p.out_postcond is Some {
            name + "_pre"@
        } else {
            name
        };
        StepView {
            declaration: object_lines(
                name,
                val,
                allocator(p.alloc_type is AllocMutable, saw),
                saw,
            ),
            deferred: preconditions(p.preconditions@),
            cryptol_arg: Some(typed_arg(val, ty)),
            call_arg: pointer_name(name),
        }
    }
}

/// What a parameter adds to the specification.
pub open spec fn param_step(
    p: &ParamConstraint,
    ty: Option<TypeInfo>,
    classes: Seq<Seq<char>>,
    buf: &BufferOverrides,
) -> StepView {
    let iface = match ty {
        Some(t) => pointed_interface(t@, classes),
        None => None,
    };
    let container = match ty {
        Some(t) => container_of(&t, classes),
        None => None,
    };
    match (iface, container) {
        (Some(class), _) => interface_step(p.name@, class),
        (None, Some(kinds)) => container_step(p.name@, kinds),
        _ => if buf.in_buffer(p.name@) || buf.out_buffer(p.name@) {
            buffer_step(p, buf)
        } else {
            plain_step(p, ty)
        },
    }
}

fn make_pointer_name(name: &str) -> (r: String)
    ensures
        r@ == pointer_name(name@),
{
    broadcast use {group_append, group_views};
    let mut r = String::new();
    put2(&mut r, name, "_ptr");
    r
}

pub fn make_interface_step(name: &str, class: &str) -> (r: ParamStep)
    ensures
        r@ == interface_step(name@, class@),
{
    broadcast use {group_append, group_views};
    let id = sanitize_lower(class);
    let mut text = String::new();
    put5(&mut text, "    // ", name, " : ", class, "* — wire vptr to stub vtable\n");
    put5(&mut text, "    ", name, "_ptr <- alloc_", id.as_str(), "_this;\n");
    ParamStep {
        declaration: text,
        deferred: String::new(),
        cryptol_arg: None,
        call_arg: make_pointer_name(name),
    }
}

pub fn make_container_step(name: &str, fields: &[FieldKind]) -> (r: ParamStep)
    ensures
        r@ == container_step(name@, kinds_view(fields@)),
{
    broadcast use {group_append, group_views};
    let mut text = String::new();
    emit_container_this(&mut text, name, fields);
    ParamStep {
        declaration: text,
        deferred: String::new(),
        cryptol_arg: None,
        call_arg: make_pointer_name(name),
    }
}

fn make_buffer_step(p: &ParamConstraint, buf: &BufferOverrides) -> (r: ParamStep)
    ensures
        r@ == buffer_step(p, buf),
{
    broadcast use {group_append, group_views};
    let name = p.name.as_str();
    let val = buf.value_var_for(name);
    let ty = match buf.override_saw_type(name) {
        Some(t) => t,
        None => p.saw_type.clone(),
    };
    let alloc = object_allocator(buf.is_out_buffer(name), ty.as_str());
    let mut text = String::new();
    put_object_lines(&mut text, name, val.as_str(), alloc.as_str(), ty.as_str());
    emit_param_preconditions_filtered(&mut text, p.preconditions.as_slice(), name);
    let mut deferred = String::new();
    emit_param_preconditions_filtered(&mut deferred, p.preconditions.as_slice(), name);
    ParamStep {
        declaration: text,
        deferred,
        cryptol_arg: Some(val),
        call_arg: make_pointer_name(name),
    }
}

fn make_typed_arg(name: &str, ty: Option<&TypeInfo>) -> (r: String)
    ensures
        r@ == typed_arg(
            name@,
            match ty {
                Some(t) => Some(*t),
                None => None,
            },
        ),
{
    match ty {
        Some(t) => cryptol_arg_for(name, t),
        None => owned(name),
    }
}

fn make_plain_step(p: &ParamConstraint, ty: Option<&TypeInfo>) -> (r: ParamStep)
    ensures
        r@ == plain_step(
            p,
            match ty {
                Some(t) => Some(*t),
                None => None,
            },
        ),
{
    let name = p.name.as_str();
    let saw = p.saw_type.as_str();
    let mut text = String::new();
    let mut deferred = String::new();
    emit_param_preconditions(&mut deferred, p.preconditions.as_slice());
    match p.alloc_type {
        AllocType::FreshVar => {
            put7(&mut text, "    ", name, " <- llvm_fresh_var \"", name, "\" (", saw, ");\n");
            let mut call_arg = String::new();
            put2(&mut call_arg, "llvm_term ", name);
            ParamStep {
                declaration: text,
                deferred,
                cryptol_arg: Some(make_typed_arg(name, ty)),
                call_arg,
            }
        },
        AllocType::AllocReadonly | AllocType::AllocMutable => {
            let mutable = match p.alloc_type {
                AllocType::AllocMutable => true,
                _ => false,
            };
            let mut val = owned(name);
            if p.out_postcond.is_some() {
                put(&mut val, "_pre");
            }
            let alloc = object_allocator(mutable, saw);
            put_object_lines(&mut text, name, val.as_str(), alloc.as_str(), saw);
            ParamStep {
                declaration: text,
                deferred,
                cryptol_arg: Some(make_typed_arg(val.as_str(), ty)),
                call_arg: make_pointer_name(name),
            }
        },
    }
}

fn make_param_step(
    p: &ParamConstraint,
    ty: Option<&TypeInfo>,
    interface_classes: &[String],
    buf: &BufferOverrides,
) -> (r: ParamStep)
    ensures
        r@ == param_step(
            p,
            match ty {
                Some(t) => Some(*t),
                None => None,
            },
            views(interface_classes@),
            buf,
        ),
{
    if let Some(t) = ty {
        if let Some(class) = interface_of(t, interface_classes) {
            return make_interface_step(p.name.as_str(), class.as_str());
        }
        if let Some(fields) = container_layout_for(t, interface_classes) {
            return make_container_step(p.name.as_str(), fields.as_slice());
        }
    }
    if buf.has_in_buffer_size(p.name.as_str()) || buf.is_out_buffer(p.name.as_str()) {
        make_buffer_step(p, buf)
    } else {
        make_plain_step(p, ty)
    }
}

/// What each parameter adds to the specification.
pub open spec fn param_steps(
    params: Seq<ParamConstraint>,
    fn_params: Seq<ParamInfo>,
    classes: Seq<Seq<char>>,
    buf: &BufferOverrides,
) -> Seq<StepView> {
    Seq::new(params.len(), |i: int| param_step(&params[i], param_type(fn_params, i), classes, buf))
}

pub open spec fn steps_view(v: Seq<ParamStep>) -> Seq<StepView> {
    Seq::new(v.len(), |i: int| v[i]@)
}

fn make_param_steps(
    params: &[ParamConstraint],
    fn_params: &[ParamInfo],
    interface_classes: &[String],
    buf: &BufferOverrides,
) -> (r: Vec<ParamStep>)
    ensures
        steps_view(r@) == param_steps(params@, fn_params@, views(interface_classes@), buf),
{
    broadcast use {group_append, group_views};
    let mut r: Vec<ParamStep> = Vec::new();
    let mut i: usize = 0;
    let ghost want = param_steps(params@, fn_params@, views(interface_classes@), buf);
    while i < params.len()
        invariant
            want == param_steps(params@, fn_params@, views(interface_classes@), buf),
            i <= params@.len(),
            r@.len() == i,
            forall|k: int| 0 <= k < i ==> (#[trigger] r@[k])@ == want[k],
        decreases params@.len() - i,
    {
        let ty = if i < fn_params.len() {
            Some(&fn_params[i].ty)
        } else {
            None
        };
        r.push(make_param_step(&params[i], ty, interface_classes, buf));
        i += 1;
    }
    assert(steps_view(r@) =~= want);
    r
}

/// The declarations of the parameters.
pub open spec fn declarations(v: Seq<StepView>) -> Seq<char>
    decreases v.len(),
{
    if v.len() == 0 {
        nil()
    } else {
        declarations(v.drop_last()) + v.last().declaration
    }
}

/// The declarations of the parameters.
pub fn put_declarations(out: &mut String, v: &[ParamStep])
    ensures
        final(out)@ == old(out)@ + declarations(steps_view(v@)),
{
    broadcast use lemma_append_nothing;
    let ghost w = steps_view(v@);
    let mut i: usize = 0;
    assert(declarations(w.take(0)) =~= nil());
    while i < v.len()
        invariant
            w == steps_view(v@),
            i <= v@.len(),
            out@ == old(out)@ + declarations(w.take(i as int)),
        decreases v@.len() - i,
    {
        proof {
            assert(w.take(i + 1).drop_last() =~= w.take(i as int));
            assert(w.take(i + 1).last() == v@[i as int]@);
            lemma_append_assoc(old(out)@, declarations(w.take(i as int)), w[i as int].declaration);
        }
        put(out, v[i].declaration.as_str());
        i += 1;
    }
    assert(w.take(w.len() as int) =~= w);
}

/// The preconditions that may speak of all parameters.
pub open spec fn late_preconditions(v: Seq<StepView>) -> Seq<char>
    decreases v.len(),
{
    if v.len() == 0 {
        nil()
    } else {
        late_preconditions(v.drop_last()) + v.last().deferred
    }
}

/// The preconditions that may speak of all parameters.
fn put_late_preconditions(out: &mut String, v: &[ParamStep])
    ensures
        final(out)@ == old(out)@ + late_preconditions(steps_view(v@)),
{
    broadcast use lemma_append_nothing;
    let ghost w = steps_view(v@);
    let mut i: usize = 0;
    assert(late_preconditions(w.take(0)) =~= nil());
    while i < v.len()
        invariant
            w == steps_view(v@),
            i <= v@.len(),
            out@ == old(out)@ + late_preconditions(w.take(i as int)),
        decreases v@.len() - i,
    {
        proof {
            assert(w.take(i + 1).drop_last() =~= w.take(i as int));
            assert(w.take(i + 1).last() == v@[i as int]@);
            lemma_append_assoc(old(out)@, late_preconditions(w.take(i as int)), w[i as int].deferred);
        }
        put(out, v[i].deferred.as_str());
        i += 1;
    }
    assert(w.take(w.len() as int) =~= w);
}

/// A list of the one item, or of none.
pub open spec fn opt_item(o: Option<Seq<char>>) -> Seq<Seq<char>> {
    match o {
        Some(s) => seq![s],
        None => Seq::empty(),
    }
}

/// The arguments of the Cryptol function.
pub open spec fn cryptol_args_item(s: StepView) -> Seq<Seq<char>> {
    opt_item(s.cryptol_arg)
}

fn put_cryptol_args_item(out: &mut Vec<String>, s: &ParamStep)
    ensures
        views(final(out)@) == views(old(out)@) + cryptol_args_item(s@),
{
    broadcast use {group_append, group_views};
    if let Some(a) = &s.cryptol_arg {
        out.push(a.clone());
    }
}

/// The arguments of the Cryptol function.
pub open spec fn cryptol_args(v: Seq<StepView>) -> Seq<Seq<char>>
    decreases v.len(),
{
    if v.len() == 0 {
        Seq::empty()
    } else {
        cryptol_args(v.drop_last()) + cryptol_args_item(v.last())
    }
}

/// The arguments of the Cryptol function.
pub fn put_cryptol_args(out: &mut Vec<String>, v: &[ParamStep])
    ensures
        views(final(out)@) == views(old(out)@) + cryptol_args(steps_view(v@)),
{
    broadcast use lemma_append_nothing;
    let ghost w = steps_view(v@);
    let mut i: usize = 0;
    assert(cryptol_args(w.take(0)) =~= Seq::<Seq<char>>::empty());
    while i < v.len()
        invariant
            w == steps_view(v@),
            i <= v@.len(),
            views(out@) == views(old(out)@) + cryptol_args(w.take(i as int)),
        decreases v@.len() - i,
    {
        proof {
            assert(w.take(i + 1).drop_last() =~= w.take(i as int));
            assert(w.take(i + 1).last() == v@[i as int]@);
            lemma_append_assoc(views(old(out)@), cryptol_args(w.take(i as int)), cryptol_args_item(w[i as int]));
        }
        put_cryptol_args_item(out, &v[i]);
        i += 1;
    }
    assert(w.take(w.len() as int) =~= w);
}

/// The arguments of the call.
pub open spec fn call_args(v: Seq<StepView>) -> Seq<Seq<char>>
    decreases v.len(),
{
    if v.len() == 0 {
        Seq::empty()
    } else {
        call_args(v.drop_last()) + seq![v.last().call_arg]
    }
}

/// The arguments of the call.
pub fn put_call_args(out: &mut Vec<String>, v: &[ParamStep])
    ensures
        views(final(out)@) == views(old(out)@) + call_args(steps_view(v@)),
{
    broadcast use lemma_append_nothing;
    let ghost w = steps_view(v@);
    let mut i: usize = 0;
    assert(call_args(w.take(0)) =~= Seq::<Seq<char>>::empty());
    while i < v.len()
        invariant
            w == steps_view(v@),
            i <= v@.len(),
            views(out@) == views(old(out)@) + call_args(w.take(i as int)),
        decreases v@.len() - i,
    {
        proof {
            assert(w.take(i + 1).drop_last() =~= w.take(i as int));
            assert(w.take(i + 1).last() == v@[i as int]@);
            lemma_append_assoc(views(old(out)@), call_args(w.take(i as int)), seq![w[i as int].call_arg]);
        }
        out.push(v[i].call_arg.clone());
        i += 1;
    }
    assert(w.take(w.len() as int) =~= w);
}

/// The length of an array type of SAW, where it is written out.
pub open spec fn array_len(saw_type: Seq<char>) -> Option<nat> {
    match after_prefix(saw_type, "llvm_array "@) {
        Some(s) => {
            let end = skip(s, CharSet::Digit, 0);
            if end < s.len() {
                parsed(s.take(end), usize::MAX as nat)
            } else {
                None
            }
        },
        None => None,
    }
}

/// Is the prestate handed over whole?
pub open spec fn whole_prestate(pre: SretPrestate, saw_type: Seq<char>) -> bool {
    pre.drop_bytes == 0 && match array_len(saw_type) {
        Some(n) => pre.take_bytes >= n,
        None => true,
    }
}

/// The type of the variable for the bytes before the call.
pub open spec fn prestate_type(pre: SretPrestate, saw_type: Seq<char>) -> Seq<char> {
    if pre.drop_bytes > 0 && pre.buf_size > 0 {
        "llvm_array "@ + dec(pre.buf_size as nat) + " (llvm_int 8)"@
    } else {
        saw_type
    }
}

/// The declaration of a result that is returned through a pointer.
pub open spec fn sret_text(spec: &SpecConstraint, pre: Option<SretPrestate>) -> Seq<char> {
    let ty = spec.return_constraint.saw_type@;
    let head = "\n    // sret: aggregate return passed via hidden output pointer.\n"@
        + "    result_ptr <- llvm_alloc ("@ + ty + ");\n"@;
    match pre {
        Some(p) => head + "    preBytes <- llvm_fresh_var \"preBytes\" ("@ + prestate_type(p, ty)
            + ");\n"@ + "    llvm_points_to result_ptr (llvm_term preBytes);\n"@,
        None => if spec.return_constraint.sret_prestate {
            head + "    result_pre <- llvm_fresh_var \"result_pre\" ("@ + ty + ");\n"@
                + "    llvm_points_to result_ptr (llvm_term result_pre);\n"@
        } else {
            head
        },
    }
}

/// The last Cryptol argument where the function takes the prestate.
pub open spec fn sret_arg(spec: &SpecConstraint, pre: Option<SretPrestate>) -> Option<Seq<char>> {
    match pre {
        Some(p) => if whole_prestate(p, spec.return_constraint.saw_type@) {
            Some("preBytes"@)
        } else {
            Some("(take`{"@ + dec(p.take_bytes as nat) + "} (drop`{"@ + dec(p.drop_bytes as nat)
                + "} preBytes))"@)
        },
        None => if spec.return_constraint.sret_prestate {
            Some("result_pre"@)
        } else {
            None
        },
    }
}

fn parse_array_len(saw_type: &str) -> (r: Option<usize>)
    ensures
        match r {
            Some(n) => array_len(saw_type@) == Some(n as nat),
            None => array_len(saw_type@) is None,
        },
{
    match strip_prefix(saw_type, "llvm_array ") {
        Some(s) => {
            let cs = to_chars(s);
            let end = skip_chars(&cs, CharSet::Digit, 0);
            if end < cs.len() {
                let digits = from_chars(&cs, 0, end);
                match parse_bounded(digits.as_str(), usize::MAX as u64) {
                    Some(n) => Some(n as usize),
                    None => None,
                }
            } else {
                None
            }
        },
        None => None,
    }
}

fn make_prestate_type(pre: &SretPrestate, saw_type: &str) -> (r: String)
    ensures
        r@ == prestate_type(*pre, saw_type@),
{
    broadcast use {group_append, group_views};
    let mut r = String::new();
    if pre.drop_bytes > 0 && pre.buf_size > 0 {
        put(&mut r, "llvm_array ");
        put_dec(&mut r, pre.buf_size as u128);
        put(&mut r, " (llvm_int 8)");
    } else {
        put(&mut r, saw_type);
    }
    r
}

fn put_sret(out: &mut String, spec: &SpecConstraint, pre: Option<&SretPrestate>)
    ensures
        final(out)@ == old(out)@ + sret_text(
            spec,
            match pre {
                Some(p) => Some(*p),
                None => None,
            },
        ),
{
    let ty = spec.return_constraint.saw_type.as_str();
    put(out, "\n    // sret: aggregate return passed via hidden output pointer.\n");
    put3(out, "    result_ptr <- llvm_alloc (", ty, ");\n");
    match pre {
        Some(p) => {
            put3(
                out,
                "    preBytes <- llvm_fresh_var \"preBytes\" (",
                make_prestate_type(p, ty).as_str(),
                ");\n",
            );
            put(out, "    llvm_points_to result_ptr (llvm_term preBytes);\n");
        },
        None => {
            if spec.return_constraint.sret_prestate {
                put3(out, "    result_pre <- llvm_fresh_var \"result_pre\" (", ty, ");\n");
                put(out, "    llvm_points_to result_ptr (llvm_term result_pre);\n");
            }
        },
    }
}

fn make_sret_arg(spec: &SpecConstraint, pre: Option<&SretPrestate>) -> (r: Option<String>)
    ensures
        opt_string(r) == sret_arg(
            spec,
            match pre {
                Some(p) => Some(*p),
                None => None,
            },
        ),
{
    match pre {
        Some(p) => {
            let whole = p.drop_bytes == 0 && match parse_array_len(
                spec.return_constraint.saw_type.as_str(),
            ) {
                Some(n) => p.take_bytes >= n,
                None => true,
            };
            if whole {
                Some(owned("preBytes"))
            } else {
                let mut s = String::new();
                put(&mut s, "(take`{");
                put_dec(&mut s, p.take_bytes as u128);
                put(&mut s, "} (drop`{");
                put_dec(&mut s, p.drop_bytes as u128);
                put(&mut s, "} preBytes))");
                Some(s)
            }
        },
        None => if spec.return_constraint.sret_prestate {
            Some(owned("result_pre"))
        } else {
            None
        },
    }
}

/// The place of the hidden pointer among the arguments: behind `this`
/// where the function has it, else at the front.
pub open spec fn sret_place(fn_params: Seq<ParamInfo>, args: int) -> int {
    if fn_params.len() > 0 && fn_params[0].name@ == "this"@ && args > 0 {
        1
    } else {
        0
    }
}

/// A call of a Cryptol function.
pub open spec fn call_text(name: Seq<char>, args: Seq<Seq<char>>) -> Seq<char> {
    if args.len() == 0 {
        name
    } else {
        name + " "@ + joined(args, " "@)
    }
}

/// A call of a Cryptol function.
pub fn make_call(name: &str, args: &Vec<String>) -> (r: String)
    ensures
        r@ == call_text(name@, views(args@)),
{
    broadcast use {group_append, group_views};
    let mut r = owned(name);
    if args.len() > 0 {
        put2(&mut r, " ", join(args, " ").as_str());
    }
    r
}

/// The arguments of a Cryptol function: the declared ones, else those of
/// the parameters.
pub open spec fn fn_args(buf: &BufferOverrides, name: Seq<char>, args: Seq<Seq<char>>) -> Seq<
    Seq<char>,
> {
    match buf.call_args(name) {
        Some(declared) => declared,
        None => args,
    }
}

/// A call of a Cryptol function with the arguments that it takes.
pub fn make_fn_call(buf: &BufferOverrides, name: &str, args: &Vec<String>) -> (r: String)
    ensures
        r@ == call_text(name@, fn_args(buf, name@, views(args@))),
{
    match buf.cryptol_call_args(name) {
        Some(declared) => make_call(name, &declared),
        None => make_call(name, args),
    }
}

/// The greatest values of the length parameters.
pub open spec fn length_bounds_item(b: (String, String)) -> Seq<char> {
    "    llvm_precond {{ `"@ + b.1@ + " >= "@ + b.0@ + " }};\n"@
}

fn put_length_bounds_item(out: &mut String, b: &(String, String))
    ensures
        final(out)@ == old(out)@ + length_bounds_item(*b),
{
    broadcast use {group_append, group_views};
    put5(out, "    llvm_precond {{ `", b.1.as_str(), " >= ", b.0.as_str(), " }};\n");
}

/// The greatest values of the length parameters.
pub open spec fn length_bounds(v: Seq<(String, String)>) -> Seq<char>
    decreases v.len(),
{
    if v.len() == 0 {
        nil()
    } else {
        length_bounds(v.drop_last()) + length_bounds_item(v.last())
    }
}

/// The greatest values of the length parameters.
fn put_length_bounds(out: &mut String, v: &[(String, String)])
    ensures
        final(out)@ == old(out)@ + length_bounds(v@),
{
    broadcast use lemma_append_nothing;
    let mut i: usize = 0;
    assert(length_bounds(v@.take(0)) =~= nil());
    while i < v.len()
        invariant
            i <= v@.len(),
            out@ == old(out)@ + length_bounds(v@.take(i as int)),
        decreases v@.len() - i,
    {
        proof {
            assert(v@.take(i + 1).drop_last() =~= v@.take(i as int));
            lemma_append_assoc(old(out)@, length_bounds(v@.take(i as int)), length_bounds_item(v@[i as int]));
        }
        put_length_bounds_item(out, &v[i]);
        i += 1;
    }
    assert(v@.take(v@.len() as int) =~= v@);
}

/// The preconditions that the user declares.
pub open spec fn declared_preconditions(buf: &BufferOverrides, args: Seq<Seq<char>>) -> Seq<char> {
    length_bounds(buf.max_len_preconds@) + only_if(buf.max_len_preconds@.len() > 0, "\n"@) + match buf.cryptol_fn_pre {
        Some(f) => "    llvm_precond {{ "@ + call_text(f@, fn_args(buf, f@, args)) + " }};\n\n"@,
        None => nil(),
    }
}

fn put_declared_preconditions(out: &mut String, buf: &BufferOverrides, args: &Vec<String>)
    ensures
        final(out)@ == old(out)@ + declared_preconditions(buf, views(args@)),
{
    broadcast use {group_append, group_views};
    put_length_bounds(out, buf.max_len_preconds.as_slice());
    if buf.max_len_preconds.len() > 0 {
        put(out, "\n");
    }
    if let Some(f) = &buf.cryptol_fn_pre {
        put3(out, "    llvm_precond {{ ", make_fn_call(buf, f.as_str(), args).as_str(), " }};\n\n");
    }
}

/// The width of the value that a global variable starts with.
pub open spec fn value_bits(ty: TypeView) -> nat {
    match ty {
        TypeView::SignedInt(b) => b as nat,
        TypeView::UnsignedInt(b) => b as nat,
        TypeView::Bool => 1,
        _ => 32,
    }
}

/// Each global variable is allocated and holds what it starts with.
pub open spec fn global_setup_item(g: GlobalView) -> Seq<char> {
    let name = g.mangled_name;
    let value = match g.init_value {
        Some(init) => "    llvm_points_to (llvm_global \""@ + name + "\") (llvm_term {{ "@ + init
            + " : ["@ + dec(value_bits(g.ty)) + "] }});\n"@,
        None => if g.has_static_initializer {
            "    llvm_points_to (llvm_global \""@ + name
                + "\") (llvm_global_initializer \""@ + name + "\");\n"@
        } else {
            nil()
        },
    };
    "    llvm_alloc_global \""@ + name + "\";\n"@ + value + "\n"@
}

fn put_global_setup_item(out: &mut String, g: &GlobalVarInfo)
    ensures
        final(out)@ == old(out)@ + global_setup_item(g@),
{
    broadcast use {group_append, group_views};
    let name = g.mangled_name.as_str();
    put3(out, "    llvm_alloc_global \"", name, "\";\n");
    if let Some(init) = &g.init_value {
        let bits: u32 = match &g.ty {
            TypeInfo::SignedInt(b) => *b,
            TypeInfo::UnsignedInt(b) => *b,
            TypeInfo::Bool => 1,
            _ => 32,
        };
        put5(
            out,
            "    llvm_points_to (llvm_global \"",
            name,
            "\") (llvm_term {{ ",
            init.as_str(),
            " : [",
        );
        put_dec(out, bits as u128);
        put(out, "] }});\n");
    } else if g.has_static_initializer {
        put5(
            out,
            "    llvm_points_to (llvm_global \"",
            name,
            "\") (llvm_global_initializer \"",
            name,
            "\");\n",
        );
    }
    put(out, "\n");
}

/// Each global variable is allocated and holds what it starts with.
pub open spec fn global_setup(v: Seq<GlobalView>) -> Seq<char>
    decreases v.len(),
{
    if v.len() == 0 {
        nil()
    } else {
        global_setup(v.drop_last()) + global_setup_item(v.last())
    }
}

/// Each global variable is allocated and holds what it starts with.
pub fn put_global_setup(out: &mut String, v: &[GlobalVarInfo])
    ensures
        final(out)@ == old(out)@ + global_setup(globals_view(v@)),
{
    broadcast use lemma_append_nothing;
    let ghost w = globals_view(v@);
    let mut i: usize = 0;
    assert(global_setup(w.take(0)) =~= nil());
    while i < v.len()
        invariant
            w == globals_view(v@),
            i <= v@.len(),
            out@ == old(out)@ + global_setup(w.take(i as int)),
        decreases v@.len() - i,
    {
        proof {
            assert(w.take(i + 1).drop_last() =~= w.take(i as int));
            assert(w.take(i + 1).last() == v@[i as int]@);
            lemma_append_assoc(old(out)@, global_setup(w.take(i as int)), global_setup_item(w[i as int]));
        }
        put_global_setup_item(out, &v[i]);
        i += 1;
    }
    assert(w.take(w.len() as int) =~= w);
}

/// The arguments of the Cryptol function, in the order of the
/// parameters; the prestate of the result comes last.
pub open spec fn equiv_cryptol_args(
    spec: &SpecConstraint,
    steps: Seq<StepView>,
    pre: Option<SretPrestate>,
) -> Seq<Seq<char>> {
    if spec.return_constraint.is_sret {
        cryptol_args(steps) + opt_item(sret_arg(spec, pre))
    } else {
        cryptol_args(steps)
    }
}

/// The arguments of the call, with the hidden pointer in its place.
pub open spec fn equiv_call_args(
    spec: &SpecConstraint,
    fn_params: Seq<ParamInfo>,
    steps: Seq<StepView>,
) -> Seq<Seq<char>> {
    let args = call_args(steps);
    if spec.return_constraint.is_sret {
        args.insert(sret_place(fn_params, args.len() as int), "result_ptr"@)
    } else {
        args
    }
}

/// The specification of the verified function up to the call.
pub open spec fn equiv_text(
    step: nat,
    function: Seq<char>,
    cryptol_fn: Seq<char>,
    spec: &SpecConstraint,
    steps: Seq<StepView>,
    globals: Seq<GlobalView>,
    pre: Option<SretPrestate>,
    buf: &BufferOverrides,
) -> Seq<char> {
    "// Step "@ + dec(step) + ": Equivalence spec — C++ "@ + function + " == Cryptol "@
        + cryptol_fn + "\n"@ + "let "@ + function + "_equiv_spec = do {\n"@
        + declarations(steps) + late_preconditions(steps)
        + only_if(spec.return_constraint.is_sret, sret_text(spec, pre)) + "\n"@
        + declared_preconditions(buf, equiv_cryptol_args(spec, steps, pre))
        + global_setup(globals)
}

/// Each parameter is passed to the call, and the hidden pointer of a
/// result exactly where the result is returned through one.
pub proof fn law_every_parameter_is_passed(
    spec: &SpecConstraint,
    fn_params: Seq<ParamInfo>,
    steps: Seq<StepView>,
)
    ensures
        equiv_call_args(spec, fn_params, steps).len() == steps.len() + if spec.return_constraint.is_sret {
            1int
        } else {
            0
        },
        forall|i: int|
            0 <= i < steps.len() ==> equiv_call_args(spec, fn_params, steps).contains(
                (#[trigger] steps[i]).call_arg,
            ),
        spec.return_constraint.is_sret ==> equiv_call_args(spec, fn_params, steps)[sret_place(
            fn_params,
            steps.len() as int,
        )] == "result_ptr"@,
{
    lemma_call_args(steps);
    let args = call_args(steps);
    let all = equiv_call_args(spec, fn_params, steps);
    let at = sret_place(fn_params, args.len() as int);
    assert forall|i: int| 0 <= i < steps.len() implies all.contains(
        (#[trigger] steps[i]).call_arg,
    ) by {
        assert(args[i] == steps[i].call_arg);
        if spec.return_constraint.is_sret {
            if i < at {
                assert(all[i] == args[i]);
            } else {
                assert(all[i + 1] == args[i]);
            }
        } else {
            assert(all[i] == args[i]);
        }
    }
}

pub proof fn lemma_call_args(steps: Seq<StepView>)
    ensures
        call_args(steps).len() == steps.len(),
        forall|i: int| 0 <= i < steps.len() ==> #[trigger] call_args(steps)[i] == steps[i].call_arg,
    decreases steps.len(),
{
    if steps.len() > 0 {
        lemma_call_args(steps.drop_last());
        assert(call_args(steps) == call_args(steps.drop_last()) + seq![steps.last().call_arg]);
        assert forall|i: int| 0 <= i < steps.len() implies #[trigger] call_args(steps)[i]
            == steps[i].call_arg by {
            if i < steps.len() - 1 {
                assert(call_args(steps.drop_last())[i] == steps.drop_last()[i].call_arg);
            }
        }
    }
}

fn make_equiv_args(
    target_spec: &SpecConstraint,
    fn_params: &[ParamInfo],
    steps: &[ParamStep],
    sret_prestate: Option<&SretPrestate>,
) -> (r: (Vec<String>, Vec<String>))
    ensures
        views(r.0@) == equiv_cryptol_args(
            target_spec,
            steps_view(steps@),
            match sret_prestate {
                Some(p) => Some(*p),
                None => None,
            },
        ),
        views(r.1@) == equiv_call_args(target_spec, fn_params@, steps_view(steps@)),
{
    broadcast use group_views;
    let mut cry: Vec<String> = Vec::new();
    put_cryptol_args(&mut cry, steps);
    assert(views(cry@) =~= cryptol_args(steps_view(steps@)));
    let mut call: Vec<String> = Vec::new();
    put_call_args(&mut call, steps);
    assert(views(call@) =~= call_args(steps_view(steps@)));
    if target_spec.return_constraint.is_sret {
        if let Some(a) = make_sret_arg(target_spec, sret_prestate) {
            cry.push(a);
        }
        let place: usize = if fn_params.len() > 0 && same(fn_params[0].name.as_str(), "this")
            && call.len() > 0 {
            1
        } else {
            0
        };
        let ghost before = views(call@);
        let ghost slots = call@;
        let hidden = owned("result_ptr");
        let ghost h = hidden;
        call.insert(place, hidden);
        assert(call@ == slots.insert(place as int, h));
        assert(views(call@) =~= before.insert(place as int, "result_ptr"@));
        assert(views(cry@) =~= equiv_cryptol_args(
            target_spec,
            steps_view(steps@),
            match sret_prestate {
                Some(p) => Some(*p),
                None => None,
            },
        ));
    }
    (cry, call)
}

#[verifier::rlimit(40)]
fn put_equiv_text(
    out: &mut String,
    step: u32,
    function_name: &str,
    cryptol_fn: &str,
    target_spec: &SpecConstraint,
    steps: &[ParamStep],
    args: &Vec<String>,
    all_globals: &[GlobalVarInfo],
    sret_prestate: Option<&SretPrestate>,
    buffer_overrides: &BufferOverrides,
)
    requires
        views(args@) == equiv_cryptol_args(
            target_spec,
            steps_view(steps@),
            match sret_prestate {
                Some(p) => Some(*p),
                None => None,
            },
        ),
    ensures
        final(out)@ == old(out)@ + equiv_text(
            step as nat,
            function_name@,
            cryptol_fn@,
            target_spec,
            steps_view(steps@),
            globals_view(all_globals@),
            match sret_prestate {
                Some(p) => Some(*p),
                None => None,
            },
            buffer_overrides,
        ),
{
    put(out, "// Step ");
    put_dec(out, step as u128);
    put5(out, ": Equivalence spec — C++ ", function_name, " == Cryptol ", cryptol_fn, "\n");
    put3(out, "let ", function_name, "_equiv_spec = do {\n");
    put_declarations(out, steps);
    put_late_preconditions(out, steps);
    if target_spec.return_constraint.is_sret {
        put_sret(out, target_spec, sret_prestate);
    }
    put(out, "\n");
    put_declared_preconditions(out, buffer_overrides, args);
    put_global_setup(out, all_globals);
}

/// Emits the specification of the verified function up to the call, and
/// gives the arguments of the Cryptol function and of the call.
pub fn emit_equiv_spec_body(
    out: &mut String,
    step: u32,
    function_name: &str,
    cryptol_fn: &str,
    target_spec: &SpecConstraint,
    target_fn: &FunctionInfo,
    interface_classes: &[String],
    all_globals: &[GlobalVarInfo],
    sret_prestate: Option<&SretPrestate>,
    buffer_overrides: &BufferOverrides,
) -> (r: (Vec<String>, Vec<String>))
    ensures
        ({
            let steps = param_steps(
                target_spec.params@,
                target_fn.params@,
                views(interface_classes@),
                buffer_overrides,
            );
            let pre = match sret_prestate {
                Some(p) => Some(*p),
                None => None,
            };
            &&& final(out)@ == old(out)@ + equiv_text(
                step as nat,
                function_name@,
                cryptol_fn@,
                target_spec,
                steps,
                globals_view(all_globals@),
                pre,
                buffer_overrides,
            )
            &&& views(r.0@) == equiv_cryptol_args(target_spec, steps, pre)
            &&& views(r.1@) == equiv_call_args(target_spec, target_fn.params@, steps)
        }),
{
    let steps = make_param_steps(
        target_spec.params.as_slice(),
        target_fn.params.as_slice(),
        interface_classes,
        buffer_overrides,
    );
    let args = make_equiv_args(
        target_spec,
        target_fn.params.as_slice(),
        steps.as_slice(),
        sret_prestate,
    );
    put_equiv_text(
        out,
        step,
        function_name,
        cryptol_fn,
        target_spec,
        steps.as_slice(),
        &args.0,
        all_globals,
        sret_prestate,
        buffer_overrides,
    );
    args
}

} // verus!
