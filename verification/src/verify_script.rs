//! The complete script that checks a function against a Cryptol
//! specification.

use vstd::prelude::*;

use crate::bitcode_overrides::EmittedBitcodeOverrides;
use crate::buffer_overrides::BufferOverrides;
use crate::constraints::{
    globals_view, ClassConstructor, FunctionInfo, GlobalVarInfo, GlobalView, InterfaceMethod,
    ParamConstraint, SpecConstraint, TypeInfo,
};
use crate::cryptol_bridge::result_text;
use crate::llvm_spec::GeneratedFile;
use crate::stubs::AssembledStubs;
use crate::text::{
    dec, group_append, group_views, only_if, owned, pairs_view, put, put3, put5, put_dec, views,
};
use crate::verify_script_close::{
    InterfaceCtx, PostconditionCtx, close_text, emit_postcondition_and_close, emit_verify_step,
    return_text, used_overrides, verify_text,
};
use crate::verify_script_steps::{
    SretPrestate, StepView, assumed_ids, bound_names, call_text, callee_step, emit_equiv_spec_body,
    emit_external_overrides_step, emit_load_bitcode_step, emit_sub_callee_step,
    emit_var_annotation_override, equiv_call_args, equiv_cryptol_args, equiv_text, external_names,
    external_step, fn_args, is_operator_new, load_text, operator_new, param_steps,
    var_annotation_text,
};

verus! {

/// The head of the script.
pub open spec fn header_text(
    function: Seq<char>,
    mangled: Seq<char>,
    cryptol: Seq<char>,
    cryptol_fn: Seq<char>,
    experimental: bool,
) -> Seq<char> {
    let enable = only_if(experimental, "enable_experimental;\n\n"@);
    "// Auto-generated by saw-spec-gen gen-verify\n"@ + "// Function: "@ + function + " ("@
        + mangled + ")\n"@ + "// Cryptol:  "@ + cryptol_fn + " in "@ + cryptol + "\n\n"@
        + enable
}

fn emit_header(
    out: &mut String,
    function_name: &str,
    mangled_name: &str,
    cryptol_rel: &str,
    cryptol_fn: &str,
    needs_experimental: bool,
)
    ensures
        final(out)@ == old(out)@ + header_text(
            function_name@,
            mangled_name@,
            cryptol_rel@,
            cryptol_fn@,
            needs_experimental,
        ),
{
    broadcast use {group_append, group_views};
    put(out, "// Auto-generated by saw-spec-gen gen-verify\n");
    put5(out, "// Function: ", function_name, " (", mangled_name, ")\n");
    put5(out, "// Cryptol:  ", cryptol_fn, " in ", cryptol_rel, "\n\n");
    if needs_experimental {
        put(out, "enable_experimental;\n\n");
    }
}

/// The output parameters with the Cryptol functions of what they hold.
pub open spec fn annotated_params(v: Seq<ParamConstraint>) -> Seq<(Seq<char>, Seq<char>)>
    decreases v.len(),
{
    if v.len() == 0 {
        Seq::empty()
    } else {
        let rest = annotated_params(v.drop_last());
        match v.last().out_postcond {
            Some(f) => rest.push((v.last().name@, f@)),
            None => rest,
        }
    }
}

fn find_annotated_params(v: &[ParamConstraint]) -> (r: Vec<(String, String)>)
    ensures
        pairs_view(r@) == annotated_params(v@),
{
    broadcast use {group_append, group_views};
    let mut r: Vec<(String, String)> = Vec::new();
    let mut i: usize = 0;
    assert(v@.take(0) =~= Seq::empty());
    assert(pairs_view(r@) =~= Seq::empty());
    while i < v.len()
        invariant
            i <= v@.len(),
            pairs_view(r@) == annotated_params(v@.take(i as int)),
        decreases v@.len() - i,
    {
        assert(v@.take(i + 1).drop_last() =~= v@.take(i as int));
        if let Some(f) = &v[i].out_postcond {
            let ghost before = pairs_view(r@);
            r.push((v[i].name.clone(), f.clone()));
            assert(pairs_view(r@) =~= before.push((v@[i as int].name@, f@)));
        }
        i += 1;
    }
    assert(v@.take(v@.len() as int) =~= v@);
    r
}

/// The classes of the methods, in order.
pub open spec fn method_classes(v: Seq<InterfaceMethod>) -> Seq<Seq<char>> {
    Seq::new(v.len(), |i: int| v[i].class_name@)
}

fn find_method_classes(v: &[InterfaceMethod]) -> (r: Vec<String>)
    ensures
        views(r@) == method_classes(v@),
{
    broadcast use {group_append, group_views};
    let mut r: Vec<String> = Vec::new();
    let mut i: usize = 0;
    while i < v.len()
        invariant
            i <= v@.len(),
            r@.len() == i,
            forall|k: int| 0 <= k < i ==> (#[trigger] r@[k])@ == v@[k].class_name@,
        decreases v@.len() - i,
    {
        r.push(v[i].class_name.clone());
        i += 1;
    }
    assert(views(r@) =~= method_classes(v@));
    r
}

/// Is one of the functions the allocation function?
pub open spec fn calls_new(v: Seq<SpecConstraint>) -> bool {
    exists|i: int| 0 <= i < v.len() && operator_new(&#[trigger] v[i])
}

fn find_new(v: &[SpecConstraint]) -> (r: bool)
    ensures
        r == calls_new(v@),
{
    let mut i: usize = 0;
    while i < v.len()
        invariant
            i <= v@.len(),
            forall|k: int| 0 <= k < i ==> !operator_new(&#[trigger] v@[k]),
        decreases v@.len() - i,
    {
        if is_operator_new(&v[i]) {
            return true;
        }
        i += 1;
    }
    false
}

/// What overrides the script uses.
pub struct ScriptOverrides<'a> {
    pub has_interfaces: bool,
    pub external_calls: &'a [SpecConstraint],
    pub sub_callee_specs: &'a [SpecConstraint],
    pub bitcode: &'a EmittedBitcodeOverrides,
    /// Does the source carry annotations, which call an intrinsic?
    pub has_source_sal_annotations: bool,
}

/// Is the flag counted as a step?
pub open spec fn tally(b: bool) -> nat {
    if b {
        1
    } else {
        0
    }
}

/// The step that binds the overrides of interfaces.
#[verifier::opaque]
pub open spec fn interfaces_step(step: nat, cryptol: Seq<char>) -> Seq<char> {
    "// Step "@ + dec(step) + ": Vtable havoc overrides + constructor overrides\n"@
        + "import \""@ + cryptol + "\";\n"@ + "include \"interface_overrides.saw\";\n\n"@
}

/// The step that binds the overrides found in the program.
#[verifier::opaque]
pub open spec fn bitcode_step(step: nat, snippet: Seq<char>) -> Seq<char> {
    "// Step "@ + dec(step) + ": Bitcode-derived extern overrides\n"@ + snippet + "\n"@
}

/// The step that reads the Cryptol specification.
#[verifier::opaque]
pub open spec fn import_step(step: nat, cryptol: Seq<char>) -> Seq<char> {
    "// Step "@ + dec(step) + ": Import Cryptol spec\n"@ + "import \""@ + cryptol + "\";\n\n"@
}

/// The steps that bind overrides, from the first step behind `n` on.
pub open spec fn override_steps(o: ScriptOverrides, cryptol: Seq<char>, n: nat) -> Seq<char> {
    let a = n + tally(o.has_interfaces);
    let b = a + tally(o.has_source_sal_annotations);
    let c = b + tally(o.external_calls@.len() > 0);
    let d = c + tally(o.bitcode.override_names@.len() > 0);
    let e = d + tally(o.sub_callee_specs@.len() > 0);
    let f = e + tally(!o.has_interfaces);
    only_if(o.has_interfaces, interfaces_step(a, cryptol)) + only_if(o.has_source_sal_annotations, var_annotation_text(b)) + only_if(
        o.external_calls@.len() > 0,
        external_step(c, o.external_calls@, calls_new(o.external_calls@)),
    ) + only_if(
        o.bitcode.override_names@.len() > 0,
        bitcode_step(d, o.bitcode.snippet@),
    ) + only_if(o.sub_callee_specs@.len() > 0, callee_step(e, o.sub_callee_specs@)) + only_if(
        !o.has_interfaces,
        import_step(f, cryptol),
    )
}

/// The number of the last of those steps.
pub open spec fn steps_after(o: ScriptOverrides, n: nat) -> nat {
    n + tally(o.has_source_sal_annotations) + tally(o.external_calls@.len() > 0) + tally(
        o.bitcode.override_names@.len() > 0,
    ) + tally(o.sub_callee_specs@.len() > 0) + 1
}

/// The names that those steps bind, those of interfaces excepted.
pub open spec fn bound_overrides(o: ScriptOverrides) -> Seq<Seq<char>> {
    only_names(o.has_source_sal_annotations, seq!["ov_var_annotation"@]) + only_names(
        o.external_calls@.len() > 0,
        external_names(o.external_calls@, calls_new(o.external_calls@)),
    ) + only_names(o.bitcode.override_names@.len() > 0, views(o.bitcode.override_names@))
        + only_names(
        o.sub_callee_specs@.len() > 0,
        bound_names(assumed_ids(o.sub_callee_specs@, false)),
    )
}

pub open spec fn only_names(b: bool, names: Seq<Seq<char>>) -> Seq<Seq<char>> {
    if b {
        names
    } else {
        Seq::empty()
    }
}

fn put_interface_step(out: &mut String, step: u32, cryptol_rel: &str)
    ensures
        final(out)@ == old(out)@ + interfaces_step(step as nat, cryptol_rel@),
{
    broadcast use {group_append, group_views};
    reveal(interfaces_step);
    put(out, "// Step ");
    put_dec(out, step as u128);
    put(out, ": Vtable havoc overrides + constructor overrides\n");
    put3(out, "import \"", cryptol_rel, "\";\n");
    put(out, "include \"interface_overrides.saw\";\n\n");
}

fn put_import_step(out: &mut String, step: u32, cryptol_rel: &str)
    ensures
        final(out)@ == old(out)@ + import_step(step as nat, cryptol_rel@),
{
    broadcast use {group_append, group_views};
    reveal(import_step);
    put(out, "// Step ");
    put_dec(out, step as u128);
    put(out, ": Import Cryptol spec\n");
    put3(out, "import \"", cryptol_rel, "\";\n\n");
}

fn put_bitcode_step(out: &mut String, step: u32, snippet: &str)
    ensures
        final(out)@ == old(out)@ + bitcode_step(step as nat, snippet@),
{
    broadcast use {group_append, group_views};
    reveal(bitcode_step);
    put(out, "// Step ");
    put_dec(out, step as u128);
    put(out, ": Bitcode-derived extern overrides\n");
    put(out, snippet);
    put(out, "\n");
}

fn push_names(names: &mut Vec<String>, more: &Vec<String>)
    ensures
        views(final(names)@) == views(old(names)@) + views(more@),
{
    let ghost v = views(more@);
    let mut i: usize = 0;
    assert(views(names@) =~= views(names@) + v.take(0));
    while i < more.len()
        invariant
            v == views(more@),
            i <= more@.len(),
            views(names@) == views(old(names)@) + v.take(i as int),
        decreases more@.len() - i,
    {
        let ghost before = views(names@);
        names.push(more[i].clone());
        proof {
            assert(v[i as int] == more@[i as int]@);
            assert(views(names@) =~= before.push(v[i as int]));
            assert(v.take(i + 1) =~= v.take(i as int).push(v[i as int]));
        }
        i += 1;
    }
    assert(v.take(v.len() as int) =~= v);
}

/// Emits the steps that bind overrides, and gives the number of the last
/// step and the names that were bound.
pub fn emit_override_steps(out: &mut String, o: &ScriptOverrides<'_>, cryptol_rel: &str) -> (r: (
    u32,
    Vec<String>,
))
    ensures
        final(out)@ == old(out)@ + override_steps(*o, cryptol_rel@, 1),
        r.0 == steps_after(*o, 1),
        views(r.1@) == bound_overrides(*o),
        r.0 <= 7,
{
    broadcast use {group_append, group_views};
    let mut step: u32 = 1;
    let mut names: Vec<String> = Vec::new();
    if o.has_interfaces {
        step += 1;
        put_interface_step(out, step, cryptol_rel);
    }
    if o.has_source_sal_annotations {
        step += 1;
        emit_var_annotation_override(out, step, &mut names);
    }
    if o.external_calls.len() > 0 {
        step += 1;
        let needs_new = find_new(o.external_calls);
        emit_external_overrides_step(out, step, o.external_calls, needs_new, &mut names);
    }
    if !o.bitcode.is_empty() {
        step += 1;
        put_bitcode_step(out, step, o.bitcode.snippet.as_str());
        push_names(&mut names, &o.bitcode.override_names);
    }
    if o.sub_callee_specs.len() > 0 {
        step += 1;
        emit_sub_callee_step(out, step, o.sub_callee_specs, &mut names);
    }
    if !o.has_interfaces {
        step += 1;
        put_import_step(out, step, cryptol_rel);
    }
    assert(views(names@) =~= bound_overrides(*o));
    (step, names)
}

/// What is verified, and against what.
pub struct ScriptTarget<'a> {
    pub cryptol_fn: &'a str,
    pub function_name: &'a str,
    pub mangled_name: &'a str,
    pub spec: &'a SpecConstraint,
    pub function: &'a FunctionInfo,
    pub vmethods: &'a [InterfaceMethod],
    pub constructors: &'a [ClassConstructor],
    pub all_globals: &'a [GlobalVarInfo],
    pub sret_prestate: Option<&'a SretPrestate>,
    pub loop_invariants: &'a [String],
}

impl<'a> ScriptTarget<'a> {
    /// What the parameters add to the specification.
    pub open spec fn steps(&self, buf: &BufferOverrides) -> Seq<StepView> {
        param_steps(
            self.spec.params@,
            self.function.params@,
            method_classes(self.vmethods@),
            buf,
        )
    }

    pub open spec fn prestate(&self) -> Option<SretPrestate> {
        match self.sret_prestate {
            Some(p) => Some(*p),
            None => None,
        }
    }

    /// The specification of the function, with the given number of its
    /// step.
    pub open spec fn spec_text(&self, buf: &BufferOverrides, callees: bool, step: nat) -> Seq<char> {
        let steps = self.steps(buf);
        let args = equiv_cryptol_args(self.spec, steps, self.prestate());
        let call = call_text(self.cryptol_fn@, fn_args(buf, self.cryptol_fn@, args));
        let returned = return_text(
            result_text(call, self.function.return_type@),
            self.spec.return_constraint.is_sret,
            self.function.return_type is Void,
            callees,
        );
        equiv_text(
            step,
            self.function_name@,
            self.cryptol_fn@,
            self.spec,
            steps,
            globals_view(self.all_globals@),
            self.prestate(),
            buf,
        ) + close_text(
            args,
            equiv_call_args(self.spec, self.function.params@, steps),
            annotated_params(self.spec.params@),
            buf,
            returned,
        )
    }
}

fn put_spec(
    out: &mut String,
    target: &ScriptTarget<'_>,
    sub_callee_specs: &[SpecConstraint],
    buffer_overrides: &BufferOverrides,
    step: u32,
)
    ensures
        final(out)@ == old(out)@ + target.spec_text(
            buffer_overrides,
            sub_callee_specs@.len() > 0,
            step as nat,
        ),
{
    broadcast use {group_append, group_views};
    let classes = find_method_classes(target.vmethods);
    let (cryptol_args, execute_args) = emit_equiv_spec_body(
        out,
        step,
        target.function_name,
        target.cryptol_fn,
        target.spec,
        target.function,
        classes.as_slice(),
        target.all_globals,
        target.sret_prestate,
        buffer_overrides,
    );
    let outputs = find_annotated_params(target.spec.params.as_slice());
    let ctx = PostconditionCtx {
        sub_callee_specs,
        return_type: &target.function.return_type,
        is_sret: target.spec.return_constraint.is_sret,
        return_bridge: None,
        auto_out_postconds: outputs.as_slice(),
    };
    emit_postcondition_and_close(
        out,
        target.cryptol_fn,
        &cryptol_args,
        &execute_args,
        &ctx,
        buffer_overrides,
    );
}

/// The script.
pub open spec fn script_text(
    bitcode: Seq<char>,
    cryptol: Seq<char>,
    target: &ScriptTarget,
    o: ScriptOverrides,
    stubs: &AssembledStubs,
    buf: &BufferOverrides,
) -> Seq<char> {
    let n = steps_after(o, 1);
    let experimental = o.external_calls@.len() > 0 || o.has_interfaces
        || o.sub_callee_specs@.len() > 0 || o.bitcode.override_names@.len() > 0;
    header_text(
        target.function_name@,
        target.mangled_name@,
        cryptol,
        target.cryptol_fn@,
        experimental,
    ) + load_text(1, o.has_interfaces, bitcode, stubs) + override_steps(o, cryptol, 1)
        + target.spec_text(buf, o.sub_callee_specs@.len() > 0, n + 1) + verify_text(
        n + 2,
        target.function_name@,
        target.cryptol_fn@,
        target.mangled_name@,
        used_overrides(
            bound_overrides(o),
            o.has_interfaces,
            target.vmethods@,
            target.constructors@,
        ),
        target.loop_invariants@,
    )
}

/// The script that checks a function against a Cryptol specification.
///
/// The paths of the program and of the specification are relative to the
/// directory of the script.
pub fn emit_verification_script(
    bitcode_rel: &str,
    cryptol_rel: &str,
    target: &ScriptTarget<'_>,
    overrides: &ScriptOverrides<'_>,
    stubs_status: &AssembledStubs,
    buffer_overrides: &BufferOverrides,
) -> (file: GeneratedFile)
    ensures
        file.name@ == "verify.saw"@,
        file.content@ == script_text(
            bitcode_rel@,
            cryptol_rel@,
            target,
            *overrides,
            stubs_status,
            buffer_overrides,
        ),
{
    broadcast use {group_append, group_views};
    let o = overrides;
    let needs_experimental = o.external_calls.len() > 0 || o.has_interfaces
        || o.sub_callee_specs.len() > 0 || !o.bitcode.is_empty();
    let mut out = String::new();
    emit_header(
        &mut out,
        target.function_name,
        target.mangled_name,
        cryptol_rel,
        target.cryptol_fn,
        needs_experimental,
    );
    emit_load_bitcode_step(&mut out, 1, o.has_interfaces, bitcode_rel, stubs_status);
    let (step, names) = emit_override_steps(&mut out, o, cryptol_rel);
    put_spec(&mut out, target, o.sub_callee_specs, buffer_overrides, step + 1);
    let iface = InterfaceCtx {
        has_interfaces: o.has_interfaces,
        vmethods: target.vmethods,
        constructors: target.constructors,
    };
    emit_verify_step(
        &mut out,
        step + 2,
        target.function_name,
        target.cryptol_fn,
        target.mangled_name,
        &iface,
        names,
        target.loop_invariants,
    );
    GeneratedFile { name: owned("verify.saw"), content: out }
}

} // verus!
