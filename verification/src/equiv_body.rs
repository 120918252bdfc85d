//! The specification of a function in its plain form: values are handed
//! over as they are, and only the global variables that the function uses
//! are set up.

use vstd::prelude::*;

use crate::constraints::{
    globals_view, AllocType, FunctionInfo, GlobalVarInfo, GlobalView, ParamConstraint, ParamInfo,
    SpecConstraint, TypeInfo,
};
use crate::overrides::{container_layout_for, container_of};
use crate::text::{
    dec, group_append, group_views, join, joined, lemma_append_assoc, lemma_append_nothing, nil,
    only_if, owned, put, put2, put3, put5, put7, put_dec, views,
};
use crate::verify_script_steps::{
    ParamStep, StepView, call_args, call_text, container_step, cryptol_args, declarations,
    interface_of, interface_step, make_call, make_container_step, make_interface_step,
    object_lines, param_type, pointed_interface, pointer_name, put_call_args, put_cryptol_args,
    put_declarations, put_object_lines, steps_view, value_bits,
};

verus! {

/// A value, or an object that a pointer is to.
pub open spec fn bare_step(p: &ParamConstraint) -> StepView {
    let name = p.name@;
    let saw = p.saw_type@;
    if p.alloc_type is FreshVar {
        StepView {
            declaration: "    "@ + name + " <- llvm_fresh_var \""@ + name + "\" ("@ + saw + ");\n"@,
            deferred: nil(),
            cryptol_arg: Some(name),
            call_arg: "llvm_term "@ + name,
        }
    } else {
        let alloc = if p.alloc_type is AllocReadonly {
            "llvm_alloc_readonly"@
        } else {
            "llvm_alloc"@
        };
        StepView {
            declaration: object_lines(name, name, alloc, saw),
            deferred: nil(),
            cryptol_arg: Some(name),
            call_arg: pointer_name(name),
        }
    }
}

/// What a parameter adds to the specification.
pub open spec fn bare_param_step(
    p: &ParamConstraint,
    ty: Option<TypeInfo>,
    classes: Seq<Seq<char>>,
) -> StepView {
    let iface = match ty {
        Some(t) => pointed_interface(t@, classes),
        None => None,
    };
    let container = match ty {
        Some(t) => container_of(&t, classes),
        None => None,
    };
    match (iface, container) {
        (Some(class), _) => interface_step(p.name@, class),
        (None, Some(kinds)) => container_step(p.name@, kinds),
        _ => bare_step(p),
    }
}

/// What each parameter adds to the specification.
pub open spec fn bare_param_steps(
    params: Seq<ParamConstraint>,
    fn_params: Seq<ParamInfo>,
    classes: Seq<Seq<char>>,
) -> Seq<StepView> {
    Seq::new(params.len(), |i: int| bare_param_step(&params[i], param_type(fn_params, i), classes))
}

fn make_bare_step(p: &ParamConstraint) -> (r: ParamStep)
    ensures
        r@ == bare_step(p),
{
    broadcast use {group_append, group_views};
    let name = p.name.as_str();
    let saw = p.saw_type.as_str();
    let mut text = String::new();
    let mut call_arg = String::new();
    match p.alloc_type {
        AllocType::FreshVar => {
            put7(&mut text, "    ", name, " <- llvm_fresh_var \"", name, "\" (", saw, ");\n");
            put2(&mut call_arg, "llvm_term ", name);
        },
        AllocType::AllocReadonly => {
            put_object_lines(&mut text, name, name, "llvm_alloc_readonly", saw);
            put2(&mut call_arg, name, "_ptr");
        },
        AllocType::AllocMutable => {
            put_object_lines(&mut text, name, name, "llvm_alloc", saw);
            put2(&mut call_arg, name, "_ptr");
        },
    }
    ParamStep {
        declaration: text,
        deferred: String::new(),
        cryptol_arg: Some(owned(name)),
        call_arg,
    }
}

fn make_bare_param_step(
    p: &ParamConstraint,
    ty: Option<&TypeInfo>,
    interface_classes: &[String],
) -> (r: ParamStep)
    ensures
        r@ == bare_param_step(
            p,
            match ty {
                Some(t) => Some(*t),
                None => None,
            },
            views(interface_classes@),
        ),
{
    if let Some(t) = ty {
        if let Some(class) = interface_of(t, interface_classes) {
            return make_interface_step(p.name.as_str(), class.as_str());
        }
        if let Some(fields) = container_layout_for(t, interface_classes) {
            return make_container_step(p.name.as_str(), fields.as_slice());
        }
    }
    make_bare_step(p)
}

fn make_bare_param_steps(
    params: &[ParamConstraint],
    fn_params: &[ParamInfo],
    interface_classes: &[String],
) -> (r: Vec<ParamStep>)
    ensures
        steps_view(r@) == bare_param_steps(params@, fn_params@, views(interface_classes@)),
{
    broadcast use {group_append, group_views};
    let mut r: Vec<ParamStep> = Vec::new();
    let mut i: usize = 0;
    let ghost want = bare_param_steps(params@, fn_params@, views(interface_classes@));
    while i < params.len()
        invariant
            want == bare_param_steps(params@, fn_params@, views(interface_classes@)),
            i <= params@.len(),
            r@.len() == i,
            forall|k: int| 0 <= k < i ==> (#[trigger] r@[k])@ == want[k],
        decreases params@.len() - i,
    {
        let ty = if i < fn_params.len() {
            Some(&fn_params[i].ty)
        } else {
            None
        };
        r.push(make_bare_param_step(&params[i], ty, interface_classes));
        i += 1;
    }
    assert(steps_view(r@) =~= want);
    r
}

/// Each global variable is allocated, and holds its initial value where there is one.
pub open spec fn initial_values_item(g: GlobalView) -> Seq<char> {
    let name = g.mangled_name;
    let value = match g.init_value {
        Some(init) => "    llvm_points_to (llvm_global \""@ + name + "\") (llvm_term {{ "@ + init
            + " : ["@ + dec(value_bits(g.ty)) + "] }});\n"@,
        None => nil(),
    };
    "    llvm_alloc_global \""@ + name + "\";\n"@ + value + "\n"@
}

fn put_initial_values_item(out: &mut String, g: &GlobalVarInfo)
    ensures
        final(out)@ == old(out)@ + initial_values_item(g@),
{
    broadcast use {group_append, group_views};
    let name = g.mangled_name.as_str();
    put3(out, "    llvm_alloc_global \"", name, "\";\n");
    if let Some(init) = &g.init_value {
        let bits: u32 = match &g.ty {
            TypeInfo::SignedInt(b) => *b,
            TypeInfo::UnsignedInt(b) => *b,
            TypeInfo::Bool => 1,
            _ => 32,
        };
        put5(
            out,
            "    llvm_points_to (llvm_global \"",
            name,
            "\") (llvm_term {{ ",
            init.as_str(),
            " : [",
        );
        put_dec(out, bits as u128);
        put(out, "] }});\n");
    }
    put(out, "\n");
}

/// Each global variable is allocated, and holds its initial value where there is one.
pub open spec fn initial_values(v: Seq<GlobalView>) -> Seq<char>
    decreases v.len(),
{
    if v.len() == 0 {
        nil()
    } else {
        initial_values(v.drop_last()) + initial_values_item(v.last())
    }
}

/// Each global variable is allocated, and holds its initial value where there is one.
fn put_initial_values(out: &mut String, v: &[GlobalVarInfo])
    ensures
        final(out)@ == old(out)@ + initial_values(globals_view(v@)),
{
    broadcast use lemma_append_nothing;
    let ghost w = globals_view(v@);
    let mut i: usize = 0;
    assert(initial_values(w.take(0)) =~= nil());
    while i < v.len()
        invariant
            w == globals_view(v@),
            i <= v@.len(),
            out@ == old(out)@ + initial_values(w.take(i as int)),
        decreases v@.len() - i,
    {
        proof {
            assert(w.take(i + 1).drop_last() =~= w.take(i as int));
            assert(w.take(i + 1).last() == v@[i as int]@);
            lemma_append_assoc(old(out)@, initial_values(w.take(i as int)), initial_values_item(w[i as int]));
        }
        put_initial_values_item(out, &v[i]);
        i += 1;
    }
    assert(w.take(w.len() as int) =~= w);
}

/// The pointer for a result that is returned through one.
pub open spec fn bare_sret(spec: &SpecConstraint) -> Seq<char> {
    "    // sret: aggregate return passed via hidden first pointer parameter\n"@
        + "    result_ptr <- llvm_alloc ("@ + spec.return_constraint.saw_type@ + ");\n"@
}

/// The arguments of the call, the hidden pointer first.
pub open spec fn bare_call_args(spec: &SpecConstraint, steps: Seq<StepView>) -> Seq<Seq<char>> {
    if spec.return_constraint.is_sret {
        seq!["result_ptr"@] + call_args(steps)
    } else {
        call_args(steps)
    }
}

/// The specification up to the call.
pub open spec fn bare_equiv_text(
    step: nat,
    function: Seq<char>,
    cryptol_fn: Seq<char>,
    spec: &SpecConstraint,
    steps: Seq<StepView>,
) -> Seq<char> {
    "// Step "@ + dec(step) + ": Equivalence spec — C++ "@ + function + " == Cryptol "@
        + cryptol_fn + "\n"@ + "let "@ + function + "_equiv_spec = do {\n"@
        + only_if(spec.return_constraint.is_sret, bare_sret(spec)) + declarations(steps) + "\n"@
        + initial_values(globals_view(spec.referenced_globals@))
}

fn put_bare_equiv_text(
    out: &mut String,
    step: u32,
    function_name: &str,
    cryptol_fn: &str,
    target_spec: &SpecConstraint,
    steps: &[ParamStep],
)
    ensures
        final(out)@ == old(out)@ + bare_equiv_text(
            step as nat,
            function_name@,
            cryptol_fn@,
            target_spec,
            steps_view(steps@),
        ),
{
    broadcast use {group_append, group_views};
    put(out, "// Step ");
    put_dec(out, step as u128);
    put5(out, ": Equivalence spec — C++ ", function_name, " == Cryptol ", cryptol_fn, "\n");
    put3(out, "let ", function_name, "_equiv_spec = do {\n");
    if target_spec.return_constraint.is_sret {
        put(out, "    // sret: aggregate return passed via hidden first pointer parameter\n");
        put3(
            out,
            "    result_ptr <- llvm_alloc (",
            target_spec.return_constraint.saw_type.as_str(),
            ");\n",
        );
    }
    put_declarations(out, steps);
    put(out, "\n");
    put_initial_values(out, target_spec.referenced_globals.as_slice());
}

/// Emits the specification up to the call, and gives the arguments of the
/// Cryptol function and of the call.
pub fn emit_equiv_spec_body(
    out: &mut String,
    step: u32,
    function_name: &str,
    cryptol_fn: &str,
    target_spec: &SpecConstraint,
    target_fn: &FunctionInfo,
    interface_classes: &[String],
) -> (r: (Vec<String>, Vec<String>))
    ensures
        ({
            let steps = bare_param_steps(
                target_spec.params@,
                target_fn.params@,
                views(interface_classes@),
            );
            &&& final(out)@ == old(out)@ + bare_equiv_text(
                step as nat,
                function_name@,
                cryptol_fn@,
                target_spec,
                steps,
            )
            &&& views(r.0@) == cryptol_args(steps)
            &&& views(r.1@) == bare_call_args(target_spec, steps)
        }),
{
    broadcast use group_views;
    let steps = make_bare_param_steps(
        target_spec.params.as_slice(),
        target_fn.params.as_slice(),
        interface_classes,
    );
    put_bare_equiv_text(out, step, function_name, cryptol_fn, target_spec, steps.as_slice());
    let mut cry: Vec<String> = Vec::new();
    put_cryptol_args(&mut cry, steps.as_slice());
    assert(views(cry@) =~= cryptol_args(steps_view(steps@)));
    let mut call: Vec<String> = Vec::new();
    if target_spec.return_constraint.is_sret {
        call.push(owned("result_ptr"));
    }
    put_call_args(&mut call, steps.as_slice());
    assert(views(call@) =~= bare_call_args(target_spec, steps_view(steps@)));
    (cry, call)
}

/// The statement of what the function returns. Where called functions are
/// overridden, it is a draft.
pub open spec fn bare_return_text(call: Seq<char>, is_sret: bool, draft: bool) -> Seq<char> {
    let head = if draft {
        "    // TODO: Compositional postcondition — fill in by hand.\n"@ + "    //\n"@
            + "    // The sub-function overrides above return fresh symbolic values.\n"@
            + "    // To check functional correctness, capture those returns (e.g.\n"@
            + "    //   ret_helper <- llvm_fresh_var \"ret_helper\" (llvm_int 32);\n"@
            + "    // inside the matching override spec) and thread them into the\n"@
            + "    // Cryptol equivalence call below.  The auto-derived call only uses\n"@
            + "    // the target's own parameters and is almost certainly incomplete.\n"@
    } else {
        "    // Postcondition: C++ result == Cryptol spec\n"@
    };
    let verb = if is_sret {
        "llvm_points_to result_ptr"@
    } else {
        "llvm_return"@
    };
    let tail = only_if(draft, "  // <-- replace with full mapping"@);
    head + "    "@ + verb + " (llvm_term {{ "@ + call + " }});"@ + tail + "\n"@
}

/// The call, and what it returns.
pub open spec fn bare_close_text(
    cryptol_fn: Seq<char>,
    args: Seq<Seq<char>>,
    call_args: Seq<Seq<char>>,
    is_sret: bool,
    draft: bool,
) -> Seq<char> {
    "    llvm_execute_func ["@ + joined(call_args, ", "@) + "];\n\n"@
        + bare_return_text(call_text(cryptol_fn, args), is_sret, draft) + "};\n\n"@
}

fn put_bare_return(out: &mut String, call: &str, is_sret: bool, draft: bool)
    ensures
        final(out)@ == old(out)@ + bare_return_text(call@, is_sret, draft),
{
    broadcast use {group_append, group_views};
    if draft {
        put(out, "    // TODO: Compositional postcondition — fill in by hand.\n");
        put(out, "    //\n");
        put(out, "    // The sub-function overrides above return fresh symbolic values.\n");
        put(out, "    // To check functional correctness, capture those returns (e.g.\n");
        put(out, "    //   ret_helper <- llvm_fresh_var \"ret_helper\" (llvm_int 32);\n");
        put(out, "    // inside the matching override spec) and thread them into the\n");
        put(out, "    // Cryptol equivalence call below.  The auto-derived call only uses\n");
        put(out, "    // the target's own parameters and is almost certainly incomplete.\n");
    } else {
        put(out, "    // Postcondition: C++ result == Cryptol spec\n");
    }
    let verb = if is_sret {
        "llvm_points_to result_ptr"
    } else {
        "llvm_return"
    };
    let tail = if draft {
        "  // <-- replace with full mapping"
    } else {
        ""
    };
    proof {
        reveal_strlit("");
        assert(""@ =~= nil());
    }
    put7(out, "    ", verb, " (llvm_term {{ ", call, " }});", tail, "\n");
}

/// Emits the call and what it returns, and closes the specification.
pub fn emit_postcondition_and_close(
    out: &mut String,
    cryptol_fn: &str,
    cryptol_args: &Vec<String>,
    execute_args: &Vec<String>,
    sub_callee_specs: &[SpecConstraint],
    target_spec: &SpecConstraint,
)
    ensures
        final(out)@ == old(out)@ + bare_close_text(
            cryptol_fn@,
            views(cryptol_args@),
            views(execute_args@),
            target_spec.return_constraint.is_sret,
            sub_callee_specs@.len() > 0,
        ),
{
    broadcast use {group_append, group_views};
    put3(out, "    llvm_execute_func [", join(execute_args, ", ").as_str(), "];\n\n");
    put_bare_return(
        out,
        make_call(cryptol_fn, cryptol_args).as_str(),
        target_spec.return_constraint.is_sret,
        sub_callee_specs.len() > 0,
    );
    put(out, "};\n\n");
}

} // verus!
