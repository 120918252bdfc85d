//! The end of the specification of the verified function, and the step
//! that verifies it.

use vstd::prelude::*;

use crate::buffer_overrides::BufferOverrides;
use crate::constraints::{ClassConstructor, InterfaceMethod, SpecConstraint, TypeInfo, TypeView};
use crate::cryptol_bridge::{
    AbiReturnBridge, cryptol_return_for, law_saw_return_is_fixed, result_text, return_bridge_ok,
    saw_return_is,
};
use crate::names::{lower_id, sanitize_lower};
use crate::overrides::{stub_id, stub_identifier};
use crate::stubs::{originates, originating};
use crate::text::{
    dec, group_append, group_views, in_turn, join, joined, lemma_append_assoc,
    lemma_append_nothing, lemma_in_turn, list_has, nil, only_if, pairs_view, put, put2, put3, put5,
    put7, put_dec, same, starts, starts_with, views,
};
use crate::verify_script_steps::{bound_name, call_text, fn_args, make_call, make_fn_call};

verus! {

/// What the statements after the call depend on.
pub struct PostconditionCtx<'a> {
    pub sub_callee_specs: &'a [SpecConstraint],
    pub return_type: &'a TypeInfo,
    pub is_sret: bool,
    /// How an aggregate is returned; without it a scalar is.
    pub return_bridge: Option<&'a AbiReturnBridge>,
    /// Output parameters with the Cryptol functions of what they hold.
    pub auto_out_postconds: &'a [(String, String)],
}

/// What the declared output buffers hold after the call.
pub open spec fn declared_outputs_item(o: (String, String), buf: &BufferOverrides, args: Seq<Seq<char>>) -> Seq<char> {
    let (name, f) = (o.0@, o.1@);
    "    // Postcondition: *"@ + name + "_ptr == Cryptol "@ + f + "\n"@
        + "    llvm_points_to "@ + name + "_ptr (llvm_term {{ "@
        + call_text(f, fn_args(buf, f, args)) + " }});\n"@
}

fn put_declared_outputs_item(out: &mut String, o: &(String, String), buf: &BufferOverrides, args: &Vec<String>)
    ensures
        final(out)@ == old(out)@ + declared_outputs_item(*o, buf, views(args@)),
{
    broadcast use {group_append, group_views};
    let name = o.0.as_str();
    let f = o.1.as_str();
    put5(out, "    // Postcondition: *", name, "_ptr == Cryptol ", f, "\n");
    put5(
        out,
        "    llvm_points_to ",
        name,
        "_ptr (llvm_term {{ ",
        make_fn_call(buf, f, args).as_str(),
        " }});\n",
    );
}

/// What the declared output buffers hold after the call.
pub open spec fn declared_outputs(v: Seq<(String, String)>, buf: &BufferOverrides, args: Seq<Seq<char>>) -> Seq<char>
    decreases v.len(),
{
    if v.len() == 0 {
        nil()
    } else {
        declared_outputs(v.drop_last(), buf, args) + declared_outputs_item(v.last(), buf, args)
    }
}

/// What the declared output buffers hold after the call.
fn put_declared_outputs(out: &mut String, v: &[(String, String)], buf: &BufferOverrides, args: &Vec<String>)
    ensures
        final(out)@ == old(out)@ + declared_outputs(v@, buf, views(args@)),
{
    broadcast use lemma_append_nothing;
    let mut i: usize = 0;
    assert(declared_outputs(v@.take(0), buf, views(args@)) =~= nil());
    while i < v.len()
        invariant
            i <= v@.len(),
            out@ == old(out)@ + declared_outputs(v@.take(i as int), buf, views(args@)),
        decreases v@.len() - i,
    {
        proof {
            assert(v@.take(i + 1).drop_last() =~= v@.take(i as int));
            lemma_append_assoc(old(out)@, declared_outputs(v@.take(i as int), buf, views(args@)), declared_outputs_item(v@[i as int], buf, views(args@)));
        }
        put_declared_outputs_item(out, &v[i], buf, args);
        i += 1;
    }
    assert(v@.take(v@.len() as int) =~= v@);
}

/// The arguments with the name of an output parameter replaced by that of
/// its value before the call.
pub open spec fn with_prestate(args: Seq<Seq<char>>, name: Seq<char>) -> Seq<Seq<char>> {
    Seq::new(
        args.len(),
        |i: int|
            if args[i] == name {
                name + "_pre"@
            } else {
                args[i]
            },
    )
}

fn name_prestate(args: &Vec<String>, name: &str) -> (r: Vec<String>)
    ensures
        views(r@) == with_prestate(views(args@), name@),
{
    broadcast use {group_append, group_views};
    let mut r: Vec<String> = Vec::new();
    let ghost want = with_prestate(views(args@), name@);
    let mut i: usize = 0;
    while i < args.len()
        invariant
            want == with_prestate(views(args@), name@),
            i <= args@.len(),
            r@.len() == i,
            forall|k: int| 0 <= k < i ==> (#[trigger] r@[k])@ == want[k],
        decreases args@.len() - i,
    {
        assert(views(args@)[i as int] == args@[i as int]@);
        let mut a = args[i].clone();
        if same(args[i].as_str(), name) {
            put(&mut a, "_pre");
        }
        r.push(a);
        i += 1;
    }
    assert(views(r@) =~= want);
    r
}

/// What the output parameters with annotations hold after the call.
pub open spec fn annotated_outputs_item(o: (Seq<char>, Seq<char>), args: Seq<Seq<char>>) -> Seq<char> {
    let (name, f) = o;
    "    // Postcondition: *"@ + name + "_ptr == Cryptol "@ + f
        + " (auto from _Out_writes_)\n"@ + "    llvm_points_to "@ + name
        + "_ptr (llvm_term {{ "@ + call_text(f, with_prestate(args, name)) + " }});\n"@
}

fn put_annotated_outputs_item(out: &mut String, o: &(String, String), args: &Vec<String>)
    ensures
        final(out)@ == old(out)@ + annotated_outputs_item(o@, views(args@)),
{
    broadcast use {group_append, group_views};
    let name = o.0.as_str();
    let f = o.1.as_str();
    let renamed = name_prestate(args, name);
    put5(
        out,
        "    // Postcondition: *",
        name,
        "_ptr == Cryptol ",
        f,
        " (auto from _Out_writes_)\n",
    );
    put5(
        out,
        "    llvm_points_to ",
        name,
        "_ptr (llvm_term {{ ",
        make_call(f, &renamed).as_str(),
        " }});\n",
    );
}

/// What the output parameters with annotations hold after the call.
pub open spec fn annotated_outputs(v: Seq<(Seq<char>, Seq<char>)>, args: Seq<Seq<char>>) -> Seq<char>
    decreases v.len(),
{
    if v.len() == 0 {
        nil()
    } else {
        annotated_outputs(v.drop_last(), args) + annotated_outputs_item(v.last(), args)
    }
}

/// What the output parameters with annotations hold after the call.
fn put_annotated_outputs(out: &mut String, v: &[(String, String)], args: &Vec<String>)
    ensures
        final(out)@ == old(out)@ + annotated_outputs(pairs_view(v@), views(args@)),
{
    broadcast use lemma_append_nothing;
    let ghost w = pairs_view(v@);
    let mut i: usize = 0;
    assert(annotated_outputs(w.take(0), views(args@)) =~= nil());
    while i < v.len()
        invariant
            w == pairs_view(v@),
            i <= v@.len(),
            out@ == old(out)@ + annotated_outputs(w.take(i as int), views(args@)),
        decreases v@.len() - i,
    {
        proof {
            assert(w.take(i + 1).drop_last() =~= w.take(i as int));
            assert(w.take(i + 1).last() == v@[i as int]@);
            lemma_append_assoc(old(out)@, annotated_outputs(w.take(i as int), views(args@)), annotated_outputs_item(w[i as int], views(args@)));
        }
        put_annotated_outputs_item(out, &v[i], args);
        i += 1;
    }
    assert(w.take(w.len() as int) =~= w);
}

/// The statement of what a function without an aggregate bridge returns.
/// Where called functions are overridden, the statement is a draft.
pub open spec fn return_text(result: Seq<char>, is_sret: bool, is_void: bool, draft: bool) -> Seq<
    char,
> {
    if is_sret && draft {
        "    // TODO: Compositional sret postcondition — fill in by hand.\n"@
            + "    // The sub-function overrides above return fresh symbolic values;\n"@
            + "    // thread them into the Cryptol call below before relying on\n"@
            + "    // this assertion. The auto-derived call uses only the target's\n"@
            + "    // own parameters and is almost certainly incomplete.\n"@
            + "    llvm_points_to result_ptr (llvm_term {{ "@ + result + " }});\n"@
    } else if is_sret {
        "    // Postcondition (sret): *result_ptr == Cryptol spec\n"@
            + "    llvm_points_to result_ptr (llvm_term {{ "@ + result + " }});\n"@
    } else if is_void {
        "    // Void return — no llvm_return to emit.\n"@ + "    // (Cryptol spec `"@
            + result + "` is referenced for documentation only.)\n"@
    } else if draft {
        "    // TODO: Compositional postcondition — fill in by hand.\n"@ + "    //\n"@
            + "    // The sub-function overrides above return fresh symbolic values.\n"@
            + "    // To check functional correctness, capture those returns (e.g.\n"@
            + "    //   ret_helper <- llvm_fresh_var \"ret_helper\" (llvm_int 32);\n"@
            + "    // inside the matching override spec) and thread them into the\n"@
            + "    // Cryptol equivalence call below.  The auto-derived call only uses\n"@
            + "    // the target's own parameters and is almost certainly incomplete.\n"@
            + "    llvm_return (llvm_term {{ "@ + result
            + " }});  // <-- replace with full mapping\n"@
    } else {
        "    // Postcondition: C++ result == Cryptol spec\n"@
            + "    llvm_return (llvm_term {{ "@ + result + " }});\n"@
    }
}

fn put_return(out: &mut String, result: &str, is_sret: bool, is_void: bool, draft: bool)
    ensures
        final(out)@ == old(out)@ + return_text(result@, is_sret, is_void, draft),
{
    broadcast use {group_append, group_views};
    if is_sret && draft {
        put(out, "    // TODO: Compositional sret postcondition — fill in by hand.\n");
        put(out, "    // The sub-function overrides above return fresh symbolic values;\n");
        put(out, "    // thread them into the Cryptol call below before relying on\n");
        put(out, "    // this assertion. The auto-derived call uses only the target's\n");
        put(out, "    // own parameters and is almost certainly incomplete.\n");
        put3(out, "    llvm_points_to result_ptr (llvm_term {{ ", result, " }});\n");
    } else if is_sret {
        put(out, "    // Postcondition (sret): *result_ptr == Cryptol spec\n");
        put3(out, "    llvm_points_to result_ptr (llvm_term {{ ", result, " }});\n");
    } else if is_void {
        put(out, "    // Void return — no llvm_return to emit.\n");
        put3(out, "    // (Cryptol spec `", result, "` is referenced for documentation only.)\n");
    } else if draft {
        put(out, "    // TODO: Compositional postcondition — fill in by hand.\n");
        put(out, "    //\n");
        put(out, "    // The sub-function overrides above return fresh symbolic values.\n");
        put(out, "    // To check functional correctness, capture those returns (e.g.\n");
        put(out, "    //   ret_helper <- llvm_fresh_var \"ret_helper\" (llvm_int 32);\n");
        put(out, "    // inside the matching override spec) and thread them into the\n");
        put(out, "    // Cryptol equivalence call below.  The auto-derived call only uses\n");
        put(out, "    // the target's own parameters and is almost certainly incomplete.\n");
        put3(
            out,
            "    llvm_return (llvm_term {{ ",
            result,
            " }});  // <-- replace with full mapping\n",
        );
    } else {
        put(out, "    // Postcondition: C++ result == Cryptol spec\n");
        put3(out, "    llvm_return (llvm_term {{ ", result, " }});\n");
    }
}

/// Is `r` the statement of what the function returns?
pub open spec fn returns_as(ctx: PostconditionCtx, call: Seq<char>, r: Seq<char>) -> bool {
    match ctx.return_bridge {
        Some(b) => saw_return_is(*b, call, r),
        None => r == return_text(
            result_text(call, ctx.return_type@),
            ctx.is_sret,
            ctx.return_type is Void,
            ctx.sub_callee_specs@.len() > 0,
        ),
    }
}

/// The statement of what the function returns is fixed by the context and
/// the call: there are no two of them.
pub proof fn law_returned_is_fixed(
    ctx: PostconditionCtx,
    call: Seq<char>,
    r: Seq<char>,
    s: Seq<char>,
)
    requires
        returns_as(ctx, call, r),
        returns_as(ctx, call, s),
    ensures
        r == s,
{
    if let Some(b) = ctx.return_bridge {
        law_saw_return_is_fixed(*b, call, r, s);
    }
}

/// The call, what the output buffers hold after it, and what it returns.
pub open spec fn close_text(
    args: Seq<Seq<char>>,
    call_args: Seq<Seq<char>>,
    outputs: Seq<(Seq<char>, Seq<char>)>,
    buf: &BufferOverrides,
    returned: Seq<char>,
) -> Seq<char> {
    "    llvm_execute_func ["@ + joined(call_args, ", "@) + "];\n\n"@
        + declared_outputs(buf.cryptol_fn_out@, buf, args) + annotated_outputs(outputs, args)
        + returned + "};\n\n"@
}

fn make_return(ctx: &PostconditionCtx<'_>, call: &str) -> (r: String)
    requires
        ctx.return_bridge matches Some(b) ==> return_bridge_ok(*b),
    ensures
        returns_as(*ctx, call@, r@),
{
    broadcast use {group_append, group_views};
    match ctx.return_bridge {
        Some(b) => b.emit_saw_return(call),
        None => {
            let mut r = String::new();
            let is_void = match ctx.return_type {
                TypeInfo::Void => true,
                _ => false,
            };
            put_return(
                &mut r,
                cryptol_return_for(call, ctx.return_type).as_str(),
                ctx.is_sret,
                is_void,
                ctx.sub_callee_specs.len() > 0,
            );
            r
        },
    }
}

/// Emits the call and what holds after it, and closes the specification.
///
/// The statement of what the function returns is fixed by the context and
/// the call, and with it the text.
pub fn emit_postcondition_and_close(
    out: &mut String,
    cryptol_fn: &str,
    cryptol_args: &Vec<String>,
    execute_args: &Vec<String>,
    ctx: &PostconditionCtx<'_>,
    buffer_overrides: &BufferOverrides,
)
    requires
        ctx.return_bridge matches Some(b) ==> return_bridge_ok(*b),
    ensures
        exists|returned: Seq<char>| #[trigger]
            returns_as(
                *ctx,
                call_text(
                    cryptol_fn@,
                    fn_args(buffer_overrides, cryptol_fn@, views(cryptol_args@)),
                ),
                returned,
            ) && final(out)@ == old(out)@ + close_text(
                views(cryptol_args@),
                views(execute_args@),
                pairs_view(ctx.auto_out_postconds@),
                buffer_overrides,
                returned,
            ),
{
    broadcast use {group_append, group_views};
    let call = make_fn_call(buffer_overrides, cryptol_fn, cryptol_args);
    let returned = make_return(ctx, call.as_str());
    put3(out, "    llvm_execute_func [", join(execute_args, ", ").as_str(), "];\n\n");
    put_declared_outputs(
        out,
        buffer_overrides.cryptol_fn_out.as_slice(),
        buffer_overrides,
        cryptol_args,
    );
    put_annotated_outputs(out, ctx.auto_out_postconds, cryptol_args);
    put(out, returned.as_str());
    put(out, "};\n\n");
}

/// The interfaces that the verified function uses.
pub struct InterfaceCtx<'a> {
    pub has_interfaces: bool,
    pub vmethods: &'a [InterfaceMethod],
    pub constructors: &'a [ClassConstructor],
}

/// The classes whose constructors are overridden, each once. Constructors
/// with Itanium names are not.
pub open spec fn ctor_ids(v: Seq<ClassConstructor>) -> Seq<Seq<char>>
    decreases v.len(),
{
    if v.len() == 0 {
        Seq::empty()
    } else {
        let rest = ctor_ids(v.drop_last());
        let id = lower_id(v.last().class_name@);
        if starts(v.last().mangled_name@, "_Z"@) || rest.contains(id) {
            rest
        } else {
            rest.push(id)
        }
    }
}

fn find_ctor_ids(v: &[ClassConstructor]) -> (ids: Vec<String>)
    ensures
        views(ids@) == ctor_ids(v@),
{
    broadcast use {group_append, group_views};
    let mut ids: Vec<String> = Vec::new();
    let mut i: usize = 0;
    assert(v@.take(0) =~= Seq::empty());
    while i < v.len()
        invariant
            i <= v@.len(),
            views(ids@) == ctor_ids(v@.take(i as int)),
        decreases v@.len() - i,
    {
        assert(v@.take(i + 1).drop_last() =~= v@.take(i as int));
        if !starts_with(v[i].mangled_name.as_str(), "_Z") {
            let id = sanitize_lower(v[i].class_name.as_str());
            if !list_has(&ids, id.as_str()) {
                ids.push(id);
            }
        }
        i += 1;
    }
    assert(v@.take(v@.len() as int) =~= v@);
    ids
}

/// The name of the override of a constructor.
pub open spec fn ctor_name(id: Seq<char>) -> Seq<char> {
    "ov_"@ + id + "_ctor"@
}

/// The names of the overrides of constructors.
pub open spec fn ctor_names(ids: Seq<Seq<char>>) -> Seq<Seq<char>> {
    Seq::new(ids.len(), |i: int| ctor_name(ids[i]))
}

fn make_ctor_name(id: &str) -> (r: String)
    ensures
        r@ == ctor_name(id@),
{
    broadcast use {group_append, group_views};
    let mut r = String::new();
    put3(&mut r, "ov_", id, "_ctor");
    r
}

fn push_ctor_names(names: &mut Vec<String>, ids: &Vec<String>)
    ensures
        views(final(names)@) == views(old(names)@) + ctor_names(views(ids@)),
{
    let ghost v = views(ids@);
    let mut i: usize = 0;
    assert(views(names@) =~= views(names@) + ctor_names(v.take(0)));
    while i < ids.len()
        invariant
            v == views(ids@),
            i <= ids@.len(),
            views(names@) == views(old(names)@) + ctor_names(v.take(i as int)),
        decreases ids@.len() - i,
    {
        let name = make_ctor_name(ids[i].as_str());
        let ghost before = views(names@);
        names.push(name);
        proof {
            assert(v[i as int] == ids@[i as int]@);
            assert(views(names@) =~= before.push(ctor_name(v[i as int])));
            assert(ctor_names(v.take(i + 1)) =~= ctor_names(v.take(i as int)).push(
                ctor_name(v[i as int]),
            ));
        }
        i += 1;
    }
    assert(v.take(v.len() as int) =~= v);
}

/// The names of the overrides of methods: a method that overrides another shares its stub.
pub open spec fn method_names_item(m: InterfaceMethod, all: Seq<InterfaceMethod>) -> Seq<Seq<char>> {
    if m.is_override && originates(all, m.method.name@) {
        Seq::empty()
    } else {
        seq![bound_name(stub_id(m))]
    }
}

fn put_method_names_item(out: &mut Vec<String>, m: &InterfaceMethod, all: &[InterfaceMethod])
    ensures
        views(final(out)@) == views(old(out)@) + method_names_item(*m, all@),
{
    broadcast use {group_append, group_views};
    if !(m.is_override && originating(all, m.method.name.as_str())) {
        let mut name = String::new();
        put2(&mut name, "ov_", stub_identifier(m).as_str());
        out.push(name);
    }
}

/// The names of the overrides of methods: a method that overrides another shares its stub.
pub open spec fn method_names(v: Seq<InterfaceMethod>, all: Seq<InterfaceMethod>) -> Seq<Seq<char>>
    decreases v.len(),
{
    if v.len() == 0 {
        Seq::empty()
    } else {
        method_names(v.drop_last(), all) + method_names_item(v.last(), all)
    }
}

/// The names of the overrides of methods: a method that overrides another shares its stub.
fn put_method_names(out: &mut Vec<String>, v: &[InterfaceMethod], all: &[InterfaceMethod])
    ensures
        views(final(out)@) == views(old(out)@) + method_names(v@, all@),
{
    broadcast use lemma_append_nothing;
    let mut i: usize = 0;
    assert(method_names(v@.take(0), all@) =~= Seq::<Seq<char>>::empty());
    while i < v.len()
        invariant
            i <= v@.len(),
            views(out@) == views(old(out)@) + method_names(v@.take(i as int), all@),
        decreases v@.len() - i,
    {
        proof {
            assert(v@.take(i + 1).drop_last() =~= v@.take(i as int));
            lemma_append_assoc(views(old(out)@), method_names(v@.take(i as int), all@), method_names_item(v@[i as int], all@));
        }
        put_method_names_item(out, &v[i], all);
        i += 1;
    }
    assert(v@.take(v@.len() as int) =~= v@);
}

/// All overrides that the verification uses.
pub open spec fn used_overrides(
    names: Seq<Seq<char>>,
    has_interfaces: bool,
    methods: Seq<InterfaceMethod>,
    constructors: Seq<ClassConstructor>,
) -> Seq<Seq<char>> {
    if has_interfaces {
        names + ctor_names(ctor_ids(constructors)) + method_names(methods, methods)
    } else {
        names
    }
}

/// A list of overrides: on one line, or on a line each where there are
/// more than four.
pub open spec fn override_args(names: Seq<Seq<char>>) -> Seq<char> {
    if names.len() <= 4 {
        "["@ + joined(names, ", "@) + "]"@
    } else {
        "[\n     "@ + joined(names, ",\n     "@) + "]"@
    }
}

fn make_override_args(names: &Vec<String>) -> (r: String)
    ensures
        r@ == override_args(views(names@)),
{
    broadcast use {group_append, group_views};
    let mut r = String::new();
    if names.len() <= 4 {
        put3(&mut r, "[", join(names, ", ").as_str(), "]");
    } else {
        put3(&mut r, "[\n     ", join(names, ",\n     ").as_str(), "]");
    }
    r
}

/// The loop invariants that the proof uses.
pub open spec fn invariant_lines_item(s: String) -> Seq<char> {
    "//   - "@ + s@ + "\n"@
}

fn put_invariant_lines_item(out: &mut String, s: &String)
    ensures
        final(out)@ == old(out)@ + invariant_lines_item(*s),
{
    broadcast use {group_append, group_views};
    put3(out, "//   - ", s.as_str(), "\n");
}

/// The loop invariants that the proof uses.
pub open spec fn invariant_lines(v: Seq<String>) -> Seq<char>
    decreases v.len(),
{
    if v.len() == 0 {
        nil()
    } else {
        invariant_lines(v.drop_last()) + invariant_lines_item(v.last())
    }
}

/// The loop invariants that the proof uses.
fn put_invariant_lines(out: &mut String, v: &[String])
    ensures
        final(out)@ == old(out)@ + invariant_lines(v@),
{
    broadcast use lemma_append_nothing;
    let mut i: usize = 0;
    assert(invariant_lines(v@.take(0)) =~= nil());
    while i < v.len()
        invariant
            i <= v@.len(),
            out@ == old(out)@ + invariant_lines(v@.take(i as int)),
        decreases v@.len() - i,
    {
        proof {
            assert(v@.take(i + 1).drop_last() =~= v@.take(i as int));
            lemma_append_assoc(old(out)@, invariant_lines(v@.take(i as int)), invariant_lines_item(v@[i as int]));
        }
        put_invariant_lines_item(out, &v[i]);
        i += 1;
    }
    assert(v@.take(v@.len() as int) =~= v@);
}

/// The command that verifies: with loop invariants, the one that solves
/// constrained Horn clauses.
pub open spec fn verify_command(invariants: Seq<String>) -> Seq<char> {
    if invariants.len() == 0 {
        "llvm_verify"@
    } else {
        "llvm_verify_fixpoint_chc"@
    }
}

/// The step that verifies.
pub open spec fn verify_text(
    step: nat,
    function: Seq<char>,
    cryptol_fn: Seq<char>,
    mangled: Seq<char>,
    overrides: Seq<Seq<char>>,
    invariants: Seq<String>,
) -> Seq<char> {
    let mode = only_if(invariants.len() > 0, "// proof_mode: invariant\n"@);
    "// Step "@ + dec(step) + ": Verify equivalence\n"@ + "print \"BEGIN_PROOF "@ + function
        + "\";\n"@ + "print \"=== Checking: "@ + function + " == "@ + cryptol_fn
        + " (Cryptol) ===\";\n"@ + mode + invariant_lines(invariants)
        + verify_command(invariants) + " m \""@ + mangled + "\"\n    "@
        + override_args(overrides) + "\n    false "@ + function + "_equiv_spec z3;\n\n"@
        + "print \"=== VERIFIED: "@ + function + " == "@ + cryptol_fn + " ===\";\n"@
        + "print \"PROVED "@ + function + "\";\n"@
}

fn add_interface_overrides(names: &mut Vec<String>, iface: &InterfaceCtx<'_>)
    ensures
        views(final(names)@) == used_overrides(
            views(old(names)@),
            iface.has_interfaces,
            iface.vmethods@,
            iface.constructors@,
        ),
{
    if iface.has_interfaces {
        let ctors = find_ctor_ids(iface.constructors);
        push_ctor_names(names, &ctors);
        put_method_names(names, iface.vmethods, iface.vmethods);
    }
}

/// Emits the step that verifies. `BEGIN_PROOF` comes before the command
/// and `PROVED` after it: SAW stops the script where a proof fails.
pub fn emit_verify_step(
    out: &mut String,
    step: u32,
    function_name: &str,
    cryptol_fn: &str,
    mangled_name: &str,
    iface: &InterfaceCtx<'_>,
    override_names: Vec<String>,
    loop_invariants: &[String],
)
    ensures
        final(out)@ == old(out)@ + verify_text(
            step as nat,
            function_name@,
            cryptol_fn@,
            mangled_name@,
            used_overrides(
                views(override_names@),
                iface.has_interfaces,
                iface.vmethods@,
                iface.constructors@,
            ),
            loop_invariants@,
        ),
{
    broadcast use {group_append, group_views};
    let mut overrides = override_names;
    add_interface_overrides(&mut overrides, iface);
    let list = make_override_args(&overrides);
    put(out, "// Step ");
    put_dec(out, step as u128);
    put(out, ": Verify equivalence\n");
    put3(out, "print \"BEGIN_PROOF ", function_name, "\";\n");
    put5(out, "print \"=== Checking: ", function_name, " == ", cryptol_fn, " (Cryptol) ===\";\n");
    if loop_invariants.len() > 0 {
        put(out, "// proof_mode: invariant\n");
    }
    put_invariant_lines(out, loop_invariants);
    let command = if loop_invariants.len() == 0 {
        "llvm_verify"
    } else {
        "llvm_verify_fixpoint_chc"
    };
    put7(
        out,
        command,
        " m \"",
        mangled_name,
        "\"\n    ",
        list.as_str(),
        "\n    false ",
        function_name,
    );
    put(out, "_equiv_spec z3;\n\n");
    put5(out, "print \"=== VERIFIED: ", function_name, " == ", cryptol_fn, " ===\";\n");
    put3(out, "print \"PROVED ", function_name, "\";\n");
}

/// The proof is announced before the command that runs it, and its
/// success is reported after it.
pub proof fn law_markers_enclose_the_proof(
    step: nat,
    function: Seq<char>,
    cryptol_fn: Seq<char>,
    mangled: Seq<char>,
    overrides: Seq<Seq<char>>,
    invariants: Seq<String>,
)
    ensures
        in_turn(
            verify_text(step, function, cryptol_fn, mangled, overrides, invariants),
            "print \"BEGIN_PROOF "@ + function + "\";\n"@,
            verify_command(invariants) + " m \""@ + mangled + "\""@,
            "print \"PROVED "@ + function + "\";\n"@,
        ),
{
    broadcast use {group_append, group_views};

    let mode = only_if(invariants.len() > 0, "// proof_mode: invariant\n"@);
    let a = "// Step "@ + dec(step) + ": Verify equivalence\n"@;
    let begin = "print \"BEGIN_PROOF "@ + function + "\";\n"@;
    let b = "print \"=== Checking: "@ + function + " == "@ + cryptol_fn + " (Cryptol) ===\";\n"@
        + mode + invariant_lines(invariants);
    let command = verify_command(invariants) + " m \""@ + mangled + "\""@;
    let proved = "print \"PROVED "@ + function + "\";\n"@;
    let text = verify_text(step, function, cryptol_fn, mangled, overrides, invariants);
    reveal_strlit("\"");
    reveal_strlit("\"\n    ");
    reveal_strlit("\n    ");
    assert("\"\n    "@ =~= "\""@ + "\n    "@);
    let c = "\n    "@ + override_args(overrides) + "\n    false "@ + function
        + "_equiv_spec z3;\n\n"@ + "print \"=== VERIFIED: "@ + function + " == "@ + cryptol_fn
        + " ===\";\n"@;
    assert(text == a + begin + b + command + c + proved + nil());
    lemma_in_turn(a, begin, b, command, c, proved, nil());
}

} // verus!
