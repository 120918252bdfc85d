//! What the verification script says of each parameter, of the call and of
//! the result, line by line.

use vstd::prelude::*;

use crate::buffer_overrides::{BufferOverrides, out_from, size_from};
use crate::constraints::{
    globals_view, GlobalView, ParamConstraint, ParamInfo, SpecConstraint, TypeInfo, TypeView,
};
use crate::cryptol_bridge::result_text;
use crate::llvm_laws::lemma_allocator;
use crate::names::{byte_array_buffer, lower_id};
use crate::overrides::{container_of, interface_name};
use crate::stubs::AssembledStubs;
use crate::text::{
    CharSet, dec, group_append, joined, lemma_append_assoc, lemma_append_nothing,
    lemma_nothing_append, nil, only_if, starts, trimmed_start,
};
use crate::text_order::{
    group_order, in_order, lemma_in_order_ahead, lemma_in_order_behind, lemma_in_order_first,
    lemma_in_order_join, lemma_in_order_more, lemma_lines_before, lemma_list_of_five,
    lemma_list_of_three, lemma_list_of_two, lemma_lists, lemma_none_in_order, lemma_one_in_order,
    lemma_self_in_order, lemma_three_in_order, lemma_two_in_order,
};
use crate::verify_script::{
    ScriptOverrides, ScriptTarget, annotated_params, bound_overrides, header_text, method_classes,
    override_steps, script_text, steps_after,
};
use crate::verify_script_close::{
    annotated_outputs, annotated_outputs_item, close_text, declared_outputs, declared_outputs_item,
    return_text, used_overrides, verify_text, with_prestate,
};
use crate::verify_script_precond::{length_note, noteless, precondition_text, preconditions};
use crate::verify_script_steps::{
    SretPrestate, StepView, array_len, buffer_step, call_args, call_text, cryptol_args,
    declarations, declared_preconditions, equiv_call_args, equiv_cryptol_args, equiv_text, fn_args,
    global_setup, global_setup_item, late_preconditions, lemma_call_args, length_bounds,
    length_bounds_item, load_text, object_lines, param_type, plain_step, prestate_type, sret_text,
    value_bits,
};

verus! {

/// What stands before and behind the text of one item.
pub proof fn lemma_declarations_splits(v: Seq<StepView>, i: int) -> (r: (Seq<char>, Seq<char>))
    requires
        0 <= i < v.len(),
    ensures
        declarations(v) == r.0 + v[i].declaration + r.1,
    decreases v.len(),
{
    let last = v.last().declaration;
    if i == v.len() - 1 {
        lemma_append_nothing(declarations(v.drop_last()) + last);
        (declarations(v.drop_last()), nil())
    } else {
        let r = lemma_declarations_splits(v.drop_last(), i);
        lemma_append_assoc(r.0 + v[i].declaration, r.1, last);
        (r.0, r.1 + last)
    }
}

/// What stands before and behind the text of one item.
pub proof fn lemma_late_preconditions_splits(v: Seq<StepView>, i: int) -> (r: (Seq<char>, Seq<char>))
    requires
        0 <= i < v.len(),
    ensures
        late_preconditions(v) == r.0 + v[i].deferred + r.1,
    decreases v.len(),
{
    let last = v.last().deferred;
    if i == v.len() - 1 {
        lemma_append_nothing(late_preconditions(v.drop_last()) + last);
        (late_preconditions(v.drop_last()), nil())
    } else {
        let r = lemma_late_preconditions_splits(v.drop_last(), i);
        lemma_append_assoc(r.0 + v[i].deferred, r.1, last);
        (r.0, r.1 + last)
    }
}

/// What stands before and behind the text of one item.
pub proof fn lemma_global_setup_splits(v: Seq<GlobalView>, i: int) -> (r: (Seq<char>, Seq<char>))
    requires
        0 <= i < v.len(),
    ensures
        global_setup(v) == r.0 + global_setup_item(v[i]) + r.1,
    decreases v.len(),
{
    let last = global_setup_item(v.last());
    if i == v.len() - 1 {
        lemma_append_nothing(global_setup(v.drop_last()) + last);
        (global_setup(v.drop_last()), nil())
    } else {
        let r = lemma_global_setup_splits(v.drop_last(), i);
        lemma_append_assoc(r.0 + global_setup_item(v[i]), r.1, last);
        (r.0, r.1 + last)
    }
}

/// What stands before and behind the text of one item.
pub proof fn lemma_declared_outputs_splits(v: Seq<(String, String)>, buf: &BufferOverrides, args: Seq<Seq<char>>, i: int) -> (r: (Seq<char>, Seq<char>))
    requires
        0 <= i < v.len(),
    ensures
        declared_outputs(v, buf, args) == r.0 + declared_outputs_item(v[i], buf, args) + r.1,
    decreases v.len(),
{
    let last = declared_outputs_item(v.last(), buf, args);
    if i == v.len() - 1 {
        lemma_append_nothing(declared_outputs(v.drop_last(), buf, args) + last);
        (declared_outputs(v.drop_last(), buf, args), nil())
    } else {
        let r = lemma_declared_outputs_splits(v.drop_last(), buf, args, i);
        lemma_append_assoc(r.0 + declared_outputs_item(v[i], buf, args), r.1, last);
        (r.0, r.1 + last)
    }
}

/// What stands before and behind the text of one item.
pub proof fn lemma_annotated_outputs_splits(v: Seq<(Seq<char>, Seq<char>)>, args: Seq<Seq<char>>, i: int) -> (r: (Seq<char>, Seq<char>))
    requires
        0 <= i < v.len(),
    ensures
        annotated_outputs(v, args) == r.0 + annotated_outputs_item(v[i], args) + r.1,
    decreases v.len(),
{
    let last = annotated_outputs_item(v.last(), args);
    if i == v.len() - 1 {
        lemma_append_nothing(annotated_outputs(v.drop_last(), args) + last);
        (annotated_outputs(v.drop_last(), args), nil())
    } else {
        let r = lemma_annotated_outputs_splits(v.drop_last(), args, i);
        lemma_append_assoc(r.0 + annotated_outputs_item(v[i], args), r.1, last);
        (r.0, r.1 + last)
    }
}

/// What stands before and behind the text of one item.
pub proof fn lemma_length_bounds_splits(v: Seq<(String, String)>, i: int) -> (r: (Seq<char>, Seq<char>))
    requires
        0 <= i < v.len(),
    ensures
        length_bounds(v) == r.0 + length_bounds_item(v[i]) + r.1,
    decreases v.len(),
{
    let last = length_bounds_item(v.last());
    if i == v.len() - 1 {
        lemma_append_nothing(length_bounds(v.drop_last()) + last);
        (length_bounds(v.drop_last()), nil())
    } else {
        let r = lemma_length_bounds_splits(v.drop_last(), i);
        lemma_append_assoc(r.0 + length_bounds_item(v[i]), r.1, last);
        (r.0, r.1 + last)
    }
}

/// What stands before and behind the text of one item.
pub proof fn lemma_preconditions_splits(v: Seq<String>, i: int) -> (r: (Seq<char>, Seq<char>))
    requires
        0 <= i < v.len(),
    ensures
        preconditions(v) == r.0 + precondition_text(v[i]@) + r.1,
    decreases v.len(),
{
    let last = precondition_text(v.last()@);
    if i == v.len() - 1 {
        lemma_append_nothing(preconditions(v.drop_last()) + last);
        (preconditions(v.drop_last()), nil())
    } else {
        let r = lemma_preconditions_splits(v.drop_last(), i);
        lemma_append_assoc(r.0 + precondition_text(v[i]@), r.1, last);
        (r.0, r.1 + last)
    }
}

/// Is a parameter modelled as plain memory or as a plain value? An object of
/// an interface and a container of such objects are not.
pub open spec fn is_plain(target: &ScriptTarget, i: int) -> bool {
    let classes = method_classes(target.vmethods@);
    0 <= i < target.function.params@.len() ==> {
        let ty = target.function.params@[i].ty;
        &&& ty is Pointer ==> interface_name(ty@, classes) is None
        &&& container_of(&ty, classes) is None
    }
}

/// Does the user declare the parameter a buffer?
pub open spec fn is_buffer(buf: &BufferOverrides, name: Seq<char>) -> bool {
    ||| exists|k: int| 0 <= k < buf.in_buffer_sizes@.len() && (#[trigger] buf.in_buffer_sizes@[k]).0@ == name
    ||| exists|k: int| 0 <= k < buf.out_buffers@.len() && (#[trigger] buf.out_buffers@[k]).0@ == name
}

/// Is the memory behind the parameter written, so that what it holds before
/// the call has a name of its own?
pub open spec fn is_written(p: ParamConstraint, buf: &BufferOverrides) -> bool {
    if is_buffer(buf, p.name@) {
        exists|k: int| 0 <= k < buf.out_buffers@.len() && (#[trigger] buf.out_buffers@[k]).0@ == p.name@
    } else {
        !(p.alloc_type is FreshVar) && p.out_postcond is Some
    }
}

/// The variable for what a plain parameter holds before the call.
pub open spec fn value_name(p: ParamConstraint, buf: &BufferOverrides) -> Seq<char> {
    if is_written(p, buf) {
        p.name@ + "_pre"@
    } else {
        p.name@
    }
}

/// What the Cryptol function takes for a plain parameter: its variable, or
/// the bit in it where it is a truth value or points to one.
pub open spec fn cryptol_value(target: &ScriptTarget, buf: &BufferOverrides, i: int) -> Seq<char> {
    let p = target.spec.params@[i];
    let v = value_name(p, buf);
    if !is_buffer(buf, p.name@) && 0 <= i < target.function.params@.len() && (
    target.function.params@[i].ty@ is Bool || target.function.params@[i].ty@ == TypeView::Pointer(
        Box::new(TypeView::Bool),
    )) {
        "("@ + v + " ! 0)"@
    } else {
        v
    }
}

/// What the Cryptol function takes: each plain parameter, in the order of the
/// parameters.
pub open spec fn cryptol_values(target: &ScriptTarget, buf: &BufferOverrides) -> Seq<Seq<char>> {
    Seq::new(target.spec.params@.len(), |i: int| i).filter(|i: int| is_plain(target, i)).map_values(
        |i: int| cryptol_value(target, buf, i),
    )
}

/// A name is found where it stands.
proof fn lemma_sizes(v: Seq<(String, u64)>, name: Seq<char>, i: int)
    requires
        0 <= i <= v.len(),
    ensures
        size_from(v, name, i) is Some <==> exists|k: int|
            i <= k < v.len() && (#[trigger] v[k]).0@ == name,
    decreases v.len() - i,
{
    if i < v.len() && v[i].0@ != name {
        lemma_sizes(v, name, i + 1);
    }
}

/// A name is found where it stands.
proof fn lemma_outs(v: Seq<(String, Option<u64>)>, name: Seq<char>, i: int)
    requires
        0 <= i <= v.len(),
    ensures
        out_from(v, name, i) is Some <==> exists|k: int|
            i <= k < v.len() && (#[trigger] v[k]).0@ == name,
    decreases v.len() - i,
{
    if i < v.len() && v[i].0@ != name {
        lemma_outs(v, name, i + 1);
    }
}

/// What the script does for a plain parameter.
proof fn lemma_plain_step(target: &ScriptTarget, buf: &BufferOverrides, i: int)
    requires
        0 <= i < target.spec.params@.len(),
        is_plain(target, i),
    ensures
        ({
            let p = target.spec.params@[i];
            let v = value_name(p, buf);
            let step = target.steps(buf)[i];
            &&& step.cryptol_arg == Some(cryptol_value(target, buf, i))
            &&& is_buffer(buf, p.name@) ==> step == buffer_step(&p, buf) && step.call_arg == p.name@
                + "_ptr"@ && buf.value_var(p.name@) == v
            &&& !is_buffer(buf, p.name@) ==> step == plain_step(&p, param_type(target.function.params@, i))
            &&& step.call_arg == if p.alloc_type is FreshVar && !is_buffer(buf, p.name@) {
                "llvm_term "@ + p.name@
            } else {
                p.name@ + "_ptr"@
            }
        }),
{
    let name = target.spec.params@[i].name@;
    lemma_sizes(buf.in_buffer_sizes@, name, 0);
    lemma_outs(buf.out_buffers@, name, 0);
    assert(is_buffer(buf, name) == (buf.in_buffer(name) || buf.out_buffer(name)));
}

/// The arguments that the steps give to the Cryptol function.
proof fn lemma_cryptol_values(target: &ScriptTarget, buf: &BufferOverrides, n: int)
    requires
        0 <= n <= target.spec.params@.len(),
    ensures
        cryptol_args(target.steps(buf).take(n)) =~= Seq::new(n as nat, |i: int| i).filter(
            |i: int| is_plain(target, i),
        ).map_values(|i: int| cryptol_value(target, buf, i)),
    decreases n,
{
    reveal(Seq::filter);
    let steps = target.steps(buf);
    let all = Seq::new(n as nat, |i: int| i);
    let pred = |i: int| is_plain(target, i);
    let value = |i: int| cryptol_value(target, buf, i);
    if n > 0 {
        lemma_cryptol_values(target, buf, n - 1);
        let short = Seq::new((n - 1) as nat, |i: int| i);
        assert(all.drop_last() =~= short);
        assert(steps.take(n).drop_last() =~= steps.take(n - 1));
        assert(steps.take(n).last() == steps[n - 1]);
        if is_plain(target, n - 1) {
            lemma_plain_step(target, buf, n - 1);
            assert(all.filter(pred) == short.filter(pred).push(n - 1));
            assert(all.filter(pred).map_values(value) =~= short.filter(pred).map_values(value).push(
                cryptol_value(target, buf, n - 1),
            ));
        } else {
            assert(all.filter(pred) == short.filter(pred));
            assert(steps[n - 1].cryptol_arg is None);
        }
    } else {
        assert(all.filter(pred) =~= Seq::<int>::empty());
    }
}

/// What the Cryptol function takes for what a returned aggregate holds before
/// the call, where it takes anything for it.
pub open spec fn hidden_values(target: &ScriptTarget) -> Seq<Seq<char>> {
    if !target.spec.return_constraint.is_sret {
        Seq::empty()
    } else {
        match target.sret_prestate {
            Some(p) => if p.drop_bytes == 0 && (array_len(target.spec.return_constraint.saw_type@) matches Some(n)
                ==> n <= p.take_bytes) {
                seq!["preBytes"@]
            } else {
                seq!["(take`{"@ + dec(p.take_bytes as nat) + "} (drop`{"@
                    + dec(p.drop_bytes as nat) + "} preBytes))"@]
            },
            None => if target.spec.return_constraint.sret_prestate {
                seq!["result_pre"@]
            } else {
                Seq::empty()
            },
        }
    }
}

/// The call of a Cryptol function on the values of the parameters, or on the
/// arguments that the user declares for it.
pub open spec fn cryptol_call(target: &ScriptTarget, buf: &BufferOverrides, f: Seq<char>) -> Seq<char> {
    let args = match buf.call_args(f) {
        Some(declared) => declared,
        None => cryptol_values(target, buf) + hidden_values(target),
    };
    if args.len() == 0 {
        f
    } else {
        f + " "@ + joined(args, " "@)
    }
}

/// The arguments that the steps give to the Cryptol function.
proof fn lemma_equiv_cryptol_args(target: &ScriptTarget, buf: &BufferOverrides)
    ensures
        equiv_cryptol_args(target.spec, target.steps(buf), target.prestate()) == cryptol_values(
            target,
            buf,
        ) + hidden_values(target),
{
    let n = target.spec.params@.len() as int;
    lemma_cryptol_values(target, buf, n);
    assert(target.steps(buf).take(n) =~= target.steps(buf));
    assert(equiv_cryptol_args(target.spec, target.steps(buf), target.prestate()) =~= cryptol_values(
        target,
        buf,
    ) + hidden_values(target));
}

/// The setup of the specification: all that comes before the call.
#[verifier::opaque]
pub open spec fn setup_part(target: &ScriptTarget, o: ScriptOverrides, buf: &BufferOverrides) -> Seq<char> {
    equiv_text(
        steps_after(o, 1) + 1,
        target.function_name@,
        target.cryptol_fn@,
        target.spec,
        target.steps(buf),
        globals_view(target.all_globals@),
        target.prestate(),
        buf,
    )
}

/// The rest of the specification: the call and all that comes behind it.
#[verifier::opaque]
pub open spec fn call_part(target: &ScriptTarget, o: ScriptOverrides, buf: &BufferOverrides) -> Seq<char> {
    close_text(
        equiv_cryptol_args(target.spec, target.steps(buf), target.prestate()),
        equiv_call_args(target.spec, target.function.params@, target.steps(buf)),
        annotated_params(target.spec.params@),
        buf,
        returned_part(target, o, buf),
    )
}

/// What the specification says of the result.
#[verifier::opaque]
pub open spec fn returned_part(target: &ScriptTarget, o: ScriptOverrides, buf: &BufferOverrides) -> Seq<char> {
    let args = equiv_cryptol_args(target.spec, target.steps(buf), target.prestate());
    return_text(
        result_text(
            call_text(target.cryptol_fn@, fn_args(buf, target.cryptol_fn@, args)),
            target.function.return_type@,
        ),
        target.spec.return_constraint.is_sret,
        target.function.return_type is Void,
        o.sub_callee_specs@.len() > 0,
    )
}

/// What stands in the setup and what stands in the rest of the specification
/// stands in the script, in this order.
proof fn lemma_script_in_order(
    bitcode: Seq<char>,
    cryptol: Seq<char>,
    target: &ScriptTarget,
    o: ScriptOverrides,
    stubs: &AssembledStubs,
    buf: &BufferOverrides,
    v: Seq<Seq<char>>,
    w: Seq<Seq<char>>,
)
    requires
        in_order(setup_part(target, o, buf), v),
        in_order(call_part(target, o, buf), w),
    ensures
        in_order(script_text(bitcode, cryptol, target, o, stubs, buf), v + w),
{
    reveal(setup_part);
    reveal(call_part);
    reveal(returned_part);
    let n = steps_after(o, 1);
    let spec = target.spec_text(buf, o.sub_callee_specs@.len() > 0, n + 1);
    lemma_in_order_join(setup_part(target, o, buf), v, call_part(target, o, buf), w);
    assert(spec == setup_part(target, o, buf) + call_part(target, o, buf));
    let experimental = o.external_calls@.len() > 0 || o.has_interfaces
        || o.sub_callee_specs@.len() > 0 || o.bitcode.override_names@.len() > 0;
    let head = header_text(
        target.function_name@,
        target.mangled_name@,
        cryptol,
        target.cryptol_fn@,
        experimental,
    ) + load_text(1, o.has_interfaces, bitcode, stubs) + override_steps(o, cryptol, 1);
    let tail = verify_text(
        n + 2,
        target.function_name@,
        target.cryptol_fn@,
        target.mangled_name@,
        used_overrides(
            bound_overrides(o),
            o.has_interfaces,
            target.vmethods@,
            target.constructors@,
        ),
        target.loop_invariants@,
    );
    lemma_in_order_more(head, spec, tail, v + w);
}

/// What a part of the setup holds, the setup holds.
proof fn lemma_setup_in_order(
    target: &ScriptTarget,
    o: ScriptOverrides,
    buf: &BufferOverrides,
    v: Seq<Seq<char>>,
)
    requires
        ({
            let args = equiv_cryptol_args(target.spec, target.steps(buf), target.prestate());
            ||| in_order(declarations(target.steps(buf)), v)
            ||| in_order(late_preconditions(target.steps(buf)), v)
            ||| in_order(
                only_if(
                    target.spec.return_constraint.is_sret,
                    sret_text(target.spec, target.prestate()),
                ),
                v,
            )
            ||| in_order(declared_preconditions(buf, args), v)
            ||| in_order(global_setup(globals_view(target.all_globals@)), v)
        }),
    ensures
        in_order(setup_part(target, o, buf), v),
{
    reveal(setup_part);
    let steps = target.steps(buf);
    let args = equiv_cryptol_args(target.spec, steps, target.prestate());
    let step = steps_after(o, 1) + 1;
    let head = "// Step "@ + dec(step) + ": Equivalence spec — C++ "@ + target.function_name@
        + " == Cryptol "@ + target.cryptol_fn@ + "\n"@ + "let "@ + target.function_name@
        + "_equiv_spec = do {\n"@;
    let a = declarations(steps);
    let b = late_preconditions(steps);
    let c = only_if(
        target.spec.return_constraint.is_sret,
        sret_text(target.spec, target.prestate()),
    );
    let d = declared_preconditions(buf, args);
    let e = global_setup(globals_view(target.all_globals@));
    assert(setup_part(target, o, buf) == head + a + b + c + "\n"@ + d + e);
    if in_order(e, v) {
        lemma_in_order_ahead(head + a + b + c + "\n"@ + d, e, v);
    } else {
        if in_order(d, v) {
            lemma_in_order_ahead(head + a + b + c + "\n"@, d, v);
        } else {
            if in_order(c, v) {
                lemma_in_order_ahead(head + a + b, c, v);
            } else {
                if in_order(b, v) {
                    lemma_in_order_ahead(head + a, b, v);
                } else {
                    lemma_in_order_ahead(head, a, v);
                    lemma_in_order_behind(head + a, b, v);
                }
                lemma_in_order_behind(head + a + b, c, v);
            }
            lemma_in_order_behind(head + a + b + c, "\n"@, v);
            lemma_in_order_behind(head + a + b + c + "\n"@, d, v);
        }
        lemma_in_order_behind(head + a + b + c + "\n"@ + d, e, v);
    }
}

/// The call comes first, then the outputs, then the result.
proof fn lemma_call_part_in_order(
    target: &ScriptTarget,
    o: ScriptOverrides,
    buf: &BufferOverrides,
    w: Seq<Seq<char>>,
)
    requires
        ({
            let args = equiv_cryptol_args(target.spec, target.steps(buf), target.prestate());
            ||| in_order(declared_outputs(buf.cryptol_fn_out@, buf, args), w)
            ||| in_order(annotated_outputs(annotated_params(target.spec.params@), args), w)
            ||| in_order(returned_part(target, o, buf), w)
        }),
    ensures
        in_order(call_part(target, o, buf), seq!["    llvm_execute_func ["@] + w),
        in_order(
            call_part(target, o, buf),
            seq!["    llvm_execute_func ["@
                + joined(equiv_call_args(target.spec, target.function.params@, target.steps(buf)), ", "@)
                + "];\n\n"@],
        ),
{
    reveal(call_part);
    let args = equiv_cryptol_args(target.spec, target.steps(buf), target.prestate());
    let given = joined(
        equiv_call_args(target.spec, target.function.params@, target.steps(buf)),
        ", "@,
    );
    let call = "    llvm_execute_func ["@;
    let line = "    llvm_execute_func ["@ + given + "];\n\n"@;
    let a = declared_outputs(buf.cryptol_fn_out@, buf, args);
    let b = annotated_outputs(annotated_params(target.spec.params@), args);
    let c = returned_part(target, o, buf);
    lemma_self_in_order(call);
    lemma_self_in_order(line);
    lemma_in_order_behind(call, given, seq![call]);
    lemma_in_order_behind(call + given, "];\n\n"@, seq![call]);
    lemma_in_order_behind(line, a, seq![call]);
    lemma_in_order_behind(line + a, b, seq![call]);
    lemma_in_order_behind(line, a, seq![line]);
    lemma_in_order_behind(line + a, b, seq![line]);
    lemma_in_order_behind(line + a + b, c, seq![line]);
    lemma_in_order_behind(line + a + b + c, "};\n\n"@, seq![line]);
    if in_order(c, w) {
        lemma_in_order_join(line + a + b, seq![call], c, w);
    } else {
        if in_order(b, w) {
            lemma_in_order_join(line + a, seq![call], b, w);
        } else {
            lemma_in_order_join(line, seq![call], a, w);
            lemma_in_order_behind(line + a, b, seq![call] + w);
        }
        lemma_in_order_behind(line + a + b, c, seq![call] + w);
    }
    lemma_in_order_behind(line + a + b + c, "};\n\n"@, seq![call] + w);
}

/// The result names the call of the Cryptol function.
proof fn lemma_returned_names_the_call(target: &ScriptTarget, o: ScriptOverrides, buf: &BufferOverrides)
    ensures
        in_order(
            returned_part(target, o, buf),
            seq![cryptol_call(target, buf, target.cryptol_fn@)],
        ),
{
    broadcast use group_order;

    reveal(returned_part);
    lemma_equiv_cryptol_args(target, buf);
    let call = cryptol_call(target, buf, target.cryptol_fn@);
    let result = result_text(call, target.function.return_type@);
    lemma_self_in_order(call);
    assert(in_order(result, seq![call]));
}

/// The lines that allocate memory, give it a fresh value and point to it.
pub proof fn lemma_object_lines(name: Seq<char>, val: Seq<char>, alloc: Seq<char>, ty: Seq<char>)
    ensures
        in_order(
            object_lines(name, val, alloc, ty),
            seq![
                "    "@ + name + "_ptr <- "@ + alloc + " ("@ + ty + ");\n"@,
                "    "@ + val + " <- llvm_fresh_var \""@ + val + "\" ("@ + ty + ");\n"@,
                "    llvm_points_to "@ + name + "_ptr (llvm_term "@ + val + ");\n"@,
            ],
        ),
{
    broadcast use group_append;

    let a = "    "@ + name + "_ptr <- "@ + alloc + " ("@ + ty + ");\n"@;
    let b = "    "@ + val + " <- llvm_fresh_var \""@ + val + "\" ("@ + ty + ");\n"@;
    let c = "    llvm_points_to "@ + name + "_ptr (llvm_term "@ + val + ");\n"@;
    lemma_three_in_order(nil(), a, nil(), b, nil(), c, nil());
    assert(object_lines(name, val, alloc, ty) == nil() + a + nil() + b + nil() + c + nil());
}

/// The type of the memory behind a plain parameter: a buffer of the size that
/// the user gives, or what the constraint says.
pub open spec fn memory_type(p: ParamConstraint, buf: &BufferOverrides) -> Seq<char> {
    match buf.buffer_type(p.name@) {
        Some(t) => t,
        None => p.saw_type@,
    }
}

/// How the memory behind a plain parameter is allocated: read-only unless it
/// may be written, and aligned where it is an array of bytes.
pub open spec fn memory_allocator(p: ParamConstraint, buf: &BufferOverrides) -> Seq<char> {
    let mutable = if is_buffer(buf, p.name@) {
        is_written(p, buf)
    } else {
        p.alloc_type is AllocMutable
    };
    let aligned = byte_array_buffer(memory_type(p, buf));
    if mutable && aligned {
        "llvm_alloc_aligned 8"@
    } else if mutable {
        "llvm_alloc"@
    } else if aligned {
        "llvm_alloc_readonly_aligned 8"@
    } else {
        "llvm_alloc_readonly"@
    }
}

/// A value of a parameter is among those that the Cryptol function takes.
proof fn lemma_value_is_taken(target: &ScriptTarget, buf: &BufferOverrides, i: int)
    requires
        0 <= i < target.spec.params@.len(),
        is_plain(target, i),
    ensures
        (cryptol_values(target, buf) + hidden_values(target)).contains(
            cryptol_value(target, buf, i),
        ),
        ({
            let v = value_name(target.spec.params@[i], buf);
            cryptol_value(target, buf, i) == v || cryptol_value(target, buf, i) == "("@ + v + " ! 0)"@
        }),
{
    let all = Seq::new(target.spec.params@.len(), |i: int| i);
    let pred = |i: int| is_plain(target, i);
    assert(all[i] == i);
    all.lemma_filter_contains(pred, i);
    let kept = all.filter(pred);
    assert(kept.contains(i));
    let k: int = choose|k: int| 0 <= k < kept.len() && kept[k] == i;
    assert(cryptol_values(target, buf) == kept.map_values(|i: int| cryptol_value(target, buf, i)));
    assert(cryptol_values(target, buf)[k] == cryptol_value(target, buf, i));
    assert((cryptol_values(target, buf) + hidden_values(target))[k] == cryptol_value(target, buf, i));
}

/// The lines of a parameter that is passed by pointer.
proof fn lemma_memory_lines(target: &ScriptTarget, buf: &BufferOverrides, i: int)
    requires
        0 <= i < target.spec.params@.len(),
        is_plain(target, i),
        !(target.spec.params@[i].alloc_type is FreshVar) || is_buffer(
            buf,
            target.spec.params@[i].name@,
        ),
    ensures
        ({
            let p = target.spec.params@[i];
            let name = p.name@;
            let v = value_name(p, buf);
            let ty = memory_type(p, buf);
            in_order(
                target.steps(buf)[i].declaration,
                seq![
                    "    "@ + name + "_ptr <- "@ + memory_allocator(p, buf) + " ("@ + ty
                        + ");\n"@,
                    "    "@ + v + " <- llvm_fresh_var \""@ + v + "\" ("@ + ty + ");\n"@,
                    "    llvm_points_to "@ + name + "_ptr (llvm_term "@ + v + ");\n"@,
                ],
            )
        }),
{
    let p = target.spec.params@[i];
    let name = p.name@;
    let v = value_name(p, buf);
    let ty = memory_type(p, buf);
    lemma_sizes(buf.in_buffer_sizes@, name, 0);
    lemma_outs(buf.out_buffers@, name, 0);
    lemma_plain_step(target, buf, i);
    let alloc = memory_allocator(p, buf);
    lemma_allocator(ty);
    let lines = seq![
        "    "@ + name + "_ptr <- "@ + alloc + " ("@ + ty + ");\n"@,
        "    "@ + v + " <- llvm_fresh_var \""@ + v + "\" ("@ + ty + ");\n"@,
        "    llvm_points_to "@ + name + "_ptr (llvm_term "@ + v + ");\n"@,
    ];
    lemma_object_lines(name, v, alloc, ty);
    if is_buffer(buf, name) {
        let pre = noteless(p.preconditions@, length_note(name), 0);
        lemma_in_order_behind(object_lines(name, v, alloc, ty), pre, lines);
    }
}

/// What the declaration of a parameter holds stands before the call, and the
/// call of the Cryptol function behind it.
#[verifier::rlimit(60)]
proof fn lemma_declared_before_the_call(
    bitcode: Seq<char>,
    cryptol: Seq<char>,
    target: &ScriptTarget,
    o: ScriptOverrides,
    stubs: &AssembledStubs,
    buf: &BufferOverrides,
    i: int,
    lines: Seq<Seq<char>>,
)
    requires
        0 <= i < target.spec.params@.len(),
        in_order(target.steps(buf)[i].declaration, lines),
    ensures
        in_order(
            script_text(bitcode, cryptol, target, o, stubs, buf),
            lines + seq!["    llvm_execute_func ["@, cryptol_call(target, buf, target.cryptol_fn@)],
        ),
{
    let steps = target.steps(buf);
    let s = lemma_declarations_splits(steps, i);
    lemma_in_order_more(s.0, steps[i].declaration, s.1, lines);
    lemma_setup_in_order(target, o, buf, lines);
    let call = "    llvm_execute_func ["@;
    let taken = cryptol_call(target, buf, target.cryptol_fn@);
    lemma_returned_names_the_call(target, o, buf);
    lemma_call_part_in_order(target, o, buf, seq![taken]);
    lemma_script_in_order(bitcode, cryptol, target, o, stubs, buf, lines, seq![call] + seq![taken]);
    lemma_lists(lines, call, taken, taken);
}

/// The lines of a parameter that is passed by pointer stand before the call.
#[verifier::rlimit(60)]
proof fn lemma_memory_before_the_call(
    bitcode: Seq<char>,
    cryptol: Seq<char>,
    target: &ScriptTarget,
    o: ScriptOverrides,
    stubs: &AssembledStubs,
    buf: &BufferOverrides,
    i: int,
)
    requires
        0 <= i < target.spec.params@.len(),
        is_plain(target, i),
        !(target.spec.params@[i].alloc_type is FreshVar) || is_buffer(
            buf,
            target.spec.params@[i].name@,
        ),
    ensures
        ({
            let p = target.spec.params@[i];
            let name = p.name@;
            let v = value_name(p, buf);
            let ty = memory_type(p, buf);
            in_order(
                script_text(bitcode, cryptol, target, o, stubs, buf),
                seq![
                    "    "@ + name + "_ptr <- "@ + memory_allocator(p, buf) + " ("@ + ty
                        + ");\n"@,
                    "    "@ + v + " <- llvm_fresh_var \""@ + v + "\" ("@ + ty + ");\n"@,
                    "    llvm_points_to "@ + name + "_ptr (llvm_term "@ + v + ");\n"@,
                    "    llvm_execute_func ["@,
                    cryptol_call(target, buf, target.cryptol_fn@),
                ],
            )
        }),
{
    let p = target.spec.params@[i];
    let name = p.name@;
    let v = value_name(p, buf);
    let ty = memory_type(p, buf);
    let a = "    "@ + name + "_ptr <- "@ + memory_allocator(p, buf) + " ("@ + ty + ");\n"@;
    let b = "    "@ + v + " <- llvm_fresh_var \""@ + v + "\" ("@ + ty + ");\n"@;
    let c = "    llvm_points_to "@ + name + "_ptr (llvm_term "@ + v + ");\n"@;
    let call = "    llvm_execute_func ["@;
    let taken = cryptol_call(target, buf, target.cryptol_fn@);
    lemma_memory_lines(target, buf, i);
    lemma_declared_before_the_call(bitcode, cryptol, target, o, stubs, buf, i, seq![a, b, c]);
    lemma_list_of_five(a, b, c, call, taken);
}

/// For every parameter that is passed by pointer, and is neither an interface
/// nor a container, the setup allocates memory, binds a fresh variable, points
/// the pointer to it, and the Cryptol call takes that very variable (or the
/// bit in it) for the parameter. Only memory that may be written is allocated
/// as such.
#[verifier::rlimit(60)]
pub proof fn law_pointed_value_is_what_cryptol_takes(
    bitcode: Seq<char>,
    cryptol: Seq<char>,
    target: &ScriptTarget,
    o: ScriptOverrides,
    stubs: &AssembledStubs,
    buf: &BufferOverrides,
    i: int,
)
    requires
        0 <= i < target.spec.params@.len(),
        is_plain(target, i),
        !(target.spec.params@[i].alloc_type is FreshVar) || is_buffer(
            buf,
            target.spec.params@[i].name@,
        ),
    ensures
        ({
            let p = target.spec.params@[i];
            let name = p.name@;
            let v = value_name(p, buf);
            let ty = memory_type(p, buf);
            let arg = cryptol_value(target, buf, i);
            let args = cryptol_values(target, buf) + hidden_values(target);
            &&& in_order(
                script_text(bitcode, cryptol, target, o, stubs, buf),
                seq![
                    "    "@ + name + "_ptr <- "@ + memory_allocator(p, buf) + " ("@ + ty
                        + ");\n"@,
                    "    "@ + v + " <- llvm_fresh_var \""@ + v + "\" ("@ + ty + ");\n"@,
                    "    llvm_points_to "@ + name + "_ptr (llvm_term "@ + v + ");\n"@,
                    "    llvm_execute_func ["@,
                    cryptol_call(target, buf, target.cryptol_fn@),
                ],
            )
            &&& buf.call_args(target.cryptol_fn@) is None ==> cryptol_call(
                target,
                buf,
                target.cryptol_fn@,
            ) == target.cryptol_fn@ + " "@ + joined(args, " "@)
            &&& args.contains(arg)
            &&& arg == v || arg == "("@ + v + " ! 0)"@
        }),
{
    lemma_value_is_taken(target, buf, i);
    lemma_memory_before_the_call(bitcode, cryptol, target, o, stubs, buf, i);
}

/// A parameter that is passed by value is bound to a fresh variable of its
/// type, and the Cryptol call takes that very variable, or the bit in it.
#[verifier::rlimit(60)]
pub proof fn law_passed_value_is_what_cryptol_takes(
    bitcode: Seq<char>,
    cryptol: Seq<char>,
    target: &ScriptTarget,
    o: ScriptOverrides,
    stubs: &AssembledStubs,
    buf: &BufferOverrides,
    i: int,
)
    requires
        0 <= i < target.spec.params@.len(),
        is_plain(target, i),
        target.spec.params@[i].alloc_type is FreshVar,
        !is_buffer(buf, target.spec.params@[i].name@),
    ensures
        ({
            let name = target.spec.params@[i].name@;
            let ty = target.spec.params@[i].saw_type@;
            let arg = cryptol_value(target, buf, i);
            let args = cryptol_values(target, buf) + hidden_values(target);
            &&& in_order(
                script_text(bitcode, cryptol, target, o, stubs, buf),
                seq![
                    "    "@ + name + " <- llvm_fresh_var \""@ + name + "\" ("@ + ty + ");\n"@,
                    "    llvm_execute_func ["@,
                    cryptol_call(target, buf, target.cryptol_fn@),
                ],
            )
            &&& buf.call_args(target.cryptol_fn@) is None ==> cryptol_call(
                target,
                buf,
                target.cryptol_fn@,
            ) == target.cryptol_fn@ + " "@ + joined(args, " "@)
            &&& args.contains(arg)
            &&& arg == name || arg == "("@ + name + " ! 0)"@
        }),
{
    let name = target.spec.params@[i].name@;
    let ty = target.spec.params@[i].saw_type@;
    let line = "    "@ + name + " <- llvm_fresh_var \""@ + name + "\" ("@ + ty + ");\n"@;
    lemma_plain_step(target, buf, i);
    lemma_self_in_order(line);
    lemma_declared_before_the_call(bitcode, cryptol, target, o, stubs, buf, i, seq![line]);
    lemma_list_of_three(
        line,
        "    llvm_execute_func ["@,
        cryptol_call(target, buf, target.cryptol_fn@),
    );
    lemma_value_is_taken(target, buf, i);
}

/// An object of an interface is made by the function that wires its virtual
/// table, and passed by pointer.
#[verifier::rlimit(60)]
pub proof fn law_interface_object_is_wired(
    bitcode: Seq<char>,
    cryptol: Seq<char>,
    target: &ScriptTarget,
    o: ScriptOverrides,
    stubs: &AssembledStubs,
    buf: &BufferOverrides,
    i: int,
)
    requires
        0 <= i < target.spec.params@.len(),
        i < target.function.params@.len(),
        target.function.params@[i].ty is Pointer,
        interface_name(target.function.params@[i].ty@, method_classes(target.vmethods@)) is Some,
    ensures
        ({
            let name = target.spec.params@[i].name@;
            let class = interface_name(
                target.function.params@[i].ty@,
                method_classes(target.vmethods@),
            )->0;
            in_order(
                script_text(bitcode, cryptol, target, o, stubs, buf),
                seq![
                    "    "@ + name + "_ptr <- alloc_"@ + lower_id(class) + "_this;\n"@,
                    "    llvm_execute_func ["@,
                ],
            )
        }),
{
    let name = target.spec.params@[i].name@;
    let class = interface_name(
        target.function.params@[i].ty@,
        method_classes(target.vmethods@),
    )->0;
    let line = "    "@ + name + "_ptr <- alloc_"@ + lower_id(class) + "_this;\n"@;
    lemma_interface_line(target, buf, i, class);
    lemma_step_before_the_call(bitcode, cryptol, target, o, stubs, buf, i, seq![line]);
    lemma_list_of_two(line, "    llvm_execute_func ["@);
}

/// The line of an object of an interface.
proof fn lemma_interface_line(target: &ScriptTarget, buf: &BufferOverrides, i: int, class: Seq<char>)
    requires
        0 <= i < target.spec.params@.len(),
        i < target.function.params@.len(),
        target.function.params@[i].ty is Pointer,
        interface_name(target.function.params@[i].ty@, method_classes(target.vmethods@)) == Some(
            class,
        ),
    ensures
        in_order(
            target.steps(buf)[i].declaration,
            seq!["    "@ + target.spec.params@[i].name@ + "_ptr <- alloc_"@ + lower_id(class)
                + "_this;\n"@],
        ),
{
    let name = target.spec.params@[i].name@;
    let line = "    "@ + name + "_ptr <- alloc_"@ + lower_id(class) + "_this;\n"@;
    let note = "    // "@ + name + " : "@ + class + "* — wire vptr to stub vtable\n"@;
    assert(target.steps(buf)[i].declaration == note + line) by {
        broadcast use group_append;

    }
    lemma_self_in_order(line);
    lemma_in_order_ahead(note, line, seq![line]);
}

/// What the declaration of a parameter holds stands before the call.
proof fn lemma_step_before_the_call(
    bitcode: Seq<char>,
    cryptol: Seq<char>,
    target: &ScriptTarget,
    o: ScriptOverrides,
    stubs: &AssembledStubs,
    buf: &BufferOverrides,
    i: int,
    lines: Seq<Seq<char>>,
)
    requires
        0 <= i < target.spec.params@.len(),
        in_order(target.steps(buf)[i].declaration, lines),
    ensures
        in_order(
            script_text(bitcode, cryptol, target, o, stubs, buf),
            lines + seq!["    llvm_execute_func ["@],
        ),
{
    let steps = target.steps(buf);
    let s = lemma_declarations_splits(steps, i);
    lemma_in_order_more(s.0, steps[i].declaration, s.1, lines);
    lemma_setup_in_order(target, o, buf, lines);
    lemma_setup_before_the_call(bitcode, cryptol, target, o, stubs, buf, lines);
}

/// How the steps pass the parameters.
proof fn lemma_passed(target: &ScriptTarget, buf: &BufferOverrides)
    ensures
        call_args(target.steps(buf)) =~= Seq::new(
            target.spec.params@.len(),
            |i: int|
                if target.spec.params@[i].alloc_type is FreshVar && is_plain(target, i)
                    && !is_buffer(buf, target.spec.params@[i].name@) {
                    "llvm_term "@ + target.spec.params@[i].name@
                } else {
                    target.spec.params@[i].name@ + "_ptr"@
                },
        ),
{
    let steps = target.steps(buf);
    lemma_call_args(steps);
    assert forall|i: int| 0 <= i < steps.len() implies (#[trigger] steps[i]).call_arg == if target.spec.params@[i].alloc_type is FreshVar
        && is_plain(target, i) && !is_buffer(buf, target.spec.params@[i].name@) {
        "llvm_term "@ + target.spec.params@[i].name@
    } else {
        target.spec.params@[i].name@ + "_ptr"@
    } by {
        if is_plain(target, i) {
            lemma_plain_step(target, buf, i);
        }
    }
}

/// The call takes every parameter in its place: one passed by value as a
/// term, any other as the pointer that stands for it. The pointer to a
/// returned aggregate comes first, or behind `this`.
#[verifier::rlimit(60)]
pub proof fn law_script_call_takes_every_parameter(
    bitcode: Seq<char>,
    cryptol: Seq<char>,
    target: &ScriptTarget,
    o: ScriptOverrides,
    stubs: &AssembledStubs,
    buf: &BufferOverrides,
)
    ensures
        ({
            let params = target.spec.params@;
            let given = Seq::new(
                params.len(),
                |i: int|
                    if params[i].alloc_type is FreshVar && is_plain(target, i) && !is_buffer(
                        buf,
                        params[i].name@,
                    ) {
                        "llvm_term "@ + params[i].name@
                    } else {
                        params[i].name@ + "_ptr"@
                    },
            );
            let args = if !target.spec.return_constraint.is_sret {
                given
            } else if target.function.params@.len() > 0 && target.function.params@[0].name@
                == "this"@ && given.len() > 0 {
                seq![given[0], "result_ptr"@] + given.skip(1)
            } else {
                seq!["result_ptr"@] + given
            };
            in_order(
                script_text(bitcode, cryptol, target, o, stubs, buf),
                seq!["    llvm_execute_func ["@ + joined(args, ", "@) + "];\n\n"@],
            )
        }),
{
    lemma_passed(target, buf);
    let given = call_args(target.steps(buf));
    let args = equiv_call_args(target.spec, target.function.params@, target.steps(buf));
    if target.spec.return_constraint.is_sret {
        if given.len() > 0 {
            assert(given.insert(1, "result_ptr"@) =~= seq![given[0], "result_ptr"@] + given.skip(1));
        }
        assert(given.insert(0, "result_ptr"@) =~= seq!["result_ptr"@] + given);
    }
    lemma_returned_names_the_call(target, o, buf);
    lemma_call_part_in_order(
        target,
        o,
        buf,
        seq![cryptol_call(target, buf, target.cryptol_fn@)],
    );
    lemma_rest_in_order(bitcode, cryptol, target, o, stubs, buf, seq!["    llvm_execute_func ["@ + joined(args, ", "@) + "];\n\n"@]);
}

/// What the rest of the specification holds, the script holds.
proof fn lemma_rest_in_order(
    bitcode: Seq<char>,
    cryptol: Seq<char>,
    target: &ScriptTarget,
    o: ScriptOverrides,
    stubs: &AssembledStubs,
    buf: &BufferOverrides,
    w: Seq<Seq<char>>,
)
    requires
        in_order(call_part(target, o, buf), w),
    ensures
        in_order(script_text(bitcode, cryptol, target, o, stubs, buf), w),
{
    lemma_none_in_order(setup_part(target, o, buf));
    lemma_script_in_order(bitcode, cryptol, target, o, stubs, buf, Seq::empty(), w);
    lemma_nothing_append(w);
}

/// What the setup holds stands before the call.
proof fn lemma_setup_before_the_call(
    bitcode: Seq<char>,
    cryptol: Seq<char>,
    target: &ScriptTarget,
    o: ScriptOverrides,
    stubs: &AssembledStubs,
    buf: &BufferOverrides,
    v: Seq<Seq<char>>,
)
    requires
        in_order(setup_part(target, o, buf), v),
    ensures
        in_order(
            script_text(bitcode, cryptol, target, o, stubs, buf),
            v + seq!["    llvm_execute_func ["@],
        ),
{
    let call = "    llvm_execute_func ["@;
    let taken = cryptol_call(target, buf, target.cryptol_fn@);
    lemma_returned_names_the_call(target, o, buf);
    lemma_call_part_in_order(target, o, buf, seq![taken]);
    lemma_script_in_order(bitcode, cryptol, target, o, stubs, buf, v, seq![call] + seq![taken]);
    lemma_lists(v, call, taken, taken);
    lemma_append_assoc(v, seq![call], seq![taken]);
    lemma_in_order_first(script_text(bitcode, cryptol, target, o, stubs, buf), v + seq![call], seq![taken]);
}

/// Where the function returns a value, the specification says after the call
/// that it returns the result of the Cryptol function on the values of its
/// parameters: a truth value as one bit. An aggregate is returned through the
/// pointer that the call is given.
pub proof fn law_result_is_that_of_cryptol(
    bitcode: Seq<char>,
    cryptol: Seq<char>,
    target: &ScriptTarget,
    o: ScriptOverrides,
    stubs: &AssembledStubs,
    buf: &BufferOverrides,
)
    ensures
        ({
            let call = cryptol_call(target, buf, target.cryptol_fn@);
            let ty = target.function.return_type@;
            let result = if ty is Bool || ty == TypeView::Pointer(Box::new(TypeView::Bool)) {
                "["@ + call + "] : [1]"@
            } else {
                call
            };
            &&& target.spec.return_constraint.is_sret ==> in_order(
                script_text(bitcode, cryptol, target, o, stubs, buf),
                seq![
                    "    llvm_execute_func ["@,
                    "    llvm_points_to result_ptr (llvm_term {{ "@ + result + " }});\n"@,
                ],
            )
            &&& !target.spec.return_constraint.is_sret && !(target.function.return_type is Void)
                ==> in_order(
                script_text(bitcode, cryptol, target, o, stubs, buf),
                seq![
                    "    llvm_execute_func ["@,
                    "    llvm_return (llvm_term {{ "@ + result
                        + if o.sub_callee_specs@.len() > 0 {
                        " }});  // <-- replace with full mapping\n"@
                    } else {
                        " }});\n"@
                    },
                ],
            )
        }),
{
    lemma_equiv_cryptol_args(target, buf);
    let call = cryptol_call(target, buf, target.cryptol_fn@);
    let exec = "    llvm_execute_func ["@;
    let result = result_text(call, target.function.return_type@);
    let callees = o.sub_callee_specs@.len() > 0;
    lemma_return_line(
        result,
        target.spec.return_constraint.is_sret,
        target.function.return_type is Void,
        callees,
    );
    assert(returned_part(target, o, buf) == return_text(
        result,
        target.spec.return_constraint.is_sret,
        target.function.return_type is Void,
        callees,
    )) by {
        reveal(returned_part);
    }
    if target.spec.return_constraint.is_sret {
        let line = "    llvm_points_to result_ptr (llvm_term {{ "@ + result + " }});\n"@;
        lemma_call_part_in_order(target, o, buf, seq![line]);
        lemma_list_of_two(exec, line);
        lemma_rest_in_order(bitcode, cryptol, target, o, stubs, buf, seq![exec, line]);
    } else if !(target.function.return_type is Void) {
        let line = ("    llvm_return (llvm_term {{ "@ + result) + if callees {
            " }});  // <-- replace with full mapping\n"@
        } else {
            " }});\n"@
        };
        lemma_call_part_in_order(target, o, buf, seq![line]);
        lemma_list_of_two(exec, line);
        lemma_rest_in_order(bitcode, cryptol, target, o, stubs, buf, seq![exec, line]);
    }
}

/// The line of the result.
proof fn lemma_return_line(result: Seq<char>, is_sret: bool, is_void: bool, draft: bool)
    ensures
        is_sret ==> in_order(
            return_text(result, is_sret, is_void, draft),
            seq!["    llvm_points_to result_ptr (llvm_term {{ "@ + result + " }});\n"@],
        ),
        !is_sret && !is_void ==> in_order(
            return_text(result, is_sret, is_void, draft),
            seq![
                ("    llvm_return (llvm_term {{ "@ + result) + if draft {
                    " }});  // <-- replace with full mapping\n"@
                } else {
                    " }});\n"@
                },
            ],
        ),
{
    broadcast use group_append;

    if is_sret {
        let line = "    llvm_points_to result_ptr (llvm_term {{ "@ + result + " }});\n"@;
        let note = if draft {
            "    // TODO: Compositional sret postcondition — fill in by hand.\n"@
                + "    // The sub-function overrides above return fresh symbolic values;\n"@
                + "    // thread them into the Cryptol call below before relying on\n"@
                + "    // this assertion. The auto-derived call uses only the target's\n"@
                + "    // own parameters and is almost certainly incomplete.\n"@
        } else {
            "    // Postcondition (sret): *result_ptr == Cryptol spec\n"@
        };
        lemma_self_in_order(line);
        lemma_in_order_ahead(note, line, seq![line]);
        assert(return_text(result, is_sret, is_void, draft) == note + line);
    } else if !is_void {
        let line = ("    llvm_return (llvm_term {{ "@ + result) + if draft {
            " }});  // <-- replace with full mapping\n"@
        } else {
            " }});\n"@
        };
        let note = if draft {
            "    // TODO: Compositional postcondition — fill in by hand.\n"@ + "    //\n"@
                + "    // The sub-function overrides above return fresh symbolic values.\n"@
                + "    // To check functional correctness, capture those returns (e.g.\n"@
                + "    //   ret_helper <- llvm_fresh_var \"ret_helper\" (llvm_int 32);\n"@
                + "    // inside the matching override spec) and thread them into the\n"@
                + "    // Cryptol equivalence call below.  The auto-derived call only uses\n"@
                + "    // the target's own parameters and is almost certainly incomplete.\n"@
        } else {
            "    // Postcondition: C++ result == Cryptol spec\n"@
        };
        lemma_self_in_order(line);
        lemma_in_order_ahead(note, line, seq![line]);
        assert(return_text(result, is_sret, is_void, draft) == note + line);
    }
}

/// Every precondition of a plain parameter is stated before the call.
pub proof fn law_preconditions_are_stated(
    bitcode: Seq<char>,
    cryptol: Seq<char>,
    target: &ScriptTarget,
    o: ScriptOverrides,
    stubs: &AssembledStubs,
    buf: &BufferOverrides,
    i: int,
    j: int,
)
    requires
        0 <= i < target.spec.params@.len(),
        is_plain(target, i),
        !is_buffer(buf, target.spec.params@[i].name@),
        0 <= j < target.spec.params@[i].preconditions@.len(),
        trimmed_start(target.spec.params@[i].preconditions@[j]@, CharSet::Space).len() > 0,
        !starts(trimmed_start(target.spec.params@[i].preconditions@[j]@, CharSet::Space), "//"@),
    ensures
        in_order(
            script_text(bitcode, cryptol, target, o, stubs, buf),
            seq![
                "    "@ + target.spec.params@[i].preconditions@[j]@ + ";\n"@,
                "    llvm_execute_func ["@,
            ],
        ),
{
    let steps = target.steps(buf);
    let pre = target.spec.params@[i].preconditions@;
    let line = "    "@ + pre[j]@ + ";\n"@;
    lemma_plain_step(target, buf, i);
    lemma_self_in_order(line);
    let s = lemma_preconditions_splits(pre, j);
    lemma_in_order_more(s.0, precondition_text(pre[j]@), s.1, seq![line]);
    let t = lemma_late_preconditions_splits(steps, i);
    lemma_in_order_more(t.0, steps[i].deferred, t.1, seq![line]);
    lemma_setup_in_order(target, o, buf, seq![line]);
    lemma_setup_before_the_call(bitcode, cryptol, target, o, stubs, buf, seq![line]);
    lemma_list_of_two(line, "    llvm_execute_func ["@);
}

/// Every global variable is allocated before the call, and holds what it
/// starts with: a known value in as many bits as its type has, or what the
/// module says.
#[verifier::rlimit(60)]
pub proof fn law_globals_start_as_compiled(
    bitcode: Seq<char>,
    cryptol: Seq<char>,
    target: &ScriptTarget,
    o: ScriptOverrides,
    stubs: &AssembledStubs,
    buf: &BufferOverrides,
    i: int,
)
    requires
        0 <= i < target.all_globals@.len(),
    ensures
        ({
            let g = target.all_globals@[i]@;
            let name = g.mangled_name;
            let bits: nat = match g.ty {
                TypeView::SignedInt(b) => b as nat,
                TypeView::UnsignedInt(b) => b as nat,
                TypeView::Bool => 1,
                _ => 32,
            };
            let text = script_text(bitcode, cryptol, target, o, stubs, buf);
            let alloc = "    llvm_alloc_global \""@ + name + "\";\n"@;
            match g.init_value {
                Some(init) => in_order(
                    text,
                    seq![
                        alloc,
                        "    llvm_points_to (llvm_global \""@ + name + "\") (llvm_term {{ "@
                            + init + " : ["@ + dec(bits) + "] }});\n"@,
                        "    llvm_execute_func ["@,
                    ],
                ),
                None => if g.has_static_initializer {
                    in_order(
                        text,
                        seq![
                            alloc,
                            "    llvm_points_to (llvm_global \""@ + name
                                + "\") (llvm_global_initializer \""@ + name + "\");\n"@,
                            "    llvm_execute_func ["@,
                        ],
                    )
                } else {
                    in_order(text, seq![alloc, "    llvm_execute_func ["@])
                },
            }
        }),
{
    let globals = globals_view(target.all_globals@);
    let g = globals[i];
    let name = g.mangled_name;
    let call = "    llvm_execute_func ["@;
    let alloc = "    llvm_alloc_global \""@ + name + "\";\n"@;
    lemma_global_lines(g);
    let s = lemma_global_setup_splits(globals, i);
    let lines = match g.init_value {
        Some(init) => seq![
            alloc,
            "    llvm_points_to (llvm_global \""@ + name + "\") (llvm_term {{ "@ + init
                + " : ["@ + dec(value_bits(g.ty)) + "] }});\n"@,
        ],
        None => if g.has_static_initializer {
            seq![
                alloc,
                "    llvm_points_to (llvm_global \""@ + name
                    + "\") (llvm_global_initializer \""@ + name + "\");\n"@,
            ]
        } else {
            seq![alloc]
        },
    };
    lemma_in_order_more(s.0, global_setup_item(g), s.1, lines);
    lemma_setup_in_order(target, o, buf, lines);
    lemma_setup_before_the_call(bitcode, cryptol, target, o, stubs, buf, lines);
    lemma_lines_before(lines, call);
}

/// The lines of one global variable.
proof fn lemma_global_lines(g: GlobalView)
    ensures
        ({
            let name = g.mangled_name;
            let alloc = "    llvm_alloc_global \""@ + name + "\";\n"@;
            match g.init_value {
                Some(init) => in_order(
                    global_setup_item(g),
                    seq![
                        alloc,
                        "    llvm_points_to (llvm_global \""@ + name + "\") (llvm_term {{ "@
                            + init + " : ["@ + dec(value_bits(g.ty)) + "] }});\n"@,
                    ],
                ),
                None => if g.has_static_initializer {
                    in_order(
                        global_setup_item(g),
                        seq![
                            alloc,
                            "    llvm_points_to (llvm_global \""@ + name
                                + "\") (llvm_global_initializer \""@ + name + "\");\n"@,
                        ],
                    )
                } else {
                    in_order(global_setup_item(g), seq![alloc])
                },
            }
        }),
{
    broadcast use group_append;

    let name = g.mangled_name;
    let alloc = "    llvm_alloc_global \""@ + name + "\";\n"@;
    match g.init_value {
        Some(init) => {
            let value = "    llvm_points_to (llvm_global \""@ + name + "\") (llvm_term {{ "@ + init
                + " : ["@ + dec(value_bits(g.ty)) + "] }});\n"@;
            lemma_two_in_order(nil(), alloc, nil(), value, "\n"@);
            assert(global_setup_item(g) == nil() + alloc + nil() + value + "\n"@);
        },
        None => {
            if g.has_static_initializer {
                let value = "    llvm_points_to (llvm_global \""@ + name
                    + "\") (llvm_global_initializer \""@ + name + "\");\n"@;
                lemma_two_in_order(nil(), alloc, nil(), value, "\n"@);
                assert(global_setup_item(g) == nil() + alloc + nil() + value + "\n"@);
            } else {
                lemma_one_in_order(nil(), alloc, "\n"@);
                assert(global_setup_item(g) == nil() + alloc + "\n"@);
            }
        },
    }
}

/// Every output that the user declares holds after the call what the given
/// Cryptol function returns on the values of the parameters.
pub proof fn law_declared_outputs_are_stated(
    bitcode: Seq<char>,
    cryptol: Seq<char>,
    target: &ScriptTarget,
    o: ScriptOverrides,
    stubs: &AssembledStubs,
    buf: &BufferOverrides,
    i: int,
)
    requires
        0 <= i < buf.cryptol_fn_out@.len(),
    ensures
        ({
            let (name, f) = (buf.cryptol_fn_out@[i].0@, buf.cryptol_fn_out@[i].1@);
            in_order(
                script_text(bitcode, cryptol, target, o, stubs, buf),
                seq![
                    "    llvm_execute_func ["@,
                    "    llvm_points_to "@ + name + "_ptr (llvm_term {{ "@
                        + cryptol_call(target, buf, f) + " }});\n"@,
                ],
            )
        }),
{
    let (name, f) = (buf.cryptol_fn_out@[i].0@, buf.cryptol_fn_out@[i].1@);
    let exec = "    llvm_execute_func ["@;
    let args = equiv_cryptol_args(target.spec, target.steps(buf), target.prestate());
    let note = "    // Postcondition: *"@ + name + "_ptr == Cryptol "@ + f + "\n"@;
    let line = "    llvm_points_to "@ + name + "_ptr (llvm_term {{ "@ + cryptol_call(target, buf, f)
        + " }});\n"@;
    lemma_equiv_cryptol_args(target, buf);
    let item = declared_outputs_item(buf.cryptol_fn_out@[i], buf, args);
    assert(item == note + line) by {
        broadcast use group_append;

    }
    lemma_self_in_order(line);
    lemma_in_order_ahead(note, line, seq![line]);
    let s = lemma_declared_outputs_splits(buf.cryptol_fn_out@, buf, args, i);
    lemma_in_order_more(s.0, item, s.1, seq![line]);
    lemma_call_part_in_order(target, o, buf, seq![line]);
    lemma_list_of_two(exec, line);
    lemma_rest_in_order(bitcode, cryptol, target, o, stubs, buf, seq![exec, line]);
}

/// The outputs with a Cryptol function of their own.
proof fn lemma_annotated(v: Seq<ParamConstraint>, i: int) -> (k: int)
    requires
        0 <= i < v.len(),
        v[i].out_postcond is Some,
    ensures
        0 <= k < annotated_params(v).len(),
        annotated_params(v)[k] == (v[i].name@, v[i].out_postcond->0@),
    decreases v.len(),
{
    if i == v.len() - 1 {
        annotated_params(v).len() - 1
    } else {
        lemma_annotated(v.drop_last(), i)
    }
}

/// Every output parameter with a Cryptol function of its own holds after the
/// call what that function returns on the values of the parameters, its own
/// value before the call among them.
#[verifier::rlimit(60)]
pub proof fn law_output_parameters_are_stated(
    bitcode: Seq<char>,
    cryptol: Seq<char>,
    target: &ScriptTarget,
    o: ScriptOverrides,
    stubs: &AssembledStubs,
    buf: &BufferOverrides,
    i: int,
)
    requires
        0 <= i < target.spec.params@.len(),
        target.spec.params@[i].out_postcond is Some,
    ensures
        ({
            let name = target.spec.params@[i].name@;
            let f = target.spec.params@[i].out_postcond->0@;
            let given = cryptol_values(target, buf) + hidden_values(target);
            let args = Seq::new(
                given.len(),
                |k: int|
                    if given[k] == name {
                        name + "_pre"@
                    } else {
                        given[k]
                    },
            );
            let call = if args.len() == 0 {
                f
            } else {
                f + " "@ + joined(args, " "@)
            };
            in_order(
                script_text(bitcode, cryptol, target, o, stubs, buf),
                seq![
                    "    llvm_execute_func ["@,
                    "    llvm_points_to "@ + name + "_ptr (llvm_term {{ "@ + call + " }});\n"@,
                ],
            )
        }),
{
    let name = target.spec.params@[i].name@;
    let f = target.spec.params@[i].out_postcond->0@;
    let outputs = annotated_params(target.spec.params@);
    let k = lemma_annotated(target.spec.params@, i);
    let exec = "    llvm_execute_func ["@;
    let args = equiv_cryptol_args(target.spec, target.steps(buf), target.prestate());
    lemma_equiv_cryptol_args(target, buf);
    assert(with_prestate(args, name) =~= Seq::new(
        args.len(),
        |k: int|
            if args[k] == name {
                name + "_pre"@
            } else {
                args[k]
            },
    ));
    let call = call_text(f, with_prestate(args, name));
    let note = "    // Postcondition: *"@ + name + "_ptr == Cryptol "@ + f + " (auto from _Out_writes_)\n"@;
    let line = "    llvm_points_to "@ + name + "_ptr (llvm_term {{ "@ + call + " }});\n"@;
    let item = annotated_outputs_item(outputs[k], args);
    assert(item == note + line) by {
        broadcast use group_append;

    }
    lemma_self_in_order(line);
    lemma_in_order_ahead(note, line, seq![line]);
    let s = lemma_annotated_outputs_splits(outputs, args, k);
    lemma_in_order_more(s.0, item, s.1, seq![line]);
    lemma_call_part_in_order(target, o, buf, seq![line]);
    lemma_list_of_two(exec, line);
    lemma_rest_in_order(bitcode, cryptol, target, o, stubs, buf, seq![exec, line]);
}

/// The bounds of the lengths and the precondition that the user declares are
/// stated before the call.
#[verifier::rlimit(60)]
pub proof fn law_declared_preconditions_are_stated(
    bitcode: Seq<char>,
    cryptol: Seq<char>,
    target: &ScriptTarget,
    o: ScriptOverrides,
    stubs: &AssembledStubs,
    buf: &BufferOverrides,
)
    ensures
        forall|i: int|
            0 <= i < buf.max_len_preconds@.len() ==> {
                let b = #[trigger] buf.max_len_preconds@[i];
                in_order(
                    script_text(bitcode, cryptol, target, o, stubs, buf),
                    seq![
                        "    llvm_precond {{ `"@ + b.1@ + " >= "@ + b.0@ + " }};\n"@,
                        "    llvm_execute_func ["@,
                    ],
                )
            },
        buf.cryptol_fn_pre matches Some(f) ==> in_order(
            script_text(bitcode, cryptol, target, o, stubs, buf),
            seq![
                "    llvm_precond {{ "@ + cryptol_call(target, buf, f@) + " }};\n\n"@,
                "    llvm_execute_func ["@,
            ],
        ),
{
    let exec = "    llvm_execute_func ["@;
    let args = equiv_cryptol_args(target.spec, target.steps(buf), target.prestate());
    let bounds = length_bounds(buf.max_len_preconds@);
    let gap = only_if(buf.max_len_preconds@.len() > 0, "\n"@);
    assert forall|i: int| 0 <= i < buf.max_len_preconds@.len() implies {
        let b = #[trigger] buf.max_len_preconds@[i];
        in_order(
            script_text(bitcode, cryptol, target, o, stubs, buf),
            seq!["    llvm_precond {{ `"@ + b.1@ + " >= "@ + b.0@ + " }};\n"@, exec],
        )
    } by {
        let b = buf.max_len_preconds@[i];
        let line = "    llvm_precond {{ `"@ + b.1@ + " >= "@ + b.0@ + " }};\n"@;
        lemma_self_in_order(line);
        let s = lemma_length_bounds_splits(buf.max_len_preconds@, i);
        lemma_in_order_more(s.0, length_bounds_item(b), s.1, seq![line]);
        lemma_in_order_behind(bounds, gap, seq![line]);
        lemma_preconditions_behind(buf, args, seq![line]);
        lemma_setup_in_order(target, o, buf, seq![line]);
        lemma_setup_before_the_call(bitcode, cryptol, target, o, stubs, buf, seq![line]);
        lemma_list_of_two(line, exec);
    }
    if buf.cryptol_fn_pre is Some {
        let f = buf.cryptol_fn_pre->0@;
        let line = "    llvm_precond {{ "@ + cryptol_call(target, buf, f) + " }};\n\n"@;
        lemma_equiv_cryptol_args(target, buf);
        lemma_self_in_order(line);
        lemma_in_order_ahead(bounds + gap, line, seq![line]);
        assert(declared_preconditions(buf, args) == bounds + gap + line);
        lemma_setup_in_order(target, o, buf, seq![line]);
        lemma_setup_before_the_call(bitcode, cryptol, target, o, stubs, buf, seq![line]);
        lemma_list_of_two(line, exec);
    }
}

proof fn lemma_preconditions_behind(buf: &BufferOverrides, args: Seq<Seq<char>>, v: Seq<Seq<char>>)
    requires
        in_order(
            length_bounds(buf.max_len_preconds@) + only_if(buf.max_len_preconds@.len() > 0, "\n"@),
            v,
        ),
    ensures
        in_order(declared_preconditions(buf, args), v),
{
    broadcast use lemma_in_order_behind;

}

/// A returned aggregate is memory of its type that is allocated before the
/// call, and holds a fresh variable where what it held counts.
#[verifier::rlimit(60)]
pub proof fn law_returned_aggregate_is_allocated(
    bitcode: Seq<char>,
    cryptol: Seq<char>,
    target: &ScriptTarget,
    o: ScriptOverrides,
    stubs: &AssembledStubs,
    buf: &BufferOverrides,
)
    requires
        target.spec.return_constraint.is_sret,
    ensures
        ({
            let ty = target.spec.return_constraint.saw_type@;
            let text = script_text(bitcode, cryptol, target, o, stubs, buf);
            let alloc = "    result_ptr <- llvm_alloc ("@ + ty + ");\n"@;
            match target.sret_prestate {
                Some(p) => {
                    let held = if p.drop_bytes > 0 && p.buf_size > 0 {
                        "llvm_array "@ + dec(p.buf_size as nat) + " (llvm_int 8)"@
                    } else {
                        ty
                    };
                    in_order(
                        text,
                        seq![
                            alloc,
                            "    preBytes <- llvm_fresh_var \"preBytes\" ("@ + held + ");\n"@,
                            "    llvm_points_to result_ptr (llvm_term preBytes);\n"@,
                            "    llvm_execute_func ["@,
                        ],
                    )
                },
                None => if target.spec.return_constraint.sret_prestate {
                    in_order(
                        text,
                        seq![
                            alloc,
                            "    result_pre <- llvm_fresh_var \"result_pre\" ("@ + ty + ");\n"@,
                            "    llvm_points_to result_ptr (llvm_term result_pre);\n"@,
                            "    llvm_execute_func ["@,
                        ],
                    )
                } else {
                    in_order(text, seq![alloc, "    llvm_execute_func ["@])
                },
            }
        }),
{
    let lines = lemma_sret_lines(target.spec, target.prestate());
    let exec = "    llvm_execute_func ["@;
    lemma_setup_in_order(target, o, buf, lines);
    lemma_setup_before_the_call(bitcode, cryptol, target, o, stubs, buf, lines);
    lemma_lines_before(lines, exec);
}

/// The lines of a returned aggregate.
proof fn lemma_sret_lines(spec: &SpecConstraint, pre: Option<SretPrestate>) -> (r: Seq<Seq<char>>)
    ensures
        in_order(sret_text(spec, pre), r),
        ({
            let ty = spec.return_constraint.saw_type@;
            let alloc = "    result_ptr <- llvm_alloc ("@ + ty + ");\n"@;
            r == match pre {
                Some(p) => {
                    let held = if p.drop_bytes > 0 && p.buf_size > 0 {
                        "llvm_array "@ + dec(p.buf_size as nat) + " (llvm_int 8)"@
                    } else {
                        ty
                    };
                    seq![
                        alloc,
                        "    preBytes <- llvm_fresh_var \"preBytes\" ("@ + held + ");\n"@,
                        "    llvm_points_to result_ptr (llvm_term preBytes);\n"@,
                    ]
                },
                None => if spec.return_constraint.sret_prestate {
                    seq![
                        alloc,
                        "    result_pre <- llvm_fresh_var \"result_pre\" ("@ + ty + ");\n"@,
                        "    llvm_points_to result_ptr (llvm_term result_pre);\n"@,
                    ]
                } else {
                    seq![alloc]
                },
            }
        }),
{
    broadcast use group_append;

    let ty = spec.return_constraint.saw_type@;
    let note = "\n    // sret: aggregate return passed via hidden output pointer.\n"@;
    let alloc = "    result_ptr <- llvm_alloc ("@ + ty + ");\n"@;
    match pre {
        Some(p) => {
            let held = prestate_type(p, ty);
            let b = "    preBytes <- llvm_fresh_var \"preBytes\" ("@ + held + ");\n"@;
            let c = "    llvm_points_to result_ptr (llvm_term preBytes);\n"@;
            lemma_three_in_order(note, alloc, nil(), b, nil(), c, nil());
            assert(sret_text(spec, pre) == note + alloc + nil() + b + nil() + c + nil());
            seq![alloc, b, c]
        },
        None => {
            if spec.return_constraint.sret_prestate {
                let b = "    result_pre <- llvm_fresh_var \"result_pre\" ("@ + ty + ");\n"@;
                let c = "    llvm_points_to result_ptr (llvm_term result_pre);\n"@;
                lemma_three_in_order(note, alloc, nil(), b, nil(), c, nil());
                assert(sret_text(spec, pre) == note + alloc + nil() + b + nil() + c + nil());
                seq![alloc, b, c]
            } else {
                lemma_one_in_order(note, alloc, nil());
                assert(sret_text(spec, pre) == note + alloc + nil());
                seq![alloc]
            }
        },
    }
}

} // verus!
