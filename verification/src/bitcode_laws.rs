//! What the override of a function that cannot be executed says of each
//! parameter, of each global variable and of the result, line by line.

use vstd::prelude::*;

use crate::bitcode_overrides::{
    OverrideTarget, bound_names, bound_texts, clobber_bits, ir_int_bits, keeps_memory, one_text,
    override_args, override_clobber, override_clobbers, override_name, override_param,
    override_params, override_return, overrides_text, reason_text, target_text, written_globals,
    written_globals_item,
};
use crate::bitcode_overrides_functional::{FunctionalLayouts, functional_text};
use crate::constraints::{GlobalView, TypeView};
use crate::names::sanitized;
use crate::status_primitives::{msvc_mutex_helper, mutex_primitive, noreturn_throw};
use crate::text::{
    dec, group_append, joined, lemma_append_assoc, lemma_append_nothing, lemma_nothing_append,
    lemma_parsed_dec, mentions, nil, only_if, parsed, starts, views,
};
use crate::text_order::{
    in_order, lemma_in_order_ahead, lemma_in_order_behind, lemma_in_order_first,
    lemma_in_order_join, lemma_in_order_more, lemma_list_of_four, lemma_list_of_three,
    lemma_list_of_two, lemma_none_in_order, lemma_self_in_order,
};

verus! {

/// What stands before and behind the text of one item.
pub proof fn lemma_written_globals_splits(v: Seq<GlobalView>, written: Seq<String>, i: int) -> (r: (Seq<char>, Seq<char>))
    requires
        0 <= i < v.len(),
    ensures
        written_globals(v, written) == r.0 + written_globals_item(v[i], written) + r.1,
    decreases v.len(),
{
    let last = written_globals_item(v.last(), written);
    if i == v.len() - 1 {
        lemma_append_nothing(written_globals(v.drop_last(), written) + last);
        (written_globals(v.drop_last(), written), nil())
    } else {
        let r = lemma_written_globals_splits(v.drop_last(), written, i);
        lemma_append_assoc(r.0 + written_globals_item(v[i], written), r.1, last);
        (r.0, r.1 + last)
    }
}

/// Is the function overridden without a model of what it does? It is where no
/// one else covers its symbol, no earlier function has its identifier, it is
/// no modelled method of a container, and it is no `memcmp` of one length.
pub open spec fn is_abstract(
    targets: Seq<OverrideTarget>,
    covered: Seq<Seq<char>>,
    globals: Seq<GlobalView>,
    layouts: &FunctionalLayouts,
    compared_length: Option<u64>,
    i: int,
) -> bool {
    let symbol = targets[i].symbol@;
    &&& !covered.contains(symbol)
    &&& forall|j: int| 0 <= j < i ==> sanitized((#[trigger] targets[j]).symbol@) != sanitized(symbol)
    &&& functional_text(symbol, sanitized(symbol), override_name(symbol), layouts) is None
    &&& symbol != "memcmp"@ || compared_length is None
}

/// The setup of one parameter stands in the setup.
proof fn lemma_override_params_splits(types: Seq<String>, i: int) -> (r: (Seq<char>, Seq<char>))
    requires
        0 <= i < types.len(),
    ensures
        override_params(types) == r.0 + override_param(types[i]@, i as nat) + r.1,
    decreases types.len(),
{
    let last = override_param(types.last()@, (types.len() - 1) as nat);
    if i == types.len() - 1 {
        lemma_append_nothing(override_params(types.drop_last()) + last);
        (override_params(types.drop_last()), nil())
    } else {
        let r = lemma_override_params_splits(types.drop_last(), i);
        lemma_append_assoc(r.0 + override_param(types[i]@, i as nat), r.1, last);
        (r.0, r.1 + last)
    }
}

/// What is written behind one pointer stands among all that is written.
proof fn lemma_override_clobbers_splits(types: Seq<String>, i: int) -> (r: (Seq<char>, Seq<char>))
    requires
        0 <= i < types.len(),
    ensures
        override_clobbers(types) == r.0 + override_clobber(types[i]@, i as nat) + r.1,
    decreases types.len(),
{
    let last = override_clobber(types.last()@, (types.len() - 1) as nat);
    if i == types.len() - 1 {
        lemma_append_nothing(override_clobbers(types.drop_last()) + last);
        (override_clobbers(types.drop_last()), nil())
    } else {
        let r = lemma_override_clobbers_splits(types.drop_last(), i);
        lemma_append_assoc(r.0 + override_clobber(types[i]@, i as nat), r.1, last);
        (r.0, r.1 + last)
    }
}

/// Each bound name is that of a function.
proof fn lemma_bound_from(targets: Seq<OverrideTarget>, covered: Seq<Seq<char>>, name: Seq<char>)
    requires
        bound_names(targets, covered).contains(name),
    ensures
        exists|j: int|
            0 <= j < targets.len() && name == override_name((#[trigger] targets[j]).symbol@),
    decreases targets.len(),
{
    if targets.len() > 0 {
        let before = bound_names(targets.drop_last(), covered);
        if before.contains(name) {
            lemma_bound_from(targets.drop_last(), covered, name);
            let j: int = choose|j: int|
                0 <= j < targets.drop_last().len() && name == override_name(
                    (#[trigger] targets.drop_last()[j]).symbol@,
                );
            assert(targets[j] == targets.drop_last()[j]);
        } else {
            assert(name == override_name(targets[targets.len() - 1].symbol@));
        }
    }
}

/// Identifiers differ where names do.
proof fn lemma_override_names_differ(a: Seq<char>, b: Seq<char>)
    requires
        override_name(a) == override_name(b),
    ensures
        sanitized(a) == sanitized(b),
{
    let p = "ov_"@;
    assert(override_name(a).skip(p.len() as int) =~= sanitized(a));
    assert(override_name(b).skip(p.len() as int) =~= sanitized(b));
}

/// The override of a function stands among the overrides.
proof fn lemma_override_is_written(
    targets: Seq<OverrideTarget>,
    covered: Seq<Seq<char>>,
    globals: Seq<GlobalView>,
    layouts: &FunctionalLayouts,
    compared_length: Option<u64>,
    i: int,
    v: Seq<Seq<char>>,
)
    requires
        0 <= i < targets.len(),
        is_abstract(targets, covered, globals, layouts, compared_length, i),
        in_order(
            one_text(
                &targets[i],
                sanitized(targets[i].symbol@),
                override_name(targets[i].symbol@),
                globals,
            ),
            v,
        ),
    ensures
        in_order(bound_texts(targets, covered, globals, layouts, compared_length), v),
    decreases targets.len(),
{
    let rest = targets.drop_last();
    let before = bound_names(rest, covered);
    let texts = bound_texts(rest, covered, globals, layouts, compared_length);
    if i == targets.len() - 1 {
        if before.contains(override_name(targets[i].symbol@)) {
            lemma_bound_from(rest, covered, override_name(targets[i].symbol@));
            let j: int = choose|j: int|
                0 <= j < rest.len() && override_name(targets[i].symbol@) == override_name(
                    (#[trigger] rest[j]).symbol@,
                );
            lemma_override_names_differ(targets[i].symbol@, targets[j].symbol@);
        }
        lemma_in_order_ahead(
            texts,
            target_text(&targets[i], globals, layouts, compared_length),
            v,
        );
    } else {
        assert forall|j: int| 0 <= j < i implies sanitized((#[trigger] rest[j]).symbol@)
            != sanitized(rest[i].symbol@) by {
            assert(rest[j] == targets[j]);
        }
        lemma_override_is_written(rest, covered, globals, layouts, compared_length, i, v);
        lemma_in_order_behind(
            texts,
            target_text(&targets.last(), globals, layouts, compared_length),
            v,
        );
    }
}

/// What is said before and after the call of one override.
proof fn lemma_override_in_order(
    targets: Seq<OverrideTarget>,
    covered: Seq<Seq<char>>,
    globals: Seq<GlobalView>,
    layouts: &FunctionalLayouts,
    compared_length: Option<u64>,
    i: int,
    v: Seq<Seq<char>>,
    w: Seq<Seq<char>>,
)
    requires
        0 <= i < targets.len(),
        is_abstract(targets, covered, globals, layouts, compared_length, i),
        in_order(override_params(targets[i].fixed_param_ir_types@), v),
        ({
            let t = targets[i];
            ||| in_order(
                only_if(
                    !keeps_memory(t.symbol@),
                    override_clobbers(t.fixed_param_ir_types@),
                ),
                w,
            )
            ||| in_order(written_globals(globals, t.globals_written@), w)
            ||| in_order(
                only_if(noreturn_throw(t.symbol@), "    llvm_postcond {{ False }};\n"@),
                w,
            )
            ||| in_order(override_return(t.symbol@, t.return_ir_type@), w)
        }),
    ensures
        ({
            let symbol = targets[i].symbol@;
            let safe = sanitized(symbol);
            let args = joined(override_args(targets[i].fixed_param_ir_types@), ", "@);
            in_order(
                overrides_text(targets, covered, globals, layouts, compared_length),
                v + seq!["    llvm_execute_func ["@ + args + "];\n"@] + w + seq![
                    "ov_"@ + safe + " <- llvm_unsafe_assume_spec m \""@ + symbol + "\" "@
                        + safe + "_spec;\n"@,
                ],
            )
        }),
{
    let t = targets[i];
    let symbol = t.symbol@;
    let safe = sanitized(symbol);
    let ov = override_name(symbol);
    let types = t.fixed_param_ir_types@;
    let variadic = only_if(t.is_variadic, "; variadic"@);
    let head = "\n// override: "@ + symbol + "  ["@ + reason_text(t.reason) + variadic + "]\n"@
        + "let "@ + safe + "_spec = do {\n"@;
    let a = override_params(types);
    let line = "    llvm_execute_func ["@ + joined(override_args(types), ", "@) + "];\n"@;
    let b = only_if(!keeps_memory(symbol), override_clobbers(types));
    let c = written_globals(globals, t.globals_written@);
    let d = only_if(noreturn_throw(symbol), "    llvm_postcond {{ False }};\n"@);
    let e = override_return(symbol, t.return_ir_type@);
    let end = "ov_"@ + safe + " <- llvm_unsafe_assume_spec m \""@ + symbol + "\" "@ + safe + "_spec;\n"@;
    let text = one_text(&t, safe, ov, globals);
    assert(text == head + a + line + b + c + d + e + "};\n"@ + end) by {
        broadcast use group_append;

    }
    lemma_self_in_order(line);
    lemma_self_in_order(end);
    lemma_in_order_ahead(head, a, v);
    lemma_in_order_join(head + a, v, line, seq![line]);
    let x = v + seq![line];
    let s = head + a + line;
    lemma_in_order_behind(s, b, x);
    lemma_in_order_behind(s + b, c, x);
    lemma_in_order_behind(s + b + c, d, x);
    if in_order(e, w) {
        lemma_in_order_join(s + b + c + d, x, e, w);
    } else {
        if in_order(d, w) {
            lemma_in_order_join(s + b + c, x, d, w);
        } else {
            if in_order(c, w) {
                lemma_in_order_join(s + b, x, c, w);
            } else {
                lemma_in_order_join(s, x, b, w);
                lemma_in_order_behind(s + b, c, x + w);
            }
            lemma_in_order_behind(s + b + c, d, x + w);
        }
        lemma_in_order_behind(s + b + c + d, e, x + w);
    }
    lemma_in_order_behind(s + b + c + d + e, "};\n"@, x + w);
    lemma_in_order_join(s + b + c + d + e + "};\n"@, x + w, end, seq![end]);
    lemma_override_is_written(targets, covered, globals, layouts, compared_length, i, x + w + seq![end]);
    lemma_overrides_behind(targets, covered, globals, layouts, compared_length, x + w + seq![end]);
}

proof fn lemma_overrides_behind(
    targets: Seq<OverrideTarget>,
    covered: Seq<Seq<char>>,
    globals: Seq<GlobalView>,
    layouts: &FunctionalLayouts,
    compared_length: Option<u64>,
    v: Seq<Seq<char>>,
)
    requires
        targets.len() > 0,
        in_order(bound_texts(targets, covered, globals, layouts, compared_length), v),
    ensures
        in_order(overrides_text(targets, covered, globals, layouts, compared_length), v),
{
    broadcast use lemma_in_order_ahead;

}

/// Is the IR type an integer of the given width?
pub open spec fn is_ir_int(ty: Seq<char>, bits: nat) -> bool {
    starts(ty, "i"@) && parsed(ty.skip(1), u32::MAX as nat) == Some(bits)
}

proof fn lemma_ir_int(ty: Seq<char>)
    ensures
        ir_int_bits(ty) matches Some(bits) ==> is_ir_int(ty, bits),
        forall|bits: nat| is_ir_int(ty, bits) ==> ir_int_bits(ty) == Some(bits),
{
    reveal_strlit("i");
}

/// An integer type is read at its width.
pub proof fn law_ir_integer_is_read(bits: nat)
    requires
        bits <= u32::MAX,
    ensures
        is_ir_int("i"@ + dec(bits), bits),
        ir_int_bits("i"@ + dec(bits)) == Some(bits),
{
    reveal_strlit("i");
    let ty = "i"@ + dec(bits);
    assert(ty.skip(1) =~= dec(bits));
    assert(ty.take(1) =~= "i"@);
    lemma_parsed_dec(bits, u32::MAX as nat);
    lemma_ir_int(ty);
}

/// The override takes any arguments: an integer is a fresh variable of its
/// width, and anything else a fresh pointer. The call takes them in order.
pub proof fn law_override_takes_any_arguments(
    targets: Seq<OverrideTarget>,
    covered: Seq<Seq<char>>,
    globals: Seq<GlobalView>,
    layouts: &FunctionalLayouts,
    compared_length: Option<u64>,
    i: int,
    k: int,
)
    requires
        0 <= i < targets.len(),
        is_abstract(targets, covered, globals, layouts, compared_length, i),
        0 <= k < targets[i].fixed_param_ir_types@.len(),
    ensures
        ({
            let types = targets[i].fixed_param_ir_types@;
            let args = Seq::new(
                types.len(),
                |j: int|
                    if types[j]@ != "ptr"@ && exists|b: nat| is_ir_int(types[j]@, b) {
                        "llvm_term p"@ + dec(j as nat)
                    } else {
                        "p"@ + dec(j as nat)
                    },
            );
            let call = "    llvm_execute_func ["@ + joined(args, ", "@) + "];\n"@;
            let text = overrides_text(targets, covered, globals, layouts, compared_length);
            &&& forall|b: nat| #[trigger]
                is_ir_int(types[k]@, b) && types[k]@ != "ptr"@ ==> in_order(
                    text,
                    seq![
                        "    p"@ + dec(k as nat) + " <- llvm_fresh_var \"p"@ + dec(k as nat)
                            + "\" (llvm_int "@ + dec(b) + ");\n"@,
                        call,
                    ],
                )
            &&& types[k]@ == "ptr"@ || !(exists|b: nat| is_ir_int(types[k]@, b)) ==> in_order(
                text,
                seq!["    p"@ + dec(k as nat) + " <- llvm_fresh_pointer (llvm_int 8);\n"@, call],
            )
        }),
{
    let t = targets[i];
    let types = t.fixed_param_ir_types@;
    let none = Seq::<Seq<char>>::empty();
    let text = overrides_text(targets, covered, globals, layouts, compared_length);
    let args = Seq::new(
        types.len(),
        |j: int|
            if types[j]@ != "ptr"@ && exists|b: nat| is_ir_int(types[j]@, b) {
                "llvm_term p"@ + dec(j as nat)
            } else {
                "p"@ + dec(j as nat)
            },
    );
    assert forall|j: int| 0 <= j < types.len() implies #[trigger] override_args(types)[j] == args[j] by {
        lemma_ir_int(types[j]@);
        if ir_int_bits(types[j]@) is Some {
            assert(is_ir_int(types[j]@, ir_int_bits(types[j]@)->0));
        }
    }
    assert(override_args(types) =~= args);
    lemma_ir_int(types[k]@);
    let item = override_param(types[k]@, k as nat);
    let call = "    llvm_execute_func ["@ + joined(args, ", "@) + "];\n"@;
    let symbol = t.symbol@;
    let end = "ov_"@ + sanitized(symbol) + " <- llvm_unsafe_assume_spec m \""@ + symbol + "\" "@
        + sanitized(symbol) + "_spec;\n"@;
    lemma_self_in_order(item);
    let s = lemma_override_params_splits(types, k);
    lemma_in_order_more(s.0, item, s.1, seq![item]);
    lemma_none_in_order(override_return(symbol, t.return_ir_type@));
    lemma_override_in_order(targets, covered, globals, layouts, compared_length, i, seq![item], none);
    lemma_list_of_two(item, call);
    lemma_append_nothing(seq![item, call]);
    lemma_in_order_first(text, seq![item, call], seq![end]);
}

/// The override may write behind every pointer that it is given: after the
/// call the byte there is a fresh variable. Exempt are the functions of
/// mutexes, which do nothing in a sequential proof.
pub proof fn law_override_writes_behind_pointers(
    targets: Seq<OverrideTarget>,
    covered: Seq<Seq<char>>,
    globals: Seq<GlobalView>,
    layouts: &FunctionalLayouts,
    compared_length: Option<u64>,
    i: int,
    k: int,
)
    requires
        0 <= i < targets.len(),
        is_abstract(targets, covered, globals, layouts, compared_length, i),
        0 <= k < targets[i].fixed_param_ir_types@.len(),
        targets[i].fixed_param_ir_types@[k]@ == "ptr"@ || !(exists|b: nat|
            is_ir_int(targets[i].fixed_param_ir_types@[k]@, b)),
        !mutex_primitive(targets[i].symbol@),
        !mentions(targets[i].symbol@, "_Mutex_base@std"@),
    ensures
        in_order(
            overrides_text(targets, covered, globals, layouts, compared_length),
            seq![
                "    p"@ + dec(k as nat) + " <- llvm_fresh_pointer (llvm_int 8);\n"@,
                "    llvm_execute_func ["@
                    + joined(override_args(targets[i].fixed_param_ir_types@), ", "@) + "];\n"@,
                "    p"@ + dec(k as nat) + "_after <- llvm_fresh_var \"p"@ + dec(k as nat)
                    + "_after\" (llvm_int 8);\n"@,
                "    llvm_points_to_at_type p"@ + dec(k as nat)
                    + " (llvm_int 8) (llvm_term p"@ + dec(k as nat) + "_after);\n"@,
            ],
        ),
{
    let t = targets[i];
    let types = t.fixed_param_ir_types@;
    let n = k as nat;
    let text = overrides_text(targets, covered, globals, layouts, compared_length);
    lemma_ir_int(types[k]@);
    if ir_int_bits(types[k]@) is Some {
        assert(is_ir_int(types[k]@, ir_int_bits(types[k]@)->0));
    }
    let item = "    p"@ + dec(n) + " <- llvm_fresh_pointer (llvm_int 8);\n"@;
    let call = "    llvm_execute_func ["@ + joined(override_args(types), ", "@) + "];\n"@;
    let fresh = "    p"@ + dec(n) + "_after <- llvm_fresh_var \"p"@ + dec(n) + "_after\" (llvm_int 8);\n"@;
    let points = "    llvm_points_to_at_type p"@ + dec(n) + " (llvm_int 8) (llvm_term p"@ + dec(n)
        + "_after);\n"@;
    let symbol = t.symbol@;
    let end = "ov_"@ + sanitized(symbol) + " <- llvm_unsafe_assume_spec m \""@ + symbol + "\" "@
        + sanitized(symbol) + "_spec;\n"@;
    lemma_self_in_order(item);
    let s = lemma_override_params_splits(types, k);
    lemma_in_order_more(s.0, override_param(types[k]@, n), s.1, seq![item]);
    lemma_self_in_order(fresh);
    lemma_self_in_order(points);
    lemma_in_order_join(fresh, seq![fresh], points, seq![points]);
    lemma_list_of_two(fresh, points);
    assert(override_clobber(types[k]@, n) == fresh + points) by {
        broadcast use group_append;

    }
    let r = lemma_override_clobbers_splits(types, k);
    lemma_in_order_more(r.0, override_clobber(types[k]@, n), r.1, seq![fresh, points]);
    lemma_override_in_order(targets, covered, globals, layouts, compared_length, i, seq![item], seq![fresh, points]);
    lemma_list_of_two(item, call);
    lemma_list_of_four(item, call, fresh, points);
    lemma_in_order_first(text, seq![item, call, fresh, points], seq![end]);
}

/// The override may write every global variable that the function is found to
/// write and that is an integer or a truth value: after the call it holds a
/// fresh variable of its width.
pub proof fn law_override_writes_globals(
    targets: Seq<OverrideTarget>,
    covered: Seq<Seq<char>>,
    globals: Seq<GlobalView>,
    layouts: &FunctionalLayouts,
    compared_length: Option<u64>,
    i: int,
    k: int,
)
    requires
        0 <= i < targets.len(),
        is_abstract(targets, covered, globals, layouts, compared_length, i),
        0 <= k < globals.len(),
        views(targets[i].globals_written@).contains(globals[k].mangled_name),
        globals[k].ty is Bool || globals[k].ty is SignedInt || globals[k].ty is UnsignedInt,
    ensures
        ({
            let g = globals[k];
            let safe = sanitized(g.name);
            let bits: nat = match g.ty {
                TypeView::SignedInt(b) => b as nat,
                TypeView::UnsignedInt(b) => b as nat,
                _ => 1,
            };
            in_order(
                overrides_text(targets, covered, globals, layouts, compared_length),
                seq![
                    "    llvm_execute_func ["@
                        + joined(override_args(targets[i].fixed_param_ir_types@), ", "@)
                        + "];\n"@,
                    "    "@ + safe + "_after <- llvm_fresh_var \""@ + safe
                        + "_after\" (llvm_int "@ + dec(bits) + ");\n"@,
                    "    llvm_points_to (llvm_global \""@ + g.mangled_name
                        + "\") (llvm_term "@ + safe + "_after);\n"@,
                ],
            )
        }),
{
    let t = targets[i];
    let g = globals[k];
    let types = t.fixed_param_ir_types@;
    let none = Seq::<Seq<char>>::empty();
    let text = overrides_text(targets, covered, globals, layouts, compared_length);
    let safe = sanitized(g.name);
    let bits: nat = clobber_bits(g.ty)->0 as nat;
    let call = "    llvm_execute_func ["@ + joined(override_args(types), ", "@) + "];\n"@;
    let fresh = "    "@ + safe + "_after <- llvm_fresh_var \""@ + safe + "_after\" (llvm_int "@
        + dec(bits) + ");\n"@;
    let points = "    llvm_points_to (llvm_global \""@ + g.mangled_name + "\") (llvm_term "@ + safe
        + "_after);\n"@;
    let symbol = t.symbol@;
    let end = "ov_"@ + sanitized(symbol) + " <- llvm_unsafe_assume_spec m \""@ + symbol + "\" "@
        + sanitized(symbol) + "_spec;\n"@;
    lemma_self_in_order(fresh);
    lemma_self_in_order(points);
    lemma_in_order_join(fresh, seq![fresh], points, seq![points]);
    lemma_list_of_two(fresh, points);
    assert(written_globals_item(g, t.globals_written@) == fresh + points) by {
        broadcast use group_append;

    }
    let r = lemma_written_globals_splits(globals, t.globals_written@, k);
    lemma_in_order_more(
        r.0,
        written_globals_item(g, t.globals_written@),
        r.1,
        seq![fresh, points],
    );
    lemma_none_in_order(override_params(types));
    lemma_override_in_order(targets, covered, globals, layouts, compared_length, i, none, seq![fresh, points]);
    lemma_nothing_append(seq![call]);
    lemma_list_of_three(call, fresh, points);
    lemma_in_order_first(text, seq![call, fresh, points], seq![end]);
}

/// The override returns anything of the result type: a fresh variable of an
/// integer or of an array of bytes, and a fresh pointer otherwise. A mutex
/// primitive succeeds, which is 0, and so does a helper of a mutex, which is
/// 1; a function that always throws does not return.
pub proof fn law_override_returns_anything(
    targets: Seq<OverrideTarget>,
    covered: Seq<Seq<char>>,
    globals: Seq<GlobalView>,
    layouts: &FunctionalLayouts,
    compared_length: Option<u64>,
    i: int,
)
    requires
        0 <= i < targets.len(),
        is_abstract(targets, covered, globals, layouts, compared_length, i),
    ensures
        ({
            let t = targets[i];
            let symbol = t.symbol@;
            let safe = sanitized(symbol);
            let ty = t.return_ir_type@;
            let text = overrides_text(targets, covered, globals, layouts, compared_length);
            let call = "    llvm_execute_func ["@
                + joined(override_args(t.fixed_param_ir_types@), ", "@) + "];\n"@;
            let end = "ov_"@ + safe + " <- llvm_unsafe_assume_spec m \""@ + symbol + "\" "@ + safe
                + "_spec;\n"@;
            &&& noreturn_throw(symbol) ==> in_order(
                text,
                seq![call, "    llvm_postcond {{ False }};\n"@, end],
            )
            &&& ty == "ptr"@ ==> in_order(
                text,
                seq![
                    call,
                    "    rv <- llvm_fresh_pointer (llvm_int 8);\n"@,
                    "    llvm_return rv;\n"@,
                    end,
                ],
            )
            &&& forall|b: nat| #[trigger]
                is_ir_int(ty, b) && ty != "void"@ && ty != "ptr"@ ==> if mutex_primitive(symbol) {
                    in_order(
                        text,
                        seq![call, "    llvm_return (llvm_term {{ 0 : ["@ + dec(b) + "] }});\n"@, end],
                    )
                } else if mentions(symbol, "_Mutex_base@std"@) {
                    in_order(
                        text,
                        seq![call, "    llvm_return (llvm_term {{ 1 : ["@ + dec(b) + "] }});\n"@, end],
                    )
                } else {
                    in_order(
                        text,
                        seq![
                            call,
                            "    rv <- llvm_fresh_var \"rv\" (llvm_int "@ + dec(b) + ");\n"@,
                            "    llvm_return (llvm_term rv);\n"@,
                            end,
                        ],
                    )
                }
        }),
{
    let t = targets[i];
    let symbol = t.symbol@;
    let safe = sanitized(symbol);
    let ty = t.return_ir_type@;
    let types = t.fixed_param_ir_types@;
    let none = Seq::<Seq<char>>::empty();
    let text = overrides_text(targets, covered, globals, layouts, compared_length);
    let call = "    llvm_execute_func ["@ + joined(override_args(types), ", "@) + "];\n"@;
    let end = "ov_"@ + safe + " <- llvm_unsafe_assume_spec m \""@ + symbol + "\" "@ + safe + "_spec;\n"@;
    lemma_none_in_order(override_params(types));
    lemma_nothing_append(seq![call]);
    if noreturn_throw(symbol) {
        let line = "    llvm_postcond {{ False }};\n"@;
        lemma_self_in_order(line);
        lemma_override_in_order(targets, covered, globals, layouts, compared_length, i, none, seq![line]);
        lemma_list_of_two(call, line);
        lemma_list_of_three(call, line, end);
    }
    lemma_ir_int(ty);
    if ty == "ptr"@ || ir_int_bits(ty) is Some && ty != "void"@ {
        let w = lemma_override_return_lines(symbol, ty);
        lemma_override_in_order(targets, covered, globals, layouts, compared_length, i, none, w);
        if w.len() == 1 {
            lemma_list_of_two(call, w[0]);
            lemma_list_of_three(call, w[0], end);
        } else {
            lemma_list_of_three(call, w[0], w[1]);
            lemma_list_of_four(call, w[0], w[1], end);
        }
        reveal_strlit("ptr");
        reveal_strlit("void");
    }
}

/// The lines of the result.
proof fn lemma_override_return_lines(symbol: Seq<char>, ty: Seq<char>) -> (r: Seq<Seq<char>>)
    requires
        ty == "ptr"@ || ir_int_bits(ty) is Some && ty != "void"@,
    ensures
        in_order(override_return(symbol, ty), r),
        r == if ty == "ptr"@ {
            seq!["    rv <- llvm_fresh_pointer (llvm_int 8);\n"@, "    llvm_return rv;\n"@]
        } else if mutex_primitive(symbol) {
            seq!["    llvm_return (llvm_term {{ 0 : ["@ + dec(ir_int_bits(ty)->0) + "] }});\n"@]
        } else if mentions(symbol, "_Mutex_base@std"@) {
            seq!["    llvm_return (llvm_term {{ 1 : ["@ + dec(ir_int_bits(ty)->0) + "] }});\n"@]
        } else {
            seq![
                "    rv <- llvm_fresh_var \"rv\" (llvm_int "@ + dec(ir_int_bits(ty)->0)
                    + ");\n"@,
                "    llvm_return (llvm_term rv);\n"@,
            ]
        },
{
    reveal_strlit("ptr");
    reveal_strlit("void");
    assert("ptr"@.len() != "void"@.len());
    if ty == "ptr"@ {
        let a = "    rv <- llvm_fresh_pointer (llvm_int 8);\n"@;
        let b = "    llvm_return rv;\n"@;
        lemma_self_in_order(a);
        lemma_self_in_order(b);
        lemma_in_order_join(a, seq![a], b, seq![b]);
        lemma_list_of_two(a, b);
        seq![a, b]
    } else {
        let bits = ir_int_bits(ty)->0;
        if mutex_primitive(symbol) {
            let note = "    // status primitive: pin success sentinel (0 = _Thrd_success) instead of a fresh return\n"@;
            let a = "    llvm_return (llvm_term {{ 0 : ["@ + dec(bits) + "] }});\n"@;
            lemma_self_in_order(a);
            lemma_in_order_ahead(note, a, seq![a]);
            assert(override_return(symbol, ty) == note + a) by {
                broadcast use group_append;

            }
            seq![a]
        } else if msvc_mutex_helper(symbol) {
            let note = "    // mutex helper: a no-op that succeeds in a sequential proof\n"@;
            let a = "    llvm_return (llvm_term {{ 1 : ["@ + dec(bits) + "] }});\n"@;
            lemma_self_in_order(a);
            lemma_in_order_ahead(note, a, seq![a]);
            assert(override_return(symbol, ty) == note + a) by {
                broadcast use group_append;

            }
            seq![a]
        } else {
            let a = "    rv <- llvm_fresh_var \"rv\" (llvm_int "@ + dec(bits) + ");\n"@;
            let b = "    llvm_return (llvm_term rv);\n"@;
            lemma_self_in_order(a);
            lemma_self_in_order(b);
            lemma_in_order_join(a, seq![a], b, seq![b]);
            lemma_list_of_two(a, b);
            seq![a, b]
        }
    }
}

} // verus!
