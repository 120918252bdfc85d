//! What a specification over MIR says of each parameter and of the result,
//! line by line.

use vstd::prelude::*;

use crate::constraints::{AllocType, ParamConstraint, SpecConstraint};
use crate::llvm_laws::{lemma_after_call, lemma_after_is_not_val};
use crate::mir_spec::{
    mir_adversarial_params, mir_adversarial_params_item, mir_adversarial_text, mir_args,
    mir_concrete_text, mir_param_setup, mir_param_setups, mir_postconditions,
    mir_postconditions_item, mir_preconditions, mir_preconditions_item, mir_spec_text,
    mir_value_constraints, mir_value_constraints_item,
};
use crate::names::sanitized;
use crate::text::{
    group_append, joined, lemma_append_assoc, lemma_append_nothing, lemma_joined_push,
    lemma_nothing_append, nil, only_if, replaced,
};
use crate::text_order::{
    in_order, lemma_in_order_ahead, lemma_in_order_behind, lemma_in_order_join,
    lemma_in_order_later, lemma_in_order_more, lemma_lines_around, lemma_lines_before,
    lemma_list_of_four, lemma_list_of_three, lemma_list_of_two, lemma_none_in_order,
    lemma_one_in_order, lemma_self_in_order, lemma_three_in_order, lemma_two_in_order,
};
use crate::types::{cryptol_text, mir_text};

verus! {

/// What stands before and behind the text of one item.
pub proof fn lemma_mir_param_setups_splits(v: Seq<ParamConstraint>, i: int) -> (r: (Seq<char>, Seq<char>))
    requires
        0 <= i < v.len(),
    ensures
        mir_param_setups(v) == r.0 + mir_param_setup(&v[i]) + r.1,
    decreases v.len(),
{
    let last = mir_param_setup(&v.last());
    if i == v.len() - 1 {
        lemma_append_nothing(mir_param_setups(v.drop_last()) + last);
        (mir_param_setups(v.drop_last()), nil())
    } else {
        let r = lemma_mir_param_setups_splits(v.drop_last(), i);
        lemma_append_assoc(r.0 + mir_param_setup(&v[i]), r.1, last);
        (r.0, r.1 + last)
    }
}

/// What stands before and behind the text of one item.
pub proof fn lemma_mir_adversarial_params_splits(v: Seq<ParamConstraint>, i: int) -> (r: (Seq<char>, Seq<char>))
    requires
        0 <= i < v.len(),
    ensures
        mir_adversarial_params(v) == r.0 + mir_adversarial_params_item(v[i]) + r.1,
    decreases v.len(),
{
    let last = mir_adversarial_params_item(v.last());
    if i == v.len() - 1 {
        lemma_append_nothing(mir_adversarial_params(v.drop_last()) + last);
        (mir_adversarial_params(v.drop_last()), nil())
    } else {
        let r = lemma_mir_adversarial_params_splits(v.drop_last(), i);
        lemma_append_assoc(r.0 + mir_adversarial_params_item(v[i]), r.1, last);
        (r.0, r.1 + last)
    }
}

/// The text is the texts of the items, one behind the other.
pub proof fn lemma_mir_adversarial_params_list(v: Seq<ParamConstraint>)
    ensures
        mir_adversarial_params(v) == joined(Seq::new(v.len(), |i: int| mir_adversarial_params_item(v[i])), nil()),
    decreases v.len(),
{
    broadcast use lemma_append_nothing;

    let texts = Seq::new(v.len(), |i: int| mir_adversarial_params_item(v[i]));
    if v.len() > 0 {
        let short = v.drop_last();
        lemma_mir_adversarial_params_list(short);
        let before = Seq::new(short.len(), |i: int| mir_adversarial_params_item(short[i]));
        assert(texts =~= before.push(mir_adversarial_params_item(v.last())));
        lemma_joined_push(before, nil(), mir_adversarial_params_item(v.last()));
    } else {
        assert(texts =~= Seq::<Seq<char>>::empty());
    }
}

/// What stands before and behind the text of one item.
pub proof fn lemma_mir_value_constraints_splits(v: Seq<String>, i: int) -> (r: (Seq<char>, Seq<char>))
    requires
        0 <= i < v.len(),
    ensures
        mir_value_constraints(v) == r.0 + mir_value_constraints_item(v[i]) + r.1,
    decreases v.len(),
{
    let last = mir_value_constraints_item(v.last());
    if i == v.len() - 1 {
        lemma_append_nothing(mir_value_constraints(v.drop_last()) + last);
        (mir_value_constraints(v.drop_last()), nil())
    } else {
        let r = lemma_mir_value_constraints_splits(v.drop_last(), i);
        lemma_append_assoc(r.0 + mir_value_constraints_item(v[i]), r.1, last);
        (r.0, r.1 + last)
    }
}

/// What stands before and behind the text of one item.
pub proof fn lemma_mir_preconditions_splits(v: Seq<String>, i: int) -> (r: (Seq<char>, Seq<char>))
    requires
        0 <= i < v.len(),
    ensures
        mir_preconditions(v) == r.0 + mir_preconditions_item(v[i]) + r.1,
    decreases v.len(),
{
    let last = mir_preconditions_item(v.last());
    if i == v.len() - 1 {
        lemma_append_nothing(mir_preconditions(v.drop_last()) + last);
        (mir_preconditions(v.drop_last()), nil())
    } else {
        let r = lemma_mir_preconditions_splits(v.drop_last(), i);
        lemma_append_assoc(r.0 + mir_preconditions_item(v[i]), r.1, last);
        (r.0, r.1 + last)
    }
}

/// What stands before and behind the text of one item.
pub proof fn lemma_mir_postconditions_splits(v: Seq<String>, i: int) -> (r: (Seq<char>, Seq<char>))
    requires
        0 <= i < v.len(),
    ensures
        mir_postconditions(v) == r.0 + mir_postconditions_item(v[i]) + r.1,
    decreases v.len(),
{
    let last = mir_postconditions_item(v.last());
    if i == v.len() - 1 {
        lemma_append_nothing(mir_postconditions(v.drop_last()) + last);
        (mir_postconditions(v.drop_last()), nil())
    } else {
        let r = lemma_mir_postconditions_splits(v.drop_last(), i);
        lemma_append_assoc(r.0 + mir_postconditions_item(v[i]), r.1, last);
        (r.0, r.1 + last)
    }
}

/// Each parameter is one argument.
proof fn lemma_mir_args(params: Seq<ParamConstraint>)
    ensures
        mir_args(params) =~= Seq::new(
            params.len(),
            |i: int|
                if params[i].alloc_type is FreshVar {
                    "mir_term "@ + params[i].name@
                } else {
                    params[i].name@ + "_ref"@
                },
        ),
    decreases params.len(),
{
    if params.len() > 0 {
        lemma_mir_args(params.drop_last());
    }
}

/// The parts of a specification: what comes before the parameters and the end.
proof fn lemma_mir_parts(spec: &SpecConstraint) -> (r: (Seq<char>, Seq<char>))
    ensures
        mir_spec_text(spec) == r.0 + mir_param_setups(spec.params@) + ("\n    mir_execute_func ["@ + joined(mir_args(spec.params@), ", "@) + "];\n"@)
            + (if spec.is_virtual || !spec.has_body {
            mir_adversarial_text(spec)
        } else {
            mir_concrete_text(spec)
        }) + r.1,
        r.1 == if spec.is_virtual || !spec.has_body {
            "};\n"@ + "\n// Usage: ov_"@ + sanitized(spec.function_name@)
                + " <- mir_unsafe_assume_spec m \""@ + spec.function_name@ + "\" "@
                + sanitized(spec.function_name@) + "_auto_spec;\n"@
        } else {
            "};\n"@ + "\n// Usage: ov_"@ + sanitized(spec.function_name@)
                + " <- mir_verify m \""@ + spec.function_name@ + "\" [] false "@
                + sanitized(spec.function_name@) + "_auto_spec z3;\n"@
        },
{
    broadcast use group_append;

    let name = spec.function_name@;
    let safe = sanitized(name);
    let head = "// Auto-generated MIR spec for: "@ + name + "\n"@
        + "// Constraints derived from Rust type system\n"@ + "\nlet "@ + safe
        + "_auto_spec : MIRSetup () = do {\n"@;
    let usage = if spec.is_virtual || !spec.has_body {
        "};\n"@ + "\n// Usage: ov_"@ + safe + " <- mir_unsafe_assume_spec m \""@ + name
            + "\" "@ + safe + "_auto_spec;\n"@
    } else {
        "};\n"@ + "\n// Usage: ov_"@ + safe + " <- mir_verify m \""@ + name
            + "\" [] false "@ + safe + "_auto_spec z3;\n"@
    };
    (head, usage)
}

/// What stands in the setup of the parameters comes before the call, and
/// what stands in the postconditions comes after it.
proof fn lemma_around_the_mir_call(spec: &SpecConstraint, v: Seq<Seq<char>>, w: Seq<Seq<char>>)
    requires
        in_order(mir_param_setups(spec.params@), v),
        spec.is_virtual || !spec.has_body ==> in_order(mir_adversarial_text(spec), w),
        !spec.is_virtual && spec.has_body ==> in_order(mir_concrete_text(spec), w),
    ensures
        in_order(mir_spec_text(spec), v + seq!["\n    mir_execute_func ["@] + w),
        v.len() == 0 ==> in_order(
            mir_spec_text(spec),
            seq!["\n    mir_execute_func ["@ + joined(mir_args(spec.params@), ", "@) + "];\n"@] + w,
        ),
{
    let r = lemma_mir_parts(spec);
    let s = mir_param_setups(spec.params@);
    let call = "\n    mir_execute_func ["@;
    let args = joined(mir_args(spec.params@), ", "@);
    let line = "\n    mir_execute_func ["@ + args + "];\n"@;
    let after = if spec.is_virtual || !spec.has_body {
        mir_adversarial_text(spec)
    } else {
        mir_concrete_text(spec)
    };
    let before = r.0 + s;
    lemma_in_order_ahead(r.0, s, v);
    lemma_self_in_order(call);
    lemma_self_in_order(line);
    lemma_in_order_behind(call, args, seq![call]);
    lemma_in_order_behind(call + args, "];\n"@, seq![call]);
    lemma_in_order_join(before, v, line, seq![call]);
    lemma_in_order_join(before + line, v + seq![call], after, w);
    lemma_in_order_behind(before + line + after, r.1, v + seq![call] + w);
    if v.len() == 0 {
        lemma_in_order_join(before, v, line, seq![line]);
        lemma_in_order_join(before + line, v + seq![line], after, w);
        lemma_in_order_behind(before + line + after, r.1, v + seq![line] + w);
        assert(v =~= Seq::empty());
        lemma_nothing_append(seq![line]);
    }
}

/// The call takes every parameter in its place: one passed by value as a
/// term, any other as the reference that stands for it.
pub proof fn law_mir_call_takes_every_parameter(spec: &SpecConstraint)
    ensures
        ({
            let args = Seq::new(
                spec.params@.len(),
                |i: int|
                    if spec.params@[i].alloc_type is FreshVar {
                        "mir_term "@ + spec.params@[i].name@
                    } else {
                        spec.params@[i].name@ + "_ref"@
                    },
            );
            in_order(
                mir_spec_text(spec),
                seq!["\n    mir_execute_func ["@ + joined(args, ", "@) + "];\n"@],
            )
        }),
{
    let none = Seq::<Seq<char>>::empty();
    lemma_mir_args(spec.params@);
    lemma_none_in_order(mir_param_setups(spec.params@));
    lemma_none_in_order(mir_adversarial_text(spec));
    lemma_none_in_order(mir_concrete_text(spec));
    lemma_around_the_mir_call(spec, none, none);
    let line = "\n    mir_execute_func ["@ + joined(mir_args(spec.params@), ", "@) + "];\n"@;
    lemma_append_nothing(seq![line]);
}

/// The lines of one parameter.
proof fn lemma_mir_param_lines(p: &ParamConstraint)
    ensures
        ({
            let name = p.name@;
            let ty = mir_text(p.saw_type@);
            match p.alloc_type {
                AllocType::AllocReadonly => in_order(
                    mir_param_setup(p),
                    seq![
                        "    "@ + name + "_ref <- mir_alloc_readonly (mir_find_adt m \""@
                            + p.saw_type@ + "\");\n"@,
                        "    "@ + name + "_before <- mir_fresh_var \""@ + name + "\" ("@
                            + ty + ");\n"@,
                        "    mir_points_to "@ + name + "_ref (mir_term "@ + name
                            + "_before);\n"@,
                    ],
                ),
                AllocType::AllocMutable => in_order(
                    mir_param_setup(p),
                    seq![
                        "    "@ + name + "_ref <- mir_alloc (mir_find_adt m \""@
                            + p.saw_type@ + "\");\n"@,
                        "    "@ + name + "_val <- mir_fresh_var \""@ + name + "\" ("@ + ty
                            + ");\n"@,
                        "    mir_points_to "@ + name + "_ref (mir_term "@ + name + "_val);\n"@,
                    ],
                ),
                AllocType::FreshVar => in_order(
                    mir_param_setup(p),
                    seq!["    "@ + name + " <- mir_fresh_var \""@ + name + "\" ("@ + ty + ");\n"@],
                ),
            }
        }),
{
    broadcast use group_append;

    let name = p.name@;
    let ty = mir_text(p.saw_type@);
    let before = "\n    // Parameter: "@ + name + "\n"@;
    let after = mir_preconditions(p.preconditions@);
    match p.alloc_type {
        AllocType::FreshVar => {
            let line = "    "@ + name + " <- mir_fresh_var \""@ + name + "\" ("@ + ty + ");\n"@;
            lemma_one_in_order(before, line, after);
        },
        AllocType::AllocReadonly => {
            let alloc = "    "@ + name + "_ref <- mir_alloc_readonly (mir_find_adt m \""@ + p.saw_type@
                + "\");\n"@;
            let fresh = "    "@ + name + "_before <- mir_fresh_var \""@ + name + "\" ("@ + ty + ");\n"@;
            let points = "    mir_points_to "@ + name + "_ref (mir_term "@ + name + "_before);\n"@;
            lemma_three_in_order(before, alloc, nil(), fresh, nil(), points, after);
            assert(mir_param_setup(p) == before + alloc + nil() + fresh + nil() + points + after);
        },
        AllocType::AllocMutable => {
            let alloc = "    "@ + name + "_ref <- mir_alloc (mir_find_adt m \""@ + p.saw_type@ + "\");\n"@;
            let fresh = "    "@ + name + "_val <- mir_fresh_var \""@ + name + "\" ("@ + ty + ");\n"@;
            let points = "    mir_points_to "@ + name + "_ref (mir_term "@ + name + "_val);\n"@;
            lemma_three_in_order(before, alloc, nil(), fresh, nil(), points, after);
            assert(mir_param_setup(p) == before + alloc + nil() + fresh + nil() + points + after);
        },
    }
}

/// Before the call every parameter is bound: one passed by value to a fresh
/// variable, any other to a reference to memory that holds a fresh variable.
/// What an immutable reference refers to is read-only.
#[verifier::rlimit(60)]
pub proof fn law_mir_parameter_is_set_up(spec: &SpecConstraint, i: int)
    requires
        0 <= i < spec.params@.len(),
    ensures
        ({
            let p = spec.params@[i];
            let name = p.name@;
            let ty = mir_text(p.saw_type@);
            let text = mir_spec_text(spec);
            match p.alloc_type {
                AllocType::AllocReadonly => in_order(
                    text,
                    seq![
                        "    "@ + name + "_ref <- mir_alloc_readonly (mir_find_adt m \""@
                            + p.saw_type@ + "\");\n"@,
                        "    "@ + name + "_before <- mir_fresh_var \""@ + name + "\" ("@
                            + ty + ");\n"@,
                        "    mir_points_to "@ + name + "_ref (mir_term "@ + name
                            + "_before);\n"@,
                        "\n    mir_execute_func ["@,
                    ],
                ),
                AllocType::AllocMutable => in_order(
                    text,
                    seq![
                        "    "@ + name + "_ref <- mir_alloc (mir_find_adt m \""@
                            + p.saw_type@ + "\");\n"@,
                        "    "@ + name + "_val <- mir_fresh_var \""@ + name + "\" ("@ + ty
                            + ");\n"@,
                        "    mir_points_to "@ + name + "_ref (mir_term "@ + name + "_val);\n"@,
                        "\n    mir_execute_func ["@,
                    ],
                ),
                AllocType::FreshVar => in_order(
                    text,
                    seq![
                        "    "@ + name + " <- mir_fresh_var \""@ + name + "\" ("@ + ty + ");\n"@,
                        "\n    mir_execute_func ["@,
                    ],
                ),
            }
        }),
{
    let p = spec.params@[i];
    let name = p.name@;
    let ty = mir_text(p.saw_type@);
    let call = "\n    mir_execute_func ["@;
    let none = Seq::<Seq<char>>::empty();
    lemma_mir_param_lines(&p);
    let s = lemma_mir_param_setups_splits(spec.params@, i);
    lemma_none_in_order(mir_adversarial_text(spec));
    lemma_none_in_order(mir_concrete_text(spec));
    let lines = match p.alloc_type {
        AllocType::FreshVar => seq!["    "@ + name + " <- mir_fresh_var \""@ + name + "\" ("@ + ty + ");\n"@],
        AllocType::AllocReadonly => seq![
            "    "@ + name + "_ref <- mir_alloc_readonly (mir_find_adt m \""@ + p.saw_type@
                + "\");\n"@,
            "    "@ + name + "_before <- mir_fresh_var \""@ + name + "\" ("@ + ty + ");\n"@,
            "    mir_points_to "@ + name + "_ref (mir_term "@ + name + "_before);\n"@,
        ],
        AllocType::AllocMutable => seq![
            "    "@ + name + "_ref <- mir_alloc (mir_find_adt m \""@ + p.saw_type@ + "\");\n"@,
            "    "@ + name + "_val <- mir_fresh_var \""@ + name + "\" ("@ + ty + ");\n"@,
            "    mir_points_to "@ + name + "_ref (mir_term "@ + name + "_val);\n"@,
        ],
    };
    lemma_in_order_more(s.0, mir_param_setup(&p), s.1, lines);
    lemma_around_the_mir_call(spec, lines, none);
    lemma_lines_before(lines, call);
}

/// The postconditions of one parameter of a function whose body is unknown.
proof fn lemma_mir_adversarial_lines(p: ParamConstraint)
    ensures
        ({
            let name = p.name@;
            match p.alloc_type {
                AllocType::AllocReadonly => in_order(
                    mir_adversarial_params_item(p),
                    seq!["    mir_points_to "@ + name + "_ref (mir_term "@ + name + "_before);\n"@],
                ),
                AllocType::AllocMutable => in_order(
                    mir_adversarial_params_item(p),
                    seq![
                        "    "@ + name + "_after <- mir_fresh_var \""@ + name
                            + "_after\" ("@ + mir_text(p.saw_type@) + ");\n"@,
                        "    mir_points_to "@ + name + "_ref (mir_term "@ + name + "_after);\n"@,
                    ],
                ),
                AllocType::FreshVar => mir_adversarial_params_item(p) == nil(),
            }
        }),
{
    broadcast use group_append;

    let name = p.name@;
    match p.alloc_type {
        AllocType::AllocReadonly => {
            let note = "    // "@ + name + ": PRESERVED (immutable ref)\n"@;
            let points = "    mir_points_to "@ + name + "_ref (mir_term "@ + name + "_before);\n"@;
            lemma_one_in_order(note, points, nil());
        },
        AllocType::AllocMutable => {
            let note = "    // "@ + name + ": HAVOCED (mutable ref)\n"@;
            let fresh = "    "@ + name + "_after <- mir_fresh_var \""@ + name + "_after\" ("@
                + mir_text(p.saw_type@) + ");\n"@;
            let points = "    mir_points_to "@ + name + "_ref (mir_term "@ + name + "_after);\n"@;
            lemma_two_in_order(note, fresh, nil(), points, nil());
            assert(mir_adversarial_params_item(p) == note + fresh + nil() + points + nil());
        },
        AllocType::FreshVar => {},
    }
}

/// A function whose body is unknown leaves what an immutable reference refers
/// to as it was: after the call the reference points to the very variable to
/// which the setup points it. To what a mutable reference refers to it may
/// have written anything: after the call the reference points to a fresh
/// variable of the type of the referent, which is not the one that it pointed
/// to before.
#[verifier::rlimit(60)]
pub proof fn law_unknown_body_havocs_mutable_references_only(spec: &SpecConstraint, i: int)
    requires
        spec.is_virtual || !spec.has_body,
        0 <= i < spec.params@.len(),
    ensures
        ({
            let name = spec.params@[i].name@;
            let ty = mir_text(spec.params@[i].saw_type@);
            let text = mir_spec_text(spec);
            &&& spec.params@[i].alloc_type is AllocReadonly ==> in_order(
                text,
                seq![
                    "    "@ + name + "_before <- mir_fresh_var \""@ + name + "\" ("@ + ty
                        + ");\n"@,
                    "    mir_points_to "@ + name + "_ref (mir_term "@ + name + "_before);\n"@,
                    "\n    mir_execute_func ["@,
                    "    mir_points_to "@ + name + "_ref (mir_term "@ + name + "_before);\n"@,
                ],
            )
            &&& spec.params@[i].alloc_type is AllocMutable ==> in_order(
                text,
                seq![
                    "    "@ + name + "_val <- mir_fresh_var \""@ + name + "\" ("@ + ty + ");\n"@,
                    "    mir_points_to "@ + name + "_ref (mir_term "@ + name + "_val);\n"@,
                    "\n    mir_execute_func ["@,
                    "    "@ + name + "_after <- mir_fresh_var \""@ + name + "_after\" ("@
                        + ty + ");\n"@,
                    "    mir_points_to "@ + name + "_ref (mir_term "@ + name + "_after);\n"@,
                ],
            ) && name + "_after"@ != name + "_val"@
        }),
{
    let p = spec.params@[i];
    let name = p.name@;
    let ty = mir_text(p.saw_type@);
    let call = "\n    mir_execute_func ["@;
    lemma_mir_param_lines(&p);
    lemma_mir_adversarial_lines(p);
    let s = lemma_mir_param_setups_splits(spec.params@, i);
    let t = lemma_mir_adversarial_params_splits(spec.params@, i);
    let lines = match p.alloc_type {
        AllocType::FreshVar => Seq::<Seq<char>>::empty(),
        AllocType::AllocReadonly => seq![
            "    "@ + name + "_ref <- mir_alloc_readonly (mir_find_adt m \""@ + p.saw_type@
                + "\");\n"@,
            "    "@ + name + "_before <- mir_fresh_var \""@ + name + "\" ("@ + ty + ");\n"@,
            "    mir_points_to "@ + name + "_ref (mir_term "@ + name + "_before);\n"@,
        ],
        AllocType::AllocMutable => seq![
            "    "@ + name + "_ref <- mir_alloc (mir_find_adt m \""@ + p.saw_type@ + "\");\n"@,
            "    "@ + name + "_val <- mir_fresh_var \""@ + name + "\" ("@ + ty + ");\n"@,
            "    mir_points_to "@ + name + "_ref (mir_term "@ + name + "_val);\n"@,
        ],
    };
    let posts = match p.alloc_type {
        AllocType::FreshVar => Seq::<Seq<char>>::empty(),
        AllocType::AllocReadonly => seq![
            "    mir_points_to "@ + name + "_ref (mir_term "@ + name + "_before);\n"@,
        ],
        AllocType::AllocMutable => seq![
            "    "@ + name + "_after <- mir_fresh_var \""@ + name + "_after\" ("@ + ty + ");\n"@,
            "    mir_points_to "@ + name + "_ref (mir_term "@ + name + "_after);\n"@,
        ],
    };
    if !(p.alloc_type is FreshVar) {
        lemma_in_order_more(s.0, mir_param_setup(&p), s.1, lines);
        lemma_in_order_more(t.0, mir_adversarial_params_item(p), t.1, posts);
        lemma_mir_adversarial_in_order(spec, posts);
        lemma_around_the_mir_call(spec, lines, posts);
        let all = lines + seq![call] + posts;
        lemma_in_order_later(mir_spec_text(spec), all, 1);
        lemma_lines_around(lines, call, posts);
        lemma_after_is_not_val(name);
    }
}

/// What stands in the postconditions of the parameters stands in the
/// postconditions.
proof fn lemma_mir_adversarial_in_order(spec: &SpecConstraint, v: Seq<Seq<char>>)
    requires
        in_order(mir_adversarial_params(spec.params@), v),
    ensures
        in_order(mir_adversarial_text(spec), v),
{
    broadcast use lemma_in_order_ahead;

}

/// What the specification of a function whose body is unknown says after the
/// call is exactly this: one statement of the result, and one block for each
/// parameter in turn. It writes through no other reference, and through none
/// of these twice.
pub proof fn law_mir_unknown_body_says_no_more(spec: &SpecConstraint)
    requires
        spec.is_virtual || !spec.has_body,
    ensures
        ({
            let ret = spec.return_constraint;
            let result = if ret.saw_type@ != "// void"@ {
                "\n    ret <- mir_fresh_var \"ret\" ("@ + mir_text(ret.saw_type@) + ");\n"@
                    + mir_value_constraints(ret.value_constraints@)
                    + "    mir_return (mir_term ret);\n"@
            } else {
                nil()
            };
            let blocks = Seq::new(
                spec.params@.len(),
                |i: int|
                    {
                        let name = spec.params@[i].name@;
                        match spec.params@[i].alloc_type {
                            AllocType::AllocReadonly => "    // "@ + name + ": PRESERVED (immutable ref)\n"@
                                + "    mir_points_to "@ + name + "_ref (mir_term "@ + name
                                + "_before);\n"@,
                            AllocType::AllocMutable => "    // "@ + name + ": HAVOCED (mutable ref)\n"@ + "    "@
                                + name + "_after <- mir_fresh_var \""@ + name + "_after\" ("@
                                + mir_text(spec.params@[i].saw_type@) + ");\n"@
                                + "    mir_points_to "@ + name + "_ref (mir_term "@ + name
                                + "_after);\n"@,
                            AllocType::FreshVar => nil(),
                        }
                    },
            );
            let name = spec.function_name@;
            let safe = sanitized(name);
            exists|head: Seq<char>, args: Seq<char>|
                mir_spec_text(spec) == #[trigger] (head + "\n    mir_execute_func ["@ + args)
                    + "];\n"@ + result + "\n    // Adversarial postconditions\n"@ + joined(
                    blocks,
                    nil(),
                ) + ("};\n"@ + "\n// Usage: ov_"@ + safe + " <- mir_unsafe_assume_spec m \""@
                    + name + "\" "@ + safe + "_auto_spec;\n"@)
        }),
{
    let ret = spec.return_constraint;
    let r = lemma_mir_parts(spec);
    lemma_mir_adversarial_params_list(spec.params@);
    let blocks = Seq::new(
        spec.params@.len(),
        |i: int|
            {
                let name = spec.params@[i].name@;
                match spec.params@[i].alloc_type {
                    AllocType::AllocReadonly => "    // "@ + name + ": PRESERVED (immutable ref)\n"@
                        + "    mir_points_to "@ + name + "_ref (mir_term "@ + name
                        + "_before);\n"@,
                    AllocType::AllocMutable => "    // "@ + name + ": HAVOCED (mutable ref)\n"@ + "    "@ + name
                        + "_after <- mir_fresh_var \""@ + name + "_after\" ("@
                        + mir_text(spec.params@[i].saw_type@) + ");\n"@ + "    mir_points_to "@
                        + name + "_ref (mir_term "@ + name + "_after);\n"@,
                    AllocType::FreshVar => nil(),
                }
            },
    );
    assert(blocks =~= Seq::new(
        spec.params@.len(),
        |i: int| mir_adversarial_params_item(spec.params@[i]),
    ));
    let result = if ret.saw_type@ != "// void"@ {
        "\n    ret <- mir_fresh_var \"ret\" ("@ + mir_text(ret.saw_type@) + ");\n"@
            + mir_value_constraints(ret.value_constraints@)
            + "    mir_return (mir_term ret);\n"@
    } else {
        nil()
    };
    let adv = "\n    // Adversarial postconditions\n"@;
    assert(mir_adversarial_text(spec) == result + adv + joined(blocks, nil()));
    let before = r.0 + mir_param_setups(spec.params@);
    let args = joined(mir_args(spec.params@), ", "@);
    lemma_after_call(
        before,
        "\n    mir_execute_func ["@,
        args,
        "];\n"@,
        result,
        adv,
        joined(blocks, nil()),
        r.1,
    );
    assert(mir_spec_text(spec) == (before + "\n    mir_execute_func ["@ + args) + "];\n"@ + result
        + adv + joined(blocks, nil()) + r.1);
}

/// Every precondition of a parameter is stated before the call, in its MIR
/// form.
pub proof fn law_mir_preconditions_are_stated(spec: &SpecConstraint, i: int, j: int)
    requires
        0 <= i < spec.params@.len(),
        0 <= j < spec.params@[i].preconditions@.len(),
    ensures
        ({
            let said = replaced(
                replaced(spec.params@[i].preconditions@[j]@, "llvm_precond"@, "mir_precond"@),
                "llvm_"@,
                "mir_"@,
            );
            in_order(mir_spec_text(spec), seq!["    "@ + said + ";\n"@, "\n    mir_execute_func ["@])
        }),
{
    let p = spec.params@[i];
    let said = replaced(
        replaced(p.preconditions@[j]@, "llvm_precond"@, "mir_precond"@),
        "llvm_"@,
        "mir_"@,
    );
    let line = "    "@ + said + ";\n"@;
    let call = "\n    mir_execute_func ["@;
    let none = Seq::<Seq<char>>::empty();
    lemma_self_in_order(line);
    let s = lemma_mir_preconditions_splits(p.preconditions@, j);
    lemma_in_order_more(s.0, mir_preconditions_item(p.preconditions@[j]), s.1, seq![line]);
    lemma_mir_preconditions_in_setup(&p, seq![line]);
    let t = lemma_mir_param_setups_splits(spec.params@, i);
    lemma_in_order_more(t.0, mir_param_setup(&p), t.1, seq![line]);
    lemma_none_in_order(mir_adversarial_text(spec));
    lemma_none_in_order(mir_concrete_text(spec));
    lemma_around_the_mir_call(spec, seq![line], none);
    lemma_lines_before(seq![line], call);
}

proof fn lemma_mir_preconditions_in_setup(p: &ParamConstraint, v: Seq<Seq<char>>)
    requires
        in_order(mir_preconditions(p.preconditions@), v),
    ensures
        in_order(mir_param_setup(p), v),
{
    broadcast use lemma_in_order_ahead;

}

/// Where the function returns a value, the specification says after the call
/// that it is a fresh variable of its type, with every constraint on it in its
/// MIR form between the two.
pub proof fn law_mir_result_is_fresh(spec: &SpecConstraint)
    requires
        spec.return_constraint.saw_type@ != "// void"@,
    ensures
        ({
            let ret = spec.return_constraint;
            let fresh = "\n    ret <- mir_fresh_var \"ret\" ("@ + mir_text(ret.saw_type@) + ");\n"@;
            let returned = "    mir_return (mir_term ret);\n"@;
            &&& in_order(
                mir_spec_text(spec),
                seq!["\n    mir_execute_func ["@, fresh, returned],
            )
            &&& forall|j: int|
                0 <= j < ret.value_constraints@.len() ==> {
                    let said = replaced(
                        replaced(
                            (#[trigger] ret.value_constraints@[j])@,
                            "llvm_postcond"@,
                            "mir_postcond"@,
                        ),
                        "llvm_"@,
                        "mir_"@,
                    );
                    in_order(
                        mir_spec_text(spec),
                        seq!["\n    mir_execute_func ["@, fresh, "    "@ + said + ";\n"@, returned],
                    )
                }
        }),
{
    let ret = spec.return_constraint;
    let fresh = "\n    ret <- mir_fresh_var \"ret\" ("@ + mir_text(ret.saw_type@) + ");\n"@;
    let returned = "    mir_return (mir_term ret);\n"@;
    let call = "\n    mir_execute_func ["@;
    let none = Seq::<Seq<char>>::empty();
    lemma_none_in_order(mir_param_setups(spec.params@));
    lemma_none_in_order(mir_value_constraints(ret.value_constraints@));
    lemma_mir_result_in_order(spec, none);
    lemma_append_nothing(seq![fresh]);
    lemma_list_of_two(fresh, returned);
    lemma_around_the_mir_call(spec, none, seq![fresh, returned]);
    lemma_nothing_append(seq![call]);
    lemma_list_of_three(call, fresh, returned);
    assert forall|j: int| 0 <= j < ret.value_constraints@.len() implies {
        let said = replaced(
            replaced(
                (#[trigger] ret.value_constraints@[j])@,
                "llvm_postcond"@,
                "mir_postcond"@,
            ),
            "llvm_"@,
            "mir_"@,
        );
        in_order(mir_spec_text(spec), seq![call, fresh, "    "@ + said + ";\n"@, returned])
    } by {
        let item = mir_value_constraints_item(ret.value_constraints@[j]);
        lemma_self_in_order(item);
        let s = lemma_mir_value_constraints_splits(ret.value_constraints@, j);
        lemma_in_order_more(s.0, item, s.1, seq![item]);
        lemma_mir_result_in_order(spec, seq![item]);
        lemma_list_of_two(fresh, item);
        lemma_list_of_three(fresh, item, returned);
        lemma_around_the_mir_call(spec, none, seq![fresh, item, returned]);
        lemma_list_of_four(call, fresh, item, returned);
    }
}

/// The lines of the result.
proof fn lemma_mir_result_in_order(spec: &SpecConstraint, v: Seq<Seq<char>>)
    requires
        spec.return_constraint.saw_type@ != "// void"@,
        in_order(mir_value_constraints(spec.return_constraint.value_constraints@), v),
    ensures
        ({
            let fresh = "\n    ret <- mir_fresh_var \"ret\" ("@
                + mir_text(spec.return_constraint.saw_type@) + ");\n"@;
            let all = seq![fresh] + v + seq!["    mir_return (mir_term ret);\n"@];
            in_order(mir_adversarial_text(spec), all) && in_order(mir_concrete_text(spec), all)
        }),
{
    let ret = spec.return_constraint;
    let ty = ret.saw_type@;
    let fresh = "\n    ret <- mir_fresh_var \"ret\" ("@ + mir_text(ty) + ");\n"@;
    let pinned = mir_value_constraints(ret.value_constraints@);
    let returned = "    mir_return (mir_term ret);\n"@;
    let all = seq![fresh] + v + seq![returned];
    lemma_self_in_order(fresh);
    lemma_self_in_order(returned);
    lemma_in_order_join(fresh, seq![fresh], pinned, v);
    lemma_in_order_join(fresh + pinned, seq![fresh] + v, returned, seq![returned]);
    let adv = "\n    // Adversarial postconditions\n"@;
    lemma_in_order_behind(fresh + pinned + returned, adv, all);
    lemma_in_order_behind(
        fresh + pinned + returned + adv,
        mir_adversarial_params(spec.params@),
        all,
    );
    assert(mir_adversarial_text(spec) == fresh + pinned + returned + adv + mir_adversarial_params(
        spec.params@,
    ));
    let note = "    // ACTION REQUIRED: This spec only proves absence of undefined behavior.\n"@
        + "    // For functional correctness, import your Cryptol spec and replace ret:\n"@
        + "    //   mir_return (mir_term {{ my_spec x : "@ + cryptol_text(ty) + " }});\n"@;
    let posts = only_if(
        spec.postconditions@.len() > 0,
        "\n    // Postconditions\n"@ + mir_postconditions(spec.postconditions@),
    );
    lemma_in_order_behind(fresh + pinned, note, seq![fresh] + v);
    lemma_in_order_join(fresh + pinned + note, seq![fresh] + v, returned, seq![returned]);
    lemma_in_order_behind(fresh + pinned + note + returned, posts, all);
    assert(mir_concrete_text(spec) == fresh + pinned + note + returned + posts) by {
        broadcast use group_append;

    }
}

/// Of a function whose body is verified every postcondition is stated after
/// the call, in its MIR form.
pub proof fn law_mir_postconditions_are_stated(spec: &SpecConstraint, j: int)
    requires
        !spec.is_virtual && spec.has_body,
        0 <= j < spec.postconditions@.len(),
    ensures
        ({
            let said = replaced(
                replaced(spec.postconditions@[j]@, "llvm_points_to"@, "mir_points_to"@),
                "llvm_term"@,
                "mir_term"@,
            );
            in_order(mir_spec_text(spec), seq!["\n    mir_execute_func ["@, "    "@ + said + ";\n"@])
        }),
{
    let item = mir_postconditions_item(spec.postconditions@[j]);
    let call = "\n    mir_execute_func ["@;
    let none = Seq::<Seq<char>>::empty();
    lemma_self_in_order(item);
    let s = lemma_mir_postconditions_splits(spec.postconditions@, j);
    lemma_in_order_more(s.0, item, s.1, seq![item]);
    let all = mir_postconditions(spec.postconditions@);
    let note = "\n    // Postconditions\n"@;
    lemma_in_order_ahead(note, all, seq![item]);
    lemma_mir_posts_in_concrete(spec, seq![item]);
    lemma_none_in_order(mir_param_setups(spec.params@));
    lemma_around_the_mir_call(spec, none, seq![item]);
    lemma_nothing_append(seq![call]);
    lemma_list_of_two(call, item);
}

proof fn lemma_mir_posts_in_concrete(spec: &SpecConstraint, v: Seq<Seq<char>>)
    requires
        spec.postconditions@.len() > 0,
        in_order("\n    // Postconditions\n"@ + mir_postconditions(spec.postconditions@), v),
    ensures
        in_order(mir_concrete_text(spec), v),
{
    broadcast use lemma_in_order_ahead;

}

} // verus!
