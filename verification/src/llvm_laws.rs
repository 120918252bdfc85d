//! What a specification over LLVM says of each parameter, of each global
//! variable and of the result, line by line.

use vstd::prelude::*;

use crate::constraints::{AllocType, GlobalView, ParamConstraint, SpecConstraint, TypeView};
use crate::llvm_return::{
    action_required, adversarial_params, adversarial_params_item, adversarial_text, concrete_text,
    statements, statements_item,
};
use crate::llvm_setup::{global_setup, global_setups, globals_setup, init_bits, param_setup};
use crate::llvm_spec::{
    EmitMode, clobbered_globals, clobbered_globals_item, fresh_params, fresh_params_item,
    global_allocs, global_allocs_item, global_value_type, index_lines, index_text, param_args,
    param_setups, saw_spec_text, spec_args, spec_content, spec_file_names, target_of,
    unspecified_return, unspecified_text,
};
use crate::mir_spec::mir_spec_text;
use crate::names::{allocator, byte_array_buffer, sanitized, spec_key};
use crate::status_primitives::mutex_primitive;
use crate::text::{
    after_prefix, dec, group_append, group_views, joined, lemma_append_assoc, lemma_append_nothing,
    lemma_joined_push, lemma_nothing_append, nil, only_if, starts,
};
use crate::text_order::{
    in_order, lemma_four_in_order, lemma_in_order_ahead, lemma_in_order_behind,
    lemma_in_order_first, lemma_in_order_join, lemma_in_order_later, lemma_in_order_more,
    lemma_lines_around, lemma_lines_before, lemma_list_of_five, lemma_list_of_four,
    lemma_list_of_six, lemma_list_of_three, lemma_list_of_two, lemma_none_in_order,
    lemma_one_in_order, lemma_self_in_order, lemma_three_in_order, lemma_two_in_order,
};
use crate::types::{cryptol_text, saw_text};

verus! {

/// What stands before and behind the text of one item.
pub proof fn lemma_param_setups_splits(v: Seq<ParamConstraint>, i: int) -> (r: (Seq<char>, Seq<char>))
    requires
        0 <= i < v.len(),
    ensures
        param_setups(v) == r.0 + param_setup(&v[i]) + r.1,
    decreases v.len(),
{
    let last = param_setup(&v.last());
    if i == v.len() - 1 {
        lemma_append_nothing(param_setups(v.drop_last()) + last);
        (param_setups(v.drop_last()), nil())
    } else {
        let r = lemma_param_setups_splits(v.drop_last(), i);
        lemma_append_assoc(r.0 + param_setup(&v[i]), r.1, last);
        (r.0, r.1 + last)
    }
}

/// What stands before and behind the text of one item.
pub proof fn lemma_statements_splits(v: Seq<String>, i: int) -> (r: (Seq<char>, Seq<char>))
    requires
        0 <= i < v.len(),
    ensures
        statements(v) == r.0 + statements_item(v[i]) + r.1,
    decreases v.len(),
{
    let last = statements_item(v.last());
    if i == v.len() - 1 {
        lemma_append_nothing(statements(v.drop_last()) + last);
        (statements(v.drop_last()), nil())
    } else {
        let r = lemma_statements_splits(v.drop_last(), i);
        lemma_append_assoc(r.0 + statements_item(v[i]), r.1, last);
        (r.0, r.1 + last)
    }
}

/// The text is the texts of the items, one behind the other.
pub proof fn lemma_statements_list(v: Seq<String>)
    ensures
        statements(v) == joined(Seq::new(v.len(), |i: int| statements_item(v[i])), nil()),
    decreases v.len(),
{
    broadcast use lemma_append_nothing;

    let texts = Seq::new(v.len(), |i: int| statements_item(v[i]));
    if v.len() > 0 {
        let short = v.drop_last();
        lemma_statements_list(short);
        let before = Seq::new(short.len(), |i: int| statements_item(short[i]));
        assert(texts =~= before.push(statements_item(v.last())));
        lemma_joined_push(before, nil(), statements_item(v.last()));
    } else {
        assert(texts =~= Seq::<Seq<char>>::empty());
    }
}

/// What stands before and behind the text of one item.
pub proof fn lemma_global_setups_splits(v: Seq<GlobalView>, i: int) -> (r: (Seq<char>, Seq<char>))
    requires
        0 <= i < v.len(),
    ensures
        global_setups(v) == r.0 + global_setup(v[i]) + r.1,
    decreases v.len(),
{
    let last = global_setup(v.last());
    if i == v.len() - 1 {
        lemma_append_nothing(global_setups(v.drop_last()) + last);
        (global_setups(v.drop_last()), nil())
    } else {
        let r = lemma_global_setups_splits(v.drop_last(), i);
        lemma_append_assoc(r.0 + global_setup(v[i]), r.1, last);
        (r.0, r.1 + last)
    }
}

/// What stands before and behind the text of one item.
pub proof fn lemma_adversarial_params_splits(v: Seq<ParamConstraint>, i: int) -> (r: (Seq<char>, Seq<char>))
    requires
        0 <= i < v.len(),
    ensures
        adversarial_params(v) == r.0 + adversarial_params_item(v[i]) + r.1,
    decreases v.len(),
{
    let last = adversarial_params_item(v.last());
    if i == v.len() - 1 {
        lemma_append_nothing(adversarial_params(v.drop_last()) + last);
        (adversarial_params(v.drop_last()), nil())
    } else {
        let r = lemma_adversarial_params_splits(v.drop_last(), i);
        lemma_append_assoc(r.0 + adversarial_params_item(v[i]), r.1, last);
        (r.0, r.1 + last)
    }
}

/// The text is the texts of the items, one behind the other.
pub proof fn lemma_adversarial_params_list(v: Seq<ParamConstraint>)
    ensures
        adversarial_params(v) == joined(Seq::new(v.len(), |i: int| adversarial_params_item(v[i])), nil()),
    decreases v.len(),
{
    broadcast use lemma_append_nothing;

    let texts = Seq::new(v.len(), |i: int| adversarial_params_item(v[i]));
    if v.len() > 0 {
        let short = v.drop_last();
        lemma_adversarial_params_list(short);
        let before = Seq::new(short.len(), |i: int| adversarial_params_item(short[i]));
        assert(texts =~= before.push(adversarial_params_item(v.last())));
        lemma_joined_push(before, nil(), adversarial_params_item(v.last()));
    } else {
        assert(texts =~= Seq::<Seq<char>>::empty());
    }
}

/// What stands before and behind the text of one item.
pub proof fn lemma_fresh_params_splits(v: Seq<ParamConstraint>, i: int) -> (r: (Seq<char>, Seq<char>))
    requires
        0 <= i < v.len(),
    ensures
        fresh_params(v) == r.0 + fresh_params_item(v[i]) + r.1,
    decreases v.len(),
{
    let last = fresh_params_item(v.last());
    if i == v.len() - 1 {
        lemma_append_nothing(fresh_params(v.drop_last()) + last);
        (fresh_params(v.drop_last()), nil())
    } else {
        let r = lemma_fresh_params_splits(v.drop_last(), i);
        lemma_append_assoc(r.0 + fresh_params_item(v[i]), r.1, last);
        (r.0, r.1 + last)
    }
}

/// What stands before and behind the text of one item.
pub proof fn lemma_clobbered_globals_splits(v: Seq<GlobalView>, i: int) -> (r: (Seq<char>, Seq<char>))
    requires
        0 <= i < v.len(),
    ensures
        clobbered_globals(v) == r.0 + clobbered_globals_item(v[i]) + r.1,
    decreases v.len(),
{
    let last = clobbered_globals_item(v.last());
    if i == v.len() - 1 {
        lemma_append_nothing(clobbered_globals(v.drop_last()) + last);
        (clobbered_globals(v.drop_last()), nil())
    } else {
        let r = lemma_clobbered_globals_splits(v.drop_last(), i);
        lemma_append_assoc(r.0 + clobbered_globals_item(v[i]), r.1, last);
        (r.0, r.1 + last)
    }
}

/// What stands before and behind the text of one item.
pub proof fn lemma_global_allocs_splits(v: Seq<GlobalView>, i: int) -> (r: (Seq<char>, Seq<char>))
    requires
        0 <= i < v.len(),
    ensures
        global_allocs(v) == r.0 + global_allocs_item(v[i]) + r.1,
    decreases v.len(),
{
    let last = global_allocs_item(v.last());
    if i == v.len() - 1 {
        lemma_append_nothing(global_allocs(v.drop_last()) + last);
        (global_allocs(v.drop_last()), nil())
    } else {
        let r = lemma_global_allocs_splits(v.drop_last(), i);
        lemma_append_assoc(r.0 + global_allocs_item(v[i]), r.1, last);
        (r.0, r.1 + last)
    }
}

/// Each parameter is one argument.
pub proof fn lemma_param_args(params: Seq<ParamConstraint>)
    ensures
        param_args(params) =~= Seq::new(
            params.len(),
            |i: int|
                if params[i].alloc_type is FreshVar {
                    "llvm_term "@ + params[i].name@
                } else {
                    params[i].name@ + "_ptr"@
                },
        ),
    decreases params.len(),
{
    if params.len() > 0 {
        lemma_param_args(params.drop_last());
    }
}

/// The allocator, written out.
pub proof fn lemma_allocator(ty: Seq<char>)
    ensures
        allocator(true, ty) == if byte_array_buffer(ty) {
            "llvm_alloc_aligned 8"@
        } else {
            "llvm_alloc"@
        },
        allocator(false, ty) == if byte_array_buffer(ty) {
            "llvm_alloc_readonly_aligned 8"@
        } else {
            "llvm_alloc_readonly"@
        },
{
    reveal_strlit("llvm_alloc");
    reveal_strlit("llvm_alloc_readonly");
    reveal_strlit("_aligned ");
    reveal_strlit("llvm_alloc_aligned 8");
    reveal_strlit("llvm_alloc_readonly_aligned 8");
    reveal_with_fuel(dec, 2);
    assert("llvm_alloc"@ + "_aligned "@ + dec(8) =~= "llvm_alloc_aligned 8"@);
    assert("llvm_alloc_readonly"@ + "_aligned "@ + dec(8) =~= "llvm_alloc_readonly_aligned 8"@);
}

/// The parts of a specification: what comes before the parameters, what
/// comes between the global variables and the call, and the end.
proof fn lemma_saw_parts(spec: &SpecConstraint, globals: Seq<GlobalView>) -> (r: (
    Seq<char>,
    Seq<char>,
    Seq<char>,
))
    ensures
        saw_spec_text(spec, globals) == r.0 + param_setups(spec.params@) + only_if(
            globals.len() > 0,
            globals_setup(globals),
        ) + r.1 + ("\n    llvm_execute_func ["@ + joined(spec_args(spec), ", "@) + "];\n"@) + (if spec.is_virtual
            || !spec.has_body {
            adversarial_text(spec)
        } else {
            concrete_text(spec)
        }) + r.2,
        spec.return_constraint.is_sret ==> in_order(
            r.1,
            seq!["    result_ptr <- llvm_alloc ("@ + spec.return_constraint.saw_type@ + ");\n"@],
        ),
        r.2 == if spec.is_virtual || !spec.has_body {
            "};\n"@ + "\n// Usage: ov_"@ + sanitized(spec.function_name@)
                + " <- llvm_unsafe_assume_spec m \""@ + target_of(spec) + "\" "@
                + sanitized(spec.function_name@) + "_auto_spec;\n"@
        } else {
            "};\n"@ + "\n// Usage: ov_"@ + sanitized(spec.function_name@)
                + " <- llvm_verify m \""@ + target_of(spec) + "\" [] false "@
                + sanitized(spec.function_name@) + "_auto_spec z3;\n"@
        },
{
    broadcast use {group_append, group_views};

    let safe = sanitized(spec.function_name@);
    let ty = spec.return_constraint.saw_type@;
    let head = "// Auto-generated spec for: "@ + spec.function_name@ + "\n"@
        + "// Constraints derived from type system and annotations\n"@ + only_if(
        spec.can_throw,
        "// WARNING: Function may throw -- exception path not modeled\n"@,
    ) + "\nlet "@ + safe + "_auto_spec : LLVMSetup () = do {\n"@;
    let hidden = "\n    // sret: struct returned via hidden first pointer parameter\n"@;
    let sret = "    result_ptr <- llvm_alloc ("@ + ty + ");\n"@;
    let mid = only_if(spec.return_constraint.is_sret, hidden + sret);
    if spec.return_constraint.is_sret {
        lemma_self_in_order(sret);
        lemma_in_order_ahead(hidden, sret, seq![sret]);
    }
    let usage = if spec.is_virtual || !spec.has_body {
        "};\n"@ + "\n// Usage: ov_"@ + safe + " <- llvm_unsafe_assume_spec m \""@
            + target_of(spec) + "\" "@ + safe + "_auto_spec;\n"@
    } else {
        "};\n"@ + "\n// Usage: ov_"@ + safe + " <- llvm_verify m \""@ + target_of(spec)
            + "\" [] false "@ + safe + "_auto_spec z3;\n"@
    };
    (head, mid, usage)
}

/// What stands in the setup of the parameters comes before the call, and
/// what stands in the postconditions comes after it.
proof fn lemma_around_the_call(
    spec: &SpecConstraint,
    globals: Seq<GlobalView>,
    v: Seq<Seq<char>>,
    w: Seq<Seq<char>>,
)
    requires
        in_order(param_setups(spec.params@), v) || in_order(
            only_if(globals.len() > 0, globals_setup(globals)),
            v,
        ),
        spec.is_virtual || !spec.has_body ==> in_order(adversarial_text(spec), w),
        !spec.is_virtual && spec.has_body ==> in_order(concrete_text(spec), w),
    ensures
        in_order(saw_spec_text(spec, globals), v + seq!["\n    llvm_execute_func ["@] + w),
        v.len() == 0 ==> in_order(
            saw_spec_text(spec, globals),
            seq!["\n    llvm_execute_func ["@ + joined(spec_args(spec), ", "@) + "];\n"@] + w,
        ),
{
    let r = lemma_saw_parts(spec, globals);
    let g = only_if(globals.len() > 0, globals_setup(globals));
    let s = param_setups(spec.params@);
    let call = "\n    llvm_execute_func ["@;
    let line = "\n    llvm_execute_func ["@ + joined(spec_args(spec), ", "@) + "];\n"@;
    let after = if spec.is_virtual || !spec.has_body {
        adversarial_text(spec)
    } else {
        concrete_text(spec)
    };
    if in_order(s, v) {
        lemma_in_order_ahead(r.0, s, v);
        lemma_in_order_behind(r.0 + s, g, v);
    } else {
        lemma_in_order_ahead(r.0 + s, g, v);
    }
    let before = r.0 + s + g + r.1;
    lemma_in_order_behind(r.0 + s + g, r.1, v);
    lemma_self_in_order(call);
    lemma_self_in_order(line);
    lemma_in_order_behind(call, joined(spec_args(spec), ", "@), seq![call]);
    lemma_in_order_behind(call + joined(spec_args(spec), ", "@), "];\n"@, seq![call]);
    lemma_in_order_join(before, v, line, seq![call]);
    lemma_in_order_join(before + line, v + seq![call], after, w);
    lemma_in_order_behind(before + line + after, r.2, v + seq![call] + w);
    if v.len() == 0 {
        lemma_in_order_join(before, v, line, seq![line]);
        lemma_in_order_join(before + line, v + seq![line], after, w);
        lemma_in_order_behind(before + line + after, r.2, v + seq![line] + w);
        assert(v =~= Seq::empty());
        lemma_nothing_append(seq![line]);
    }
}

/// The call takes the pointer to a returned structure, where there is one,
/// and then every parameter in its place: one passed by value as a term, any
/// other as the pointer that stands for it.
pub proof fn law_call_takes_every_parameter(spec: &SpecConstraint, globals: Seq<GlobalView>)
    ensures
        ({
            let hidden = if spec.return_constraint.is_sret {
                seq!["result_ptr"@]
            } else {
                Seq::<Seq<char>>::empty()
            };
            let args = Seq::new(
                spec.params@.len(),
                |i: int|
                    if spec.params@[i].alloc_type is FreshVar {
                        "llvm_term "@ + spec.params@[i].name@
                    } else {
                        spec.params@[i].name@ + "_ptr"@
                    },
            );
            in_order(
                saw_spec_text(spec, globals),
                seq!["\n    llvm_execute_func ["@ + (joined(hidden + args, ", "@)) + "];\n"@],
            )
        }),
        spec.return_constraint.is_sret ==> in_order(
            saw_spec_text(spec, globals),
            seq![
                "    result_ptr <- llvm_alloc ("@ + spec.return_constraint.saw_type@ + ");\n"@,
                "\n    llvm_execute_func ["@,
            ],
        ),
{
    let none = Seq::<Seq<char>>::empty();
    lemma_param_args(spec.params@);
    lemma_none_in_order(param_setups(spec.params@));
    lemma_none_in_order(adversarial_text(spec));
    lemma_none_in_order(concrete_text(spec));
    lemma_around_the_call(spec, globals, none, none);
    let line = "\n    llvm_execute_func ["@ + joined(spec_args(spec), ", "@) + "];\n"@;
    lemma_append_nothing(seq![line]);
    if spec.return_constraint.is_sret {
        let r = lemma_saw_parts(spec, globals);
        let sret = "    result_ptr <- llvm_alloc ("@ + spec.return_constraint.saw_type@ + ");\n"@;
        let call = "\n    llvm_execute_func ["@;
        let before = r.0 + param_setups(spec.params@) + only_if(
            globals.len() > 0,
            globals_setup(globals),
        );
        let after = if spec.is_virtual || !spec.has_body {
            adversarial_text(spec)
        } else {
            concrete_text(spec)
        };
        lemma_in_order_ahead(before, r.1, seq![sret]);
        lemma_self_in_order(call);
        lemma_in_order_behind(call, joined(spec_args(spec), ", "@), seq![call]);
        lemma_in_order_behind(call + joined(spec_args(spec), ", "@), "];\n"@, seq![call]);
        lemma_in_order_join(before + r.1, seq![sret], line, seq![call]);
        lemma_list_of_two(sret, call);
        lemma_in_order_behind(before + r.1 + line, after, seq![sret, call]);
        lemma_in_order_behind(before + r.1 + line + after, r.2, seq![sret, call]);
    }
}

/// The lines of one parameter.
proof fn lemma_param_lines(p: &ParamConstraint)
    ensures
        ({
            let name = p.name@;
            let ty = p.saw_type@;
            match p.alloc_type {
                AllocType::AllocReadonly => in_order(
                    param_setup(p),
                    seq![
                        "    "@ + name + "_ptr <- "@ + allocator(false, ty) + " ("@ + ty
                            + ");\n"@,
                        "    "@ + name + "_before <- llvm_fresh_var \""@ + name + "\" ("@
                            + ty + ");\n"@,
                        "    llvm_points_to "@ + name + "_ptr (llvm_term "@ + name
                            + "_before);\n"@,
                    ],
                ),
                AllocType::AllocMutable => in_order(
                    param_setup(p),
                    seq![
                        "    "@ + name + "_ptr <- "@ + allocator(true, ty) + " ("@ + ty
                            + ");\n"@,
                        "    "@ + name + "_val <- llvm_fresh_var \""@ + name + "\" ("@ + ty
                            + ");\n"@,
                        "    llvm_points_to "@ + name + "_ptr (llvm_term "@ + name + "_val);\n"@,
                    ],
                ),
                AllocType::FreshVar => in_order(
                    param_setup(p),
                    seq!["    "@ + name + " <- llvm_fresh_var \""@ + name + "\" ("@ + ty + ");\n"@],
                ),
            }
        }),
{
    broadcast use group_append;

    let name = p.name@;
    let ty = p.saw_type@;
    let before = "\n    // Parameter: "@ + name + "\n"@;
    let after = statements(p.preconditions@);
    match p.alloc_type {
        AllocType::FreshVar => {
            let line = "    "@ + name + " <- llvm_fresh_var \""@ + name + "\" ("@ + ty + ");\n"@;
            lemma_one_in_order(before, line, after);
        },
        AllocType::AllocReadonly => {
            let alloc = "    "@ + name + "_ptr <- "@ + allocator(false, ty) + " ("@ + ty + ");\n"@;
            let fresh = "    "@ + name + "_before <- llvm_fresh_var \""@ + name + "\" ("@ + ty + ");\n"@;
            let points = "    llvm_points_to "@ + name + "_ptr (llvm_term "@ + name + "_before);\n"@;
            lemma_three_in_order(before, alloc, nil(), fresh, nil(), points, after);
            assert(param_setup(p) == before + alloc + nil() + fresh + nil() + points + after);
        },
        AllocType::AllocMutable => {
            let alloc = "    "@ + name + "_ptr <- "@ + allocator(true, ty) + " ("@ + ty + ");\n"@;
            let fresh = "    "@ + name + "_val <- llvm_fresh_var \""@ + name + "\" ("@ + ty + ");\n"@;
            let points = "    llvm_points_to "@ + name + "_ptr (llvm_term "@ + name + "_val);\n"@;
            lemma_three_in_order(before, alloc, nil(), fresh, nil(), points, after);
            assert(param_setup(p) == before + alloc + nil() + fresh + nil() + points + after);
        },
    }
}

/// Before the call every parameter is bound: one passed by value to a fresh
/// variable, any other to memory of its type that holds a fresh variable.
/// Const memory is read-only.
#[verifier::rlimit(60)]
pub proof fn law_parameter_is_set_up(spec: &SpecConstraint, globals: Seq<GlobalView>, i: int)
    requires
        0 <= i < spec.params@.len(),
    ensures
        ({
            let p = spec.params@[i];
            let name = p.name@;
            let ty = p.saw_type@;
            let text = saw_spec_text(spec, globals);
            match p.alloc_type {
                AllocType::AllocReadonly => in_order(
                    text,
                    seq![
                        ("    "@ + name + "_ptr <- "@) + (if byte_array_buffer(ty) {
                            "llvm_alloc_readonly_aligned 8"@
                        } else {
                            "llvm_alloc_readonly"@
                        }) + " ("@ + ty + ");\n"@,
                        "    "@ + name + "_before <- llvm_fresh_var \""@ + name + "\" ("@
                            + ty + ");\n"@,
                        "    llvm_points_to "@ + name + "_ptr (llvm_term "@ + name
                            + "_before);\n"@,
                        "\n    llvm_execute_func ["@,
                    ],
                ),
                AllocType::AllocMutable => in_order(
                    text,
                    seq![
                        ("    "@ + name + "_ptr <- "@) + (if byte_array_buffer(ty) {
                            "llvm_alloc_aligned 8"@
                        } else {
                            "llvm_alloc"@
                        }) + " ("@ + ty + ");\n"@,
                        "    "@ + name + "_val <- llvm_fresh_var \""@ + name + "\" ("@ + ty
                            + ");\n"@,
                        "    llvm_points_to "@ + name + "_ptr (llvm_term "@ + name + "_val);\n"@,
                        "\n    llvm_execute_func ["@,
                    ],
                ),
                AllocType::FreshVar => in_order(
                    text,
                    seq![
                        "    "@ + name + " <- llvm_fresh_var \""@ + name + "\" ("@ + ty
                            + ");\n"@,
                        "\n    llvm_execute_func ["@,
                    ],
                ),
            }
        }),
{
    let p = spec.params@[i];
    let name = p.name@;
    let ty = p.saw_type@;
    let call = "\n    llvm_execute_func ["@;
    let none = Seq::<Seq<char>>::empty();
    lemma_allocator(ty);
    lemma_param_lines(&p);
    let s = lemma_param_setups_splits(spec.params@, i);
    lemma_none_in_order(adversarial_text(spec));
    lemma_none_in_order(concrete_text(spec));
    let lines = match p.alloc_type {
        AllocType::FreshVar => seq!["    "@ + name + " <- llvm_fresh_var \""@ + name + "\" ("@ + ty + ");\n"@],
        AllocType::AllocReadonly => seq![
            "    "@ + name + "_ptr <- "@ + allocator(false, ty) + " ("@ + ty + ");\n"@,
            "    "@ + name + "_before <- llvm_fresh_var \""@ + name + "\" ("@ + ty + ");\n"@,
            "    llvm_points_to "@ + name + "_ptr (llvm_term "@ + name + "_before);\n"@,
        ],
        AllocType::AllocMutable => seq![
            "    "@ + name + "_ptr <- "@ + allocator(true, ty) + " ("@ + ty + ");\n"@,
            "    "@ + name + "_val <- llvm_fresh_var \""@ + name + "\" ("@ + ty + ");\n"@,
            "    llvm_points_to "@ + name + "_ptr (llvm_term "@ + name + "_val);\n"@,
        ],
    };
    lemma_in_order_more(s.0, param_setup(&p), s.1, lines);
    lemma_around_the_call(spec, globals, lines, none);
    lemma_lines_before(lines, call);
}

/// The postconditions of one parameter of a function whose body is unknown.
proof fn lemma_adversarial_lines(p: ParamConstraint)
    ensures
        ({
            let name = p.name@;
            match p.alloc_type {
                AllocType::AllocReadonly => in_order(
                    adversarial_params_item(p),
                    seq!["    llvm_points_to "@ + name + "_ptr (llvm_term "@ + name + "_before);\n"@],
                ),
                AllocType::AllocMutable => in_order(
                    adversarial_params_item(p),
                    seq![
                        "    "@ + name + "_after <- llvm_fresh_var \""@ + name
                            + "_after\" ("@ + p.saw_type@ + ");\n"@,
                        "    llvm_points_to "@ + name + "_ptr (llvm_term "@ + name
                            + "_after);\n"@,
                    ],
                ),
                AllocType::FreshVar => adversarial_params_item(p) == nil(),
            }
        }),
{
    broadcast use group_append;

    let name = p.name@;
    match p.alloc_type {
        AllocType::AllocReadonly => {
            let note = "    // "@ + name + ": PRESERVED (const)\n"@;
            let points = "    llvm_points_to "@ + name + "_ptr (llvm_term "@ + name + "_before);\n"@;
            lemma_one_in_order(note, points, nil());
        },
        AllocType::AllocMutable => {
            let note = "    // "@ + name + ": HAVOCED (mutable)\n"@;
            let fresh = "    "@ + name + "_after <- llvm_fresh_var \""@ + name + "_after\" ("@
                + p.saw_type@ + ");\n"@;
            let points = "    llvm_points_to "@ + name + "_ptr (llvm_term "@ + name + "_after);\n"@;
            lemma_two_in_order(note, fresh, nil(), points, nil());
            assert(adversarial_params_item(p) == note + fresh + nil() + points + nil());
        },
        AllocType::FreshVar => {},
    }
}

/// A function whose body is unknown leaves const memory as it was: after the
/// call the pointer points to the very variable to which the setup points it.
/// To mutable memory it may have written anything: after the call the pointer
/// points to a fresh variable of the same type, which is not the one that it
/// pointed to before.
#[verifier::rlimit(60)]
pub proof fn law_unknown_body_keeps_const_memory_only(
    spec: &SpecConstraint,
    globals: Seq<GlobalView>,
    i: int,
)
    requires
        spec.is_virtual || !spec.has_body,
        0 <= i < spec.params@.len(),
    ensures
        ({
            let name = spec.params@[i].name@;
            let ty = spec.params@[i].saw_type@;
            let text = saw_spec_text(spec, globals);
            &&& spec.params@[i].alloc_type is AllocReadonly ==> in_order(
                text,
                seq![
                    "    "@ + name + "_before <- llvm_fresh_var \""@ + name + "\" ("@ + ty
                        + ");\n"@,
                    "    llvm_points_to "@ + name + "_ptr (llvm_term "@ + name + "_before);\n"@,
                    "\n    llvm_execute_func ["@,
                    "    llvm_points_to "@ + name + "_ptr (llvm_term "@ + name + "_before);\n"@,
                ],
            )
            &&& spec.params@[i].alloc_type is AllocMutable ==> in_order(
                text,
                seq![
                    "    "@ + name + "_val <- llvm_fresh_var \""@ + name + "\" ("@ + ty
                        + ");\n"@,
                    "    llvm_points_to "@ + name + "_ptr (llvm_term "@ + name + "_val);\n"@,
                    "\n    llvm_execute_func ["@,
                    "    "@ + name + "_after <- llvm_fresh_var \""@ + name + "_after\" ("@
                        + ty + ");\n"@,
                    "    llvm_points_to "@ + name + "_ptr (llvm_term "@ + name + "_after);\n"@,
                ],
            ) && name + "_after"@ != name + "_val"@
        }),
{
    let p = spec.params@[i];
    let name = p.name@;
    let ty = p.saw_type@;
    let call = "\n    llvm_execute_func ["@;
    lemma_param_lines(&p);
    lemma_adversarial_lines(p);
    let s = lemma_param_setups_splits(spec.params@, i);
    let t = lemma_adversarial_params_splits(spec.params@, i);
    let lines = match p.alloc_type {
        AllocType::FreshVar => Seq::<Seq<char>>::empty(),
        AllocType::AllocReadonly => seq![
            "    "@ + name + "_ptr <- "@ + allocator(false, ty) + " ("@ + ty + ");\n"@,
            "    "@ + name + "_before <- llvm_fresh_var \""@ + name + "\" ("@ + ty + ");\n"@,
            "    llvm_points_to "@ + name + "_ptr (llvm_term "@ + name + "_before);\n"@,
        ],
        AllocType::AllocMutable => seq![
            "    "@ + name + "_ptr <- "@ + allocator(true, ty) + " ("@ + ty + ");\n"@,
            "    "@ + name + "_val <- llvm_fresh_var \""@ + name + "\" ("@ + ty + ");\n"@,
            "    llvm_points_to "@ + name + "_ptr (llvm_term "@ + name + "_val);\n"@,
        ],
    };
    let posts = match p.alloc_type {
        AllocType::FreshVar => Seq::<Seq<char>>::empty(),
        AllocType::AllocReadonly => seq![
            "    llvm_points_to "@ + name + "_ptr (llvm_term "@ + name + "_before);\n"@,
        ],
        AllocType::AllocMutable => seq![
            "    "@ + name + "_after <- llvm_fresh_var \""@ + name + "_after\" ("@ + ty
                + ");\n"@,
            "    llvm_points_to "@ + name + "_ptr (llvm_term "@ + name + "_after);\n"@,
        ],
    };
    if !(p.alloc_type is FreshVar) {
        lemma_in_order_more(s.0, param_setup(&p), s.1, lines);
        lemma_in_order_more(t.0, adversarial_params_item(p), t.1, posts);
        lemma_adversarial_in_order(spec, posts);
        lemma_around_the_call(spec, globals, lines, posts);
        let all = lines + seq![call] + posts;
        lemma_in_order_later(saw_spec_text(spec, globals), all, 1);
        lemma_lines_around(lines, call, posts);
        lemma_after_is_not_val(name);
    }
}

/// The two variables differ in their last letters.
pub proof fn lemma_after_is_not_val(name: Seq<char>)
    ensures
        name + "_after"@ != name + "_val"@,
{
    reveal_strlit("_after");
    reveal_strlit("_val");
    assert((name + "_after"@).len() != (name + "_val"@).len());
}

/// What stands in the postconditions of the parameters stands in the
/// postconditions.
proof fn lemma_adversarial_in_order(spec: &SpecConstraint, v: Seq<Seq<char>>)
    requires
        in_order(adversarial_params(spec.params@), v),
    ensures
        in_order(adversarial_text(spec), v),
{
    broadcast use lemma_in_order_ahead;

}

/// What the specification of a function whose body is unknown says after the
/// call is exactly this: one statement of the result, and one block for each
/// parameter in turn, which keeps const memory and gives mutable memory a
/// fresh value. It writes to no other pointer, and to none of these twice.
pub proof fn law_unknown_body_says_no_more(spec: &SpecConstraint, globals: Seq<GlobalView>)
    requires
        spec.is_virtual || !spec.has_body,
    ensures
        ({
            let ret = spec.return_constraint;
            let ty = ret.saw_type@;
            let pinned = joined(
                Seq::new(
                    ret.value_constraints@.len(),
                    |j: int| "    "@ + ret.value_constraints@[j]@ + ";\n"@,
                ),
                nil(),
            );
            let result = if ret.returns_pointer {
                "\n    ret_ptr <- llvm_alloc ("@ + ty + ");\n"@
                    + "    ret_val <- llvm_fresh_var \"ret_val\" ("@ + ty + ");\n"@
                    + "    llvm_points_to ret_ptr (llvm_term ret_val);\n"@
                    + "    llvm_return ret_ptr;\n"@
            } else if ret.is_sret {
                "\n    ret <- llvm_fresh_var \"ret\" ("@ + ty + ");\n"@ + pinned
                    + "    llvm_points_to result_ptr (llvm_term ret);\n"@
            } else if ty != "// void"@ {
                "\n    ret <- llvm_fresh_var \"ret\" ("@ + ty + ");\n"@ + pinned
                    + "    llvm_return (llvm_term ret);\n"@
            } else {
                nil()
            };
            let blocks = Seq::new(
                spec.params@.len(),
                |i: int|
                    {
                        let name = spec.params@[i].name@;
                        match spec.params@[i].alloc_type {
                            AllocType::AllocReadonly => "    // "@ + name + ": PRESERVED (const)\n"@
                                + "    llvm_points_to "@ + name + "_ptr (llvm_term "@ + name
                                + "_before);\n"@,
                            AllocType::AllocMutable => "    // "@ + name + ": HAVOCED (mutable)\n"@ + "    "@ + name
                                + "_after <- llvm_fresh_var \""@ + name + "_after\" ("@
                                + spec.params@[i].saw_type@ + ");\n"@ + "    llvm_points_to "@
                                + name + "_ptr (llvm_term "@ + name + "_after);\n"@,
                            AllocType::FreshVar => nil(),
                        }
                    },
            );
            let target = match spec.mangled_name {
                Some(m) => m@,
                None => spec.function_name@,
            };
            let safe = sanitized(spec.function_name@);
            exists|head: Seq<char>, args: Seq<char>|
                saw_spec_text(spec, globals) == #[trigger] (head + "\n    llvm_execute_func ["@ + args)
                    + "];\n"@ + result + "\n    // Adversarial postconditions\n"@ + joined(
                    blocks,
                    nil(),
                ) + ("};\n"@ + "\n// Usage: ov_"@ + safe + " <- llvm_unsafe_assume_spec m \""@
                    + target + "\" "@ + safe + "_auto_spec;\n"@)
        }),
{
    let ret = spec.return_constraint;
    let ty = ret.saw_type@;
    let r = lemma_saw_parts(spec, globals);
    lemma_statements_list(ret.value_constraints@);
    lemma_adversarial_params_list(spec.params@);
    let pinned = joined(
        Seq::new(
            ret.value_constraints@.len(),
            |j: int| "    "@ + ret.value_constraints@[j]@ + ";\n"@,
        ),
        nil(),
    );
    assert(Seq::new(
        ret.value_constraints@.len(),
        |j: int| "    "@ + ret.value_constraints@[j]@ + ";\n"@,
    ) =~= Seq::new(
        ret.value_constraints@.len(),
        |j: int| statements_item(ret.value_constraints@[j]),
    ));
    let blocks = Seq::new(
        spec.params@.len(),
        |i: int|
            {
                let name = spec.params@[i].name@;
                match spec.params@[i].alloc_type {
                    AllocType::AllocReadonly => "    // "@ + name + ": PRESERVED (const)\n"@ + "    llvm_points_to "@
                        + name + "_ptr (llvm_term "@ + name + "_before);\n"@,
                    AllocType::AllocMutable => "    // "@ + name + ": HAVOCED (mutable)\n"@ + "    "@ + name
                        + "_after <- llvm_fresh_var \""@ + name + "_after\" ("@
                        + spec.params@[i].saw_type@ + ");\n"@ + "    llvm_points_to "@ + name
                        + "_ptr (llvm_term "@ + name + "_after);\n"@,
                    AllocType::FreshVar => nil(),
                }
            },
    );
    assert(blocks =~= Seq::new(
        spec.params@.len(),
        |i: int| adversarial_params_item(spec.params@[i]),
    ));
    let result = if ret.returns_pointer {
        "\n    ret_ptr <- llvm_alloc ("@ + ty + ");\n"@
            + "    ret_val <- llvm_fresh_var \"ret_val\" ("@ + ty + ");\n"@
            + "    llvm_points_to ret_ptr (llvm_term ret_val);\n"@
            + "    llvm_return ret_ptr;\n"@
    } else if ret.is_sret {
        "\n    ret <- llvm_fresh_var \"ret\" ("@ + ty + ");\n"@ + pinned
            + "    llvm_points_to result_ptr (llvm_term ret);\n"@
    } else if ty != "// void"@ {
        "\n    ret <- llvm_fresh_var \"ret\" ("@ + ty + ");\n"@ + pinned
            + "    llvm_return (llvm_term ret);\n"@
    } else {
        nil()
    };
    let adv = "\n    // Adversarial postconditions\n"@;
    assert(adversarial_text(spec) == result + adv + joined(blocks, nil()));
    let before = r.0 + param_setups(spec.params@) + only_if(
        globals.len() > 0,
        globals_setup(globals),
    ) + r.1;
    lemma_after_call(
        before,
        "\n    llvm_execute_func ["@,
        joined(spec_args(spec), ", "@),
        "];\n"@,
        result,
        adv,
        joined(blocks, nil()),
        r.2,
    );
    assert(saw_spec_text(spec, globals) == (before + "\n    llvm_execute_func ["@ + joined(
        spec_args(spec),
        ", "@,
    )) + "];\n"@ + result + adv + joined(blocks, nil()) + r.2);
}

/// The parts of a specification behind the call, in a row.
pub proof fn lemma_after_call(
    before: Seq<char>,
    call: Seq<char>,
    args: Seq<char>,
    end: Seq<char>,
    result: Seq<char>,
    note: Seq<char>,
    blocks: Seq<char>,
    tail: Seq<char>,
)
    ensures
        before + (call + args + end) + (result + note + blocks) + tail == before + call + args + end
            + result + note + blocks + tail,
{
    broadcast use group_append;

}

/// Every precondition of a parameter is stated before the call.
pub proof fn law_parameter_preconditions_are_stated(
    spec: &SpecConstraint,
    globals: Seq<GlobalView>,
    i: int,
    j: int,
)
    requires
        0 <= i < spec.params@.len(),
        0 <= j < spec.params@[i].preconditions@.len(),
    ensures
        in_order(
            saw_spec_text(spec, globals),
            seq!["    "@ + spec.params@[i].preconditions@[j]@ + ";\n"@, "\n    llvm_execute_func ["@],
        ),
{
    let p = spec.params@[i];
    let line = "    "@ + p.preconditions@[j]@ + ";\n"@;
    let call = "\n    llvm_execute_func ["@;
    let none = Seq::<Seq<char>>::empty();
    lemma_self_in_order(line);
    let s = lemma_statements_splits(p.preconditions@, j);
    lemma_in_order_more(s.0, statements_item(p.preconditions@[j]), s.1, seq![line]);
    lemma_preconditions_in_setup(&p, seq![line]);
    let t = lemma_param_setups_splits(spec.params@, i);
    lemma_in_order_more(t.0, param_setup(&p), t.1, seq![line]);
    lemma_none_in_order(adversarial_text(spec));
    lemma_none_in_order(concrete_text(spec));
    lemma_around_the_call(spec, globals, seq![line], none);
    lemma_list_of_two(line, call);
    lemma_append_nothing(seq![line, call]);
}

proof fn lemma_preconditions_in_setup(p: &ParamConstraint, v: Seq<Seq<char>>)
    requires
        in_order(statements(p.preconditions@), v),
    ensures
        in_order(param_setup(p), v),
{
    broadcast use lemma_in_order_ahead;

}

/// Every global variable is allocated before the call, and holds its known
/// value, what the module says, or a fresh variable of its type.
#[verifier::rlimit(60)]
pub proof fn law_global_is_set_up(spec: &SpecConstraint, globals: Seq<GlobalView>, i: int)
    requires
        0 <= i < globals.len(),
    ensures
        ({
            let g = globals[i];
            let name = g.mangled_name;
            let safe = sanitized(g.name);
            let bits: nat = match g.ty {
                TypeView::SignedInt(b) => b as nat,
                TypeView::UnsignedInt(b) => b as nat,
                TypeView::Bool => 1,
                _ => 32,
            };
            let text = saw_spec_text(spec, globals);
            let alloc = "    llvm_alloc_global \""@ + name + "\";\n"@;
            let call = "\n    llvm_execute_func ["@;
            match g.init_value {
                Some(init) => in_order(
                    text,
                    seq![
                        alloc,
                        "    llvm_points_to (llvm_global \""@ + name + "\") (llvm_term {{ "@
                            + init + " : ["@ + dec(bits) + "] }});\n"@,
                        call,
                    ],
                ),
                None => if g.has_static_initializer {
                    in_order(
                        text,
                        seq![
                            alloc,
                            "    llvm_points_to (llvm_global \""@ + name
                                + "\") (llvm_global_initializer \""@ + name + "\");\n"@,
                            call,
                        ],
                    )
                } else {
                    in_order(
                        text,
                        seq![
                            alloc,
                            "    "@ + safe + "_global <- llvm_fresh_var \""@ + safe
                                + "\" ("@ + saw_text(g.ty) + ");\n"@,
                            "    llvm_points_to (llvm_global \""@ + name
                                + "\") (llvm_term "@ + safe + "_global);\n"@,
                            call,
                        ],
                    )
                },
            }
        }),
{
    let g = globals[i];
    let call = "\n    llvm_execute_func ["@;
    let none = Seq::<Seq<char>>::empty();
    let lines = lemma_global_lines(g);
    let s = lemma_global_setups_splits(globals, i);
    lemma_in_order_more(s.0, global_setup(g), s.1, lines);
    lemma_globals_in_setup(globals, lines);
    lemma_none_in_order(adversarial_text(spec));
    lemma_none_in_order(concrete_text(spec));
    lemma_around_the_call(spec, globals, lines, none);
    lemma_append_nothing(lines + seq![call]);
    if lines.len() == 2 {
        lemma_list_of_three(lines[0], lines[1], call);
    } else {
        lemma_list_of_four(lines[0], lines[1], lines[2], call);
    }
}

proof fn lemma_globals_in_setup(globals: Seq<GlobalView>, v: Seq<Seq<char>>)
    requires
        in_order(global_setups(globals), v),
    ensures
        in_order(globals_setup(globals), v),
{
    broadcast use lemma_in_order_ahead;

}

/// The lines of one global variable.
proof fn lemma_global_lines(g: GlobalView) -> (r: Seq<Seq<char>>)
    ensures
        in_order(global_setup(g), r),
        ({
            let name = g.mangled_name;
            let safe = sanitized(g.name);
            let bits: nat = match g.ty {
                TypeView::SignedInt(b) => b as nat,
                TypeView::UnsignedInt(b) => b as nat,
                TypeView::Bool => 1,
                _ => 32,
            };
            let alloc = "    llvm_alloc_global \""@ + name + "\";\n"@;
            r == match g.init_value {
                Some(init) => seq![
                    alloc,
                    "    llvm_points_to (llvm_global \""@ + name + "\") (llvm_term {{ "@
                        + init + " : ["@ + dec(bits) + "] }});\n"@,
                ],
                None => if g.has_static_initializer {
                    seq![
                        alloc,
                        "    llvm_points_to (llvm_global \""@ + name
                            + "\") (llvm_global_initializer \""@ + name + "\");\n"@,
                    ]
                } else {
                    seq![
                        alloc,
                        "    "@ + safe + "_global <- llvm_fresh_var \""@ + safe + "\" ("@
                            + saw_text(g.ty) + ");\n"@,
                        "    llvm_points_to (llvm_global \""@ + name + "\") (llvm_term "@
                            + safe + "_global);\n"@,
                    ]
                },
            }
        }),
{
    broadcast use group_append;

    let name = g.mangled_name;
    let alloc = "    llvm_alloc_global \""@ + name + "\";\n"@;
    match g.init_value {
        Some(init) => {
            let value = "    llvm_points_to (llvm_global \""@ + name + "\") (llvm_term {{ "@ + init
                + " : ["@ + dec(init_bits(g.ty) as nat) + "] }});\n"@;
            lemma_two_in_order(nil(), alloc, nil(), value, nil());
            assert(global_setup(g) == nil() + alloc + nil() + value + nil());
            seq![alloc, value]
        },
        None => {
            if g.has_static_initializer {
                let value = "    llvm_points_to (llvm_global \""@ + name
                    + "\") (llvm_global_initializer \""@ + name + "\");\n"@;
                lemma_two_in_order(nil(), alloc, nil(), value, nil());
                assert(global_setup(g) == nil() + alloc + nil() + value + nil());
                seq![alloc, value]
            } else {
                let safe = sanitized(g.name);
                let fresh = "    "@ + safe + "_global <- llvm_fresh_var \""@ + safe + "\" ("@
                    + saw_text(g.ty) + ");\n"@;
                let value = "    llvm_points_to (llvm_global \""@ + name + "\") (llvm_term "@ + safe
                    + "_global);\n"@;
                lemma_three_in_order(nil(), alloc, nil(), fresh, nil(), value, nil());
                assert(global_setup(g) == nil() + alloc + nil() + fresh + nil() + value + nil());
                seq![alloc, fresh, value]
            }
        },
    }
}

/// Of a function whose body is verified the specification says after the call
/// that it has some result of its type, and every postcondition.
#[verifier::rlimit(60)]
pub proof fn law_known_body_states_result_and_postconditions(
    spec: &SpecConstraint,
    globals: Seq<GlobalView>,
)
    requires
        !spec.is_virtual && spec.has_body,
    ensures
        ({
            let ret = spec.return_constraint;
            let ty = ret.saw_type@;
            let text = saw_spec_text(spec, globals);
            let call = "\n    llvm_execute_func ["@;
            let fresh = "\n    ret <- llvm_fresh_var \"ret\" ("@ + ty + ");\n"@;
            &&& ret.returns_pointer ==> in_order(
                text,
                seq![
                    call,
                    "\n    ret_ptr <- llvm_alloc ("@ + ty + ");\n"@,
                    "    ret_val <- llvm_fresh_var \"ret_val\" ("@ + ty + ");\n"@,
                    "    llvm_points_to ret_ptr (llvm_term ret_val);\n"@,
                    "    llvm_return ret_ptr;\n"@,
                ],
            )
            &&& !ret.returns_pointer && ret.is_sret ==> in_order(
                text,
                seq![call, fresh, "    llvm_points_to result_ptr (llvm_term ret);\n"@],
            )
            &&& !ret.returns_pointer && !ret.is_sret && ty != "// void"@ ==> in_order(
                text,
                seq![call, fresh, "    llvm_return (llvm_term ret);\n"@],
            )
        }),
        forall|j: int|
            0 <= j < spec.postconditions@.len() ==> in_order(
                saw_spec_text(spec, globals),
                seq![
                    "\n    llvm_execute_func ["@,
                    "    "@ + (#[trigger] spec.postconditions@[j])@ + ";\n"@,
                ],
            ),
{
    let ret = spec.return_constraint;
    let ty = ret.saw_type@;
    let text = saw_spec_text(spec, globals);
    let call = "\n    llvm_execute_func ["@;
    let none = Seq::<Seq<char>>::empty();
    lemma_none_in_order(param_setups(spec.params@));
    let w = lemma_concrete_lines(spec);
    lemma_around_the_call(spec, globals, none, w);
    lemma_nothing_append(seq![call]);
    if w.len() == 4 {
        lemma_list_of_five(call, w[0], w[1], w[2], w[3]);
    } else if w.len() == 2 {
        lemma_list_of_three(call, w[0], w[1]);
    }
    assert forall|j: int| 0 <= j < spec.postconditions@.len() implies in_order(
        text,
        seq![call, "    "@ + (#[trigger] spec.postconditions@[j])@ + ";\n"@],
    ) by {
        let line = "    "@ + spec.postconditions@[j]@ + ";\n"@;
        lemma_self_in_order(line);
        let s = lemma_statements_splits(spec.postconditions@, j);
        lemma_in_order_more(s.0, statements_item(spec.postconditions@[j]), s.1, seq![line]);
        lemma_postconditions_in_concrete(spec, seq![line]);
        lemma_around_the_call(spec, globals, none, seq![line]);
        lemma_list_of_two(call, line);
    }
}

proof fn lemma_postconditions_in_concrete(spec: &SpecConstraint, v: Seq<Seq<char>>)
    requires
        spec.postconditions@.len() > 0,
        in_order(statements(spec.postconditions@), v),
    ensures
        in_order(concrete_text(spec), v),
{
    let note = "\n    // Postconditions\n"@;
    lemma_in_order_ahead(note, statements(spec.postconditions@), v);
    assert forall|a: Seq<char>| #[trigger] in_order(a + (note + statements(spec.postconditions@)), v) by {
        lemma_in_order_ahead(a, note + statements(spec.postconditions@), v);
    }
}

/// The lines of the result of a function whose body is verified.
proof fn lemma_concrete_lines(spec: &SpecConstraint) -> (r: Seq<Seq<char>>)
    ensures
        in_order(concrete_text(spec), r),
        ({
            let ret = spec.return_constraint;
            let ty = ret.saw_type@;
            let fresh = "\n    ret <- llvm_fresh_var \"ret\" ("@ + ty + ");\n"@;
            r == if ret.returns_pointer {
                seq![
                    "\n    ret_ptr <- llvm_alloc ("@ + ty + ");\n"@,
                    "    ret_val <- llvm_fresh_var \"ret_val\" ("@ + ty + ");\n"@,
                    "    llvm_points_to ret_ptr (llvm_term ret_val);\n"@,
                    "    llvm_return ret_ptr;\n"@,
                ]
            } else if ret.is_sret {
                seq![fresh, "    llvm_points_to result_ptr (llvm_term ret);\n"@]
            } else if ty != "// void"@ {
                seq![fresh, "    llvm_return (llvm_term ret);\n"@]
            } else {
                Seq::<Seq<char>>::empty()
            }
        }),
{
    broadcast use group_append;

    let ret = spec.return_constraint;
    let ty = ret.saw_type@;
    let fresh = "\n    ret <- llvm_fresh_var \"ret\" ("@ + ty + ");\n"@;
    let posts = only_if(
        spec.postconditions@.len() > 0,
        "\n    // Postconditions\n"@ + statements(spec.postconditions@),
    );
    let pinned = statements(ret.value_constraints@);
    if ret.returns_pointer {
        let a = "\n    ret_ptr <- llvm_alloc ("@ + ty + ");\n"@;
        let b = "    ret_val <- llvm_fresh_var \"ret_val\" ("@ + ty + ");\n"@;
        let c = "    llvm_points_to ret_ptr (llvm_term ret_val);\n"@;
        let d = "    llvm_return ret_ptr;\n"@;
        lemma_four_in_order(nil(), a, nil(), b, nil(), c, nil(), d, posts);
        assert(concrete_text(spec) == nil() + a + nil() + b + nil() + c + nil() + d + posts);
        seq![a, b, c, d]
    } else if ret.is_sret {
        let last = "    llvm_points_to result_ptr (llvm_term ret);\n"@;
        let between = pinned + action_required()
            + "    //   llvm_points_to result_ptr (llvm_term {{ my_spec x }});\n"@;
        lemma_two_in_order(nil(), fresh, between, last, posts);
        assert(concrete_text(spec) == nil() + fresh + between + last + posts);
        seq![fresh, last]
    } else if ty != "// void"@ {
        let last = "    llvm_return (llvm_term ret);\n"@;
        let between = pinned + action_required() + ("    //   llvm_return (llvm_term {{ my_spec x : "@ + cryptol_text(ty) + " }});\n"@);
        lemma_two_in_order(nil(), fresh, between, last, posts);
        assert(concrete_text(spec) == nil() + fresh + between + last + posts);
        seq![fresh, last]
    } else {
        lemma_none_in_order(concrete_text(spec));
        Seq::empty()
    }
}

/// The specification ends with how it is used: one of an unknown body is
/// assumed, any other is verified, each at the symbol in the bitcode.
pub proof fn law_unknown_body_is_assumed(spec: &SpecConstraint, globals: Seq<GlobalView>)
    ensures
        ({
            let safe = sanitized(spec.function_name@);
            let target = match spec.mangled_name {
                Some(m) => m@,
                None => spec.function_name@,
            };
            in_order(
                saw_spec_text(spec, globals),
                seq![
                    "\n    llvm_execute_func ["@,
                    if spec.is_virtual || !spec.has_body {
                        "\n// Usage: ov_"@ + safe + " <- llvm_unsafe_assume_spec m \""@
                            + target + "\" "@ + safe + "_auto_spec;\n"@
                    } else {
                        "\n// Usage: ov_"@ + safe + " <- llvm_verify m \""@ + target
                            + "\" [] false "@ + safe + "_auto_spec z3;\n"@
                    },
                ],
            )
        }),
{
    let safe = sanitized(spec.function_name@);
    let call = "\n    llvm_execute_func ["@;
    let usage = if spec.is_virtual || !spec.has_body {
        "\n// Usage: ov_"@ + safe + " <- llvm_unsafe_assume_spec m \""@ + target_of(spec)
            + "\" "@ + safe + "_auto_spec;\n"@
    } else {
        "\n// Usage: ov_"@ + safe + " <- llvm_verify m \""@ + target_of(spec)
            + "\" [] false "@ + safe + "_auto_spec z3;\n"@
    };
    let r = lemma_saw_parts(spec, globals);
    let before = r.0 + param_setups(spec.params@) + only_if(
        globals.len() > 0,
        globals_setup(globals),
    ) + r.1;
    let args = joined(spec_args(spec), ", "@);
    let line = call + args + "];\n"@;
    let after = if spec.is_virtual || !spec.has_body {
        adversarial_text(spec)
    } else {
        concrete_text(spec)
    };
    lemma_self_in_order(call);
    lemma_in_order_behind(call, args, seq![call]);
    lemma_in_order_behind(call + args, "];\n"@, seq![call]);
    lemma_in_order_ahead(before, line, seq![call]);
    lemma_in_order_behind(before + line, after, seq![call]);
    lemma_self_in_order(usage);
    lemma_in_order_ahead("};\n"@, usage, seq![usage]);
    assert(r.2 == "};\n"@ + usage) by {
        broadcast use group_append;

    }
    lemma_in_order_join(before + line + after, seq![call], r.2, seq![usage]);
    lemma_list_of_two(call, usage);
}

/// The parts of the override of a callee.
proof fn lemma_unspecified_in_order(
    spec: &SpecConstraint,
    globals: Seq<GlobalView>,
    v: Seq<Seq<char>>,
    q: Seq<Seq<char>>,
    w: Seq<Seq<char>>,
)
    requires
        in_order(fresh_params(spec.params@), v) || in_order(global_allocs(globals), v),
        in_order(unspecified_return(spec), q),
        in_order(clobbered_globals(globals), w),
    ensures
        in_order(
            unspecified_text(spec, globals),
            v + seq!["\n    llvm_execute_func ["@ + joined(param_args(spec.params@), ", "@) + "];\n"@]
                + q + w + seq![
                "ov_"@ + sanitized(spec_key(spec)) + " <- llvm_unsafe_assume_spec m \""@
                    + target_of(spec) + "\" "@ + sanitized(spec_key(spec)) + "_spec;\n"@,
            ],
        ),
{
    let safe = sanitized(spec_key(spec));
    let head = "// Auto-generated havoc spec for sub-callee: "@ + spec.function_name@ + "\n"@
        + "// Assumes the function may write any value to the listed globals;\n"@
        + "// inputs are accepted as fresh-symbolic and the return value (if\n"@
        + "// any) is unconstrained.\n\n"@ + "let "@ + safe + "_spec : LLVMSetup () = do {\n"@;
    let a = fresh_params(spec.params@);
    let b = global_allocs(globals);
    let line = "\n    llvm_execute_func ["@ + joined(param_args(spec.params@), ", "@) + "];\n"@;
    let c = unspecified_return(spec);
    let d = clobbered_globals(globals);
    let end = "ov_"@ + safe + " <- llvm_unsafe_assume_spec m \""@ + target_of(spec) + "\" "@ + safe
        + "_spec;\n"@;
    assert(unspecified_text(spec, globals) == head + a + b + line + c + d + "};\n\n"@ + end) by {
        lemma_unspecified_parts(
            head + a + b,
            "\n    llvm_execute_func ["@,
            joined(param_args(spec.params@), ", "@),
            "];\n"@,
            c,
            d,
            "};\n\n"@,
            "ov_"@,
            safe,
            " <- llvm_unsafe_assume_spec m \""@,
            target_of(spec),
            "\" "@,
            "_spec;\n"@,
        );
    }
    if in_order(a, v) {
        lemma_in_order_ahead(head, a, v);
        lemma_in_order_behind(head + a, b, v);
    } else {
        lemma_in_order_ahead(head + a, b, v);
    }
    lemma_self_in_order(line);
    lemma_self_in_order(end);
    lemma_in_order_join(head + a + b, v, line, seq![line]);
    lemma_in_order_join(head + a + b + line, v + seq![line], c, q);
    lemma_in_order_join(head + a + b + line + c, v + seq![line] + q, d, w);
    lemma_in_order_behind(head + a + b + line + c + d, "};\n\n"@, v + seq![line] + q + w);
    lemma_in_order_join(
        head + a + b + line + c + d + "};\n\n"@,
        v + seq![line] + q + w,
        end,
        seq![end],
    );
}

proof fn lemma_unspecified_parts(
    a: Seq<char>,
    b: Seq<char>,
    c: Seq<char>,
    d: Seq<char>,
    e: Seq<char>,
    f: Seq<char>,
    g: Seq<char>,
    h: Seq<char>,
    i: Seq<char>,
    j: Seq<char>,
    k: Seq<char>,
    l: Seq<char>,
    m: Seq<char>,
)
    ensures
        a + b + c + d + e + f + g + h + i + j + k + l + i + m == a + (b + c + d) + e + f + g + (h
            + i + j + k + l + i + m),
{
    broadcast use group_append;

}

/// The override of a callee takes any arguments: each parameter is a fresh
/// variable or a fresh pointer of its type, and the call takes them in order.
pub proof fn law_callee_takes_any_arguments(spec: &SpecConstraint, globals: Seq<GlobalView>, i: int)
    requires
        0 <= i < spec.params@.len(),
    ensures
        ({
            let name = spec.params@[i].name@;
            let ty = spec.params@[i].saw_type@;
            let args = Seq::new(
                spec.params@.len(),
                |i: int|
                    if spec.params@[i].alloc_type is FreshVar {
                        "llvm_term "@ + spec.params@[i].name@
                    } else {
                        spec.params@[i].name@ + "_ptr"@
                    },
            );
            in_order(
                unspecified_text(spec, globals),
                seq![
                    if spec.params@[i].alloc_type is FreshVar {
                        "    "@ + name + " <- llvm_fresh_var \""@ + name + "\" ("@ + ty
                            + ");\n"@
                    } else {
                        "    "@ + name + "_ptr <- llvm_fresh_pointer ("@ + ty + ");\n"@
                    },
                    "\n    llvm_execute_func ["@ + joined(args, ", "@) + "];\n"@,
                ],
            )
        }),
{
    let none = Seq::<Seq<char>>::empty();
    let item = fresh_params_item(spec.params@[i]);
    let line = "\n    llvm_execute_func ["@ + joined(param_args(spec.params@), ", "@) + "];\n"@;
    let end = "ov_"@ + sanitized(spec_key(spec)) + " <- llvm_unsafe_assume_spec m \""@
        + target_of(spec) + "\" "@ + sanitized(spec_key(spec)) + "_spec;\n"@;
    lemma_param_args(spec.params@);
    lemma_self_in_order(item);
    let s = lemma_fresh_params_splits(spec.params@, i);
    lemma_in_order_more(s.0, item, s.1, seq![item]);
    lemma_none_in_order(unspecified_return(spec));
    lemma_none_in_order(clobbered_globals(globals));
    lemma_unspecified_in_order(spec, globals, seq![item], none, none);
    lemma_list_of_two(item, line);
    lemma_append_nothing(seq![item, line]);
    lemma_in_order_first(unspecified_text(spec, globals), seq![item, line], seq![end]);
}

/// The override of a callee may change every global variable: each is
/// allocated before the call, and after it points to a fresh variable of its
/// type.
pub proof fn law_callee_clobbers_every_global(spec: &SpecConstraint, globals: Seq<GlobalView>, i: int)
    requires
        0 <= i < globals.len(),
    ensures
        ({
            let g = globals[i];
            let safe = sanitized(g.mangled_name);
            let ty = match g.ty {
                TypeView::SignedInt(b) => "llvm_int "@ + dec(b as nat),
                TypeView::UnsignedInt(b) => "llvm_int "@ + dec(b as nat),
                TypeView::Bool => "llvm_int 1"@,
                TypeView::ByteArray(n) => "llvm_array "@ + dec(n as nat) + " (llvm_int 8)"@,
                _ => "llvm_int 32"@,
            };
            let args = joined(param_args(spec.params@), ", "@);
            in_order(
                unspecified_text(spec, globals),
                seq![
                    "    llvm_alloc_global \""@ + g.mangled_name + "\";\n"@,
                    "\n    llvm_execute_func ["@ + args + "];\n"@,
                    "    "@ + safe + "_after <- llvm_fresh_var \""@ + safe + "_after\" ("@
                        + ty + ");\n"@,
                    "    llvm_points_to (llvm_global \""@ + g.mangled_name
                        + "\") (llvm_term "@ + safe + "_after);\n"@,
                ],
            )
        }),
{
    let g = globals[i];
    let safe = sanitized(g.mangled_name);
    let ty = global_value_type(g.ty);
    let none = Seq::<Seq<char>>::empty();
    let alloc = "    llvm_alloc_global \""@ + g.mangled_name + "\";\n"@;
    let line = "\n    llvm_execute_func ["@ + joined(param_args(spec.params@), ", "@) + "];\n"@;
    let end = "ov_"@ + sanitized(spec_key(spec)) + " <- llvm_unsafe_assume_spec m \""@
        + target_of(spec) + "\" "@ + sanitized(spec_key(spec)) + "_spec;\n"@;
    let fresh = "    "@ + safe + "_after <- llvm_fresh_var \""@ + safe + "_after\" ("@ + ty + ");\n"@;
    let points = "    llvm_points_to (llvm_global \""@ + g.mangled_name + "\") (llvm_term "@ + safe
        + "_after);\n"@;
    lemma_self_in_order(alloc);
    let s = lemma_global_allocs_splits(globals, i);
    lemma_in_order_more(s.0, global_allocs_item(g), s.1, seq![alloc]);
    lemma_clobbered_lines(g);
    let t = lemma_clobbered_globals_splits(globals, i);
    lemma_in_order_more(t.0, clobbered_globals_item(g), t.1, seq![fresh, points]);
    lemma_none_in_order(unspecified_return(spec));
    lemma_unspecified_in_order(spec, globals, seq![alloc], none, seq![fresh, points]);
    lemma_list_of_two(alloc, line);
    lemma_append_nothing(seq![alloc, line]);
    lemma_list_of_four(alloc, line, fresh, points);
    lemma_in_order_first(
        unspecified_text(spec, globals),
        seq![alloc, line, fresh, points],
        seq![end],
    );
}

/// The lines of a global variable after the call.
proof fn lemma_clobbered_lines(g: GlobalView)
    ensures
        ({
            let safe = sanitized(g.mangled_name);
            in_order(
                clobbered_globals_item(g),
                seq![
                    "    "@ + safe + "_after <- llvm_fresh_var \""@ + safe + "_after\" ("@
                        + global_value_type(g.ty) + ");\n"@,
                    "    llvm_points_to (llvm_global \""@ + g.mangled_name
                        + "\") (llvm_term "@ + safe + "_after);\n"@,
                ],
            )
        }),
{
    let safe = sanitized(g.mangled_name);
    let ty = global_value_type(g.ty);
    let fresh = "    "@ + safe + "_after <- llvm_fresh_var \""@ + safe + "_after\" ("@ + ty + ");\n"@;
    let points = "    llvm_points_to (llvm_global \""@ + g.mangled_name + "\") (llvm_term "@ + safe
        + "_after);\n"@;
    lemma_self_in_order(fresh);
    lemma_self_in_order(points);
    lemma_in_order_join(fresh, seq![fresh], points, seq![points]);
    lemma_list_of_two(fresh, points);
    lemma_clobbered_parts(
        fresh,
        "    llvm_points_to (llvm_global \""@,
        g.mangled_name,
        "\") (llvm_term "@,
        safe,
        "_after);\n"@,
    );
}

proof fn lemma_clobbered_parts(
    a: Seq<char>,
    b: Seq<char>,
    c: Seq<char>,
    d: Seq<char>,
    e: Seq<char>,
    f: Seq<char>,
)
    ensures
        a + b + c + d + e + f == a + (b + c + d + e + f),
{
    broadcast use group_append;

}

/// The override of a callee has any result of its type, or a pointer to any
/// value of it. Of a mutex primitive that returns an integer, it returns that
/// it succeeded.
pub proof fn law_callee_returns_anything(spec: &SpecConstraint, globals: Seq<GlobalView>)
    requires
        spec.return_constraint.saw_type@ != "// void"@,
    ensures
        ({
            let ty = spec.return_constraint.saw_type@;
            let text = unspecified_text(spec, globals);
            let call = "\n    llvm_execute_func ["@ + joined(param_args(spec.params@), ", "@) + "];\n"@;
            let safe = sanitized(spec_key(spec));
            let target = match spec.mangled_name {
                Some(m) => m@,
                None => spec.function_name@,
            };
            let end = "ov_"@ + safe + " <- llvm_unsafe_assume_spec m \""@ + target + "\" "@ + safe
                + "_spec;\n"@;
            if mutex_primitive(target) && starts(ty, "llvm_int "@) {
                in_order(
                    text,
                    seq![
                        call,
                        "    llvm_return (llvm_term {{ 0 : ["@
                            + after_prefix(ty, "llvm_int "@)->0 + "] }});\n"@,
                        end,
                    ],
                )
            } else if spec.return_constraint.returns_pointer {
                in_order(
                    text,
                    seq![
                        call,
                        "    ret_ptr <- llvm_alloc ("@ + ty + ");\n"@,
                        "    ret_val <- llvm_fresh_var \"ret_val\" ("@ + ty + ");\n"@,
                        "    llvm_points_to ret_ptr (llvm_term ret_val);\n"@,
                        "    llvm_return ret_ptr;\n"@,
                        end,
                    ],
                )
            } else {
                in_order(
                    text,
                    seq![
                        call,
                        "    ret <- llvm_fresh_var \"ret\" ("@ + ty + ");\n"@,
                        "    llvm_return (llvm_term ret);\n"@,
                        end,
                    ],
                )
            }
        }),
{
    let none = Seq::<Seq<char>>::empty();
    let q = lemma_unspecified_lines(spec);
    let line = "\n    llvm_execute_func ["@ + joined(param_args(spec.params@), ", "@) + "];\n"@;
    let end = "ov_"@ + sanitized(spec_key(spec)) + " <- llvm_unsafe_assume_spec m \""@
        + target_of(spec) + "\" "@ + sanitized(spec_key(spec)) + "_spec;\n"@;
    lemma_none_in_order(fresh_params(spec.params@));
    lemma_none_in_order(clobbered_globals(globals));
    lemma_unspecified_in_order(spec, globals, none, q, none);
    lemma_nothing_append(seq![line]);
    lemma_append_nothing(seq![line] + q);
    if q.len() == 1 {
        lemma_list_of_two(line, q[0]);
        lemma_list_of_three(line, q[0], end);
    } else if q.len() == 2 {
        lemma_list_of_three(line, q[0], q[1]);
        lemma_list_of_four(line, q[0], q[1], end);
    } else {
        lemma_list_of_five(line, q[0], q[1], q[2], q[3]);
        lemma_list_of_six(line, q[0], q[1], q[2], q[3], end);
    }
}

/// The lines of the result of a callee.
proof fn lemma_unspecified_lines(spec: &SpecConstraint) -> (r: Seq<Seq<char>>)
    requires
        spec.return_constraint.saw_type@ != "// void"@,
    ensures
        in_order(unspecified_return(spec), r),
        ({
            let ty = spec.return_constraint.saw_type@;
            r == if mutex_primitive(target_of(spec)) && starts(ty, "llvm_int "@) {
                seq![
                    "    llvm_return (llvm_term {{ 0 : ["@
                        + after_prefix(ty, "llvm_int "@)->0 + "] }});\n"@,
                ]
            } else if spec.return_constraint.returns_pointer {
                seq![
                    "    ret_ptr <- llvm_alloc ("@ + ty + ");\n"@,
                    "    ret_val <- llvm_fresh_var \"ret_val\" ("@ + ty + ");\n"@,
                    "    llvm_points_to ret_ptr (llvm_term ret_val);\n"@,
                    "    llvm_return ret_ptr;\n"@,
                ]
            } else {
                seq![
                    "    ret <- llvm_fresh_var \"ret\" ("@ + ty + ");\n"@,
                    "    llvm_return (llvm_term ret);\n"@,
                ]
            }
        }),
{
    broadcast use group_append;

    let ty = spec.return_constraint.saw_type@;
    let text = unspecified_return(spec);
    if mutex_primitive(target_of(spec)) && starts(ty, "llvm_int "@) {
        let note = "    // status primitive: pin success sentinel (0 = _Thrd_success) instead of a fresh return\n"@;
        let a = "    llvm_return (llvm_term {{ 0 : ["@ + after_prefix(ty, "llvm_int "@)->0 + "] }});\n"@;
        lemma_one_in_order(note, a, nil());
        assert(text == note + a + nil());
        seq![a]
    } else if spec.return_constraint.returns_pointer {
        let a = "    ret_ptr <- llvm_alloc ("@ + ty + ");\n"@;
        let b = "    ret_val <- llvm_fresh_var \"ret_val\" ("@ + ty + ");\n"@;
        let c = "    llvm_points_to ret_ptr (llvm_term ret_val);\n"@;
        let d = "    llvm_return ret_ptr;\n"@;
        lemma_four_in_order(nil(), a, nil(), b, nil(), c, nil(), d, nil());
        assert(text == nil() + a + nil() + b + nil() + c + nil() + d + nil());
        seq![a, b, c, d]
    } else {
        let a = "    ret <- llvm_fresh_var \"ret\" ("@ + ty + ");\n"@;
        let b = "    llvm_return (llvm_term ret);\n"@;
        lemma_two_in_order(nil(), a, nil(), b, nil());
        assert(text == nil() + a + nil() + b + nil());
        seq![a, b]
    }
}

/// The index reads in the file of every specification.
pub proof fn law_index_reads_every_file(specs: Seq<SpecConstraint>, mode: EmitMode, i: int)
    requires
        0 <= i < specs.len(),
    ensures
        in_order(
            index_text(specs, mode),
            seq![
                "include \""@ + (sanitized(specs[i].function_name@) + "_auto_spec.saw"@) + "\";\n"@,
            ],
        ),
{
    let names = spec_file_names(specs);
    let line = "include \""@ + names[i] + "\";\n"@;
    lemma_index_line(names, i);
    lemma_index_head(specs, mode, seq![line]);
}

proof fn lemma_index_head(specs: Seq<SpecConstraint>, mode: EmitMode, v: Seq<Seq<char>>)
    requires
        in_order(index_lines(spec_file_names(specs)), v),
    ensures
        in_order(index_text(specs, mode), v),
{
    broadcast use lemma_in_order_ahead;

}

proof fn lemma_index_line(names: Seq<Seq<char>>, i: int)
    requires
        0 <= i < names.len(),
    ensures
        in_order(index_lines(names), seq!["include \""@ + names[i] + "\";\n"@]),
    decreases names.len(),
{
    let rest = names.drop_last();
    let line = "include \""@ + names[i] + "\";\n"@;
    let last = "include \""@ + names.last() + "\";\n"@;
    if rest.contains(names[i]) {
        let k: int = choose|k: int| 0 <= k < rest.len() && rest[k] == names[i];
        lemma_index_line(rest, k);
        if !rest.contains(names.last()) {
            lemma_in_order_behind(index_lines(rest), last, seq![line]);
        }
    } else {
        if i < names.len() - 1 {
            assert(rest[i] == names[i]);
        }
        lemma_self_in_order(line);
        lemma_in_order_ahead(index_lines(rest), line, seq![line]);
    }
}

/// A function is specified over MIR where that is asked for. Over LLVM one
/// whose body is unknown gets an override that takes and does anything where
/// that is asked for, and any other the specification that its types give.
pub proof fn law_mode_decides_the_specification(
    spec: &SpecConstraint,
    experimental: bool,
    globals: Seq<GlobalView>,
)
    ensures
        spec_content(spec, EmitMode::Mir, experimental, globals) == mir_spec_text(spec),
        experimental && (spec.is_virtual || !spec.has_body) ==> spec_content(
            spec,
            EmitMode::Llvm,
            experimental,
            globals,
        ) == unspecified_text(spec, globals),
        !experimental || (!spec.is_virtual && spec.has_body) ==> spec_content(
            spec,
            EmitMode::Llvm,
            experimental,
            globals,
        ) == saw_spec_text(spec, globals),
{
}

} // verus!
