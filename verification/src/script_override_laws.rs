//! Which overrides the verification script binds and hands to the proof.

use vstd::prelude::*;

use crate::buffer_overrides::BufferOverrides;
use crate::constraints::{ClassConstructor, InterfaceMethod, SpecConstraint};
use crate::names::{sanitized, spec_key, stub_name};
use crate::stubs::AssembledStubs;
use crate::text::{
    dec, group_append, lemma_append_assoc, lemma_append_nothing, lemma_nothing_append, nil,
    only_if, views,
};
use crate::text_order::{
    group_order, in_order, lemma_in_order_ahead, lemma_in_order_behind, lemma_in_order_first,
    lemma_in_order_join, lemma_in_order_more, lemma_joined_has, lemma_lines_before,
    lemma_list_of_four, lemma_list_of_three, lemma_list_of_two, lemma_none_in_order,
    lemma_self_in_order, lemma_three_in_order,
};
use crate::verify_script::{
    ScriptOverrides, ScriptTarget, bitcode_step, bound_overrides, calls_new, header_text,
    import_step, interfaces_step, only_names, override_steps, script_text, steps_after, tally,
};
use crate::verify_script_close::{
    ctor_ids, ctor_names, invariant_lines, method_names, override_args, used_overrides,
    verify_text,
};
use crate::verify_script_steps::{
    assumed_ids, assumed_line, assumed_lines, bound_names, callee_step, external_names,
    external_step, load_text, modelled_elsewhere, stubs_note,
};

verus! {

/// What stands before and behind the text of one item.
pub proof fn lemma_assumed_lines_splits(v: Seq<Seq<char>>, i: int) -> (r: (Seq<char>, Seq<char>))
    requires
        0 <= i < v.len(),
    ensures
        assumed_lines(v) == r.0 + assumed_line(v[i]) + r.1,
    decreases v.len(),
{
    let last = assumed_line(v.last());
    if i == v.len() - 1 {
        lemma_append_nothing(assumed_lines(v.drop_last()) + last);
        (assumed_lines(v.drop_last()), nil())
    } else {
        let r = lemma_assumed_lines_splits(v.drop_last(), i);
        lemma_append_assoc(r.0 + assumed_line(v[i]), r.1, last);
        (r.0, r.1 + last)
    }
}

/// The command that starts the proof.
pub open spec fn proof_start(target: &ScriptTarget) -> Seq<char> {
    (if target.loop_invariants@.len() == 0 {
        "llvm_verify"@
    } else {
        "llvm_verify_fixpoint_chc"@
    }) + " m \""@ + target.mangled_name@ + "\"\n    "@
}

/// The parts of the last step of the script.
proof fn lemma_verify_in_order(
    step: nat,
    target: &ScriptTarget,
    overrides: Seq<Seq<char>>,
    v: Seq<Seq<char>>,
)
    requires
        in_order(override_args(overrides), v),
    ensures
        in_order(
            verify_text(
                step,
                target.function_name@,
                target.cryptol_fn@,
                target.mangled_name@,
                overrides,
                target.loop_invariants@,
            ),
            seq![proof_start(target)] + v + seq![
                "\n    false "@ + target.function_name@ + "_equiv_spec z3;\n\n"@,
            ],
        ),
{
    let f = target.function_name@;
    let invariants = target.loop_invariants@;
    let mode = only_if(invariants.len() > 0, "// proof_mode: invariant\n"@);
    let head = "// Step "@ + dec(step) + ": Verify equivalence\n"@ + "print \"BEGIN_PROOF "@ + f
        + "\";\n"@ + "print \"=== Checking: "@ + f + " == "@ + target.cryptol_fn@
        + " (Cryptol) ===\";\n"@ + mode + invariant_lines(invariants);
    let start = proof_start(target);
    let args = override_args(overrides);
    let end = "\n    false "@ + f + "_equiv_spec z3;\n\n"@;
    let tail = "print \"=== VERIFIED: "@ + f + " == "@ + target.cryptol_fn@ + " ===\";\n"@
        + "print \"PROVED "@ + f + "\";\n"@;
    assert(verify_text(step, f, target.cryptol_fn@, target.mangled_name@, overrides, invariants)
        == head + start + args + end + tail) by {
        broadcast use group_append;

    }
    lemma_self_in_order(start);
    lemma_self_in_order(end);
    lemma_in_order_ahead(head, start, seq![start]);
    lemma_in_order_join(head + start, seq![start], args, v);
    lemma_in_order_join(head + start + args, seq![start] + v, end, seq![end]);
    lemma_in_order_behind(head + start + args + end, tail, seq![start] + v + seq![end]);
}

/// What stands in the overriding steps comes before the proof, and what the
/// list of overrides holds is handed to it.
proof fn lemma_overrides_before_the_proof(
    bitcode: Seq<char>,
    cryptol: Seq<char>,
    target: &ScriptTarget,
    o: ScriptOverrides,
    stubs: &AssembledStubs,
    buf: &BufferOverrides,
    v: Seq<Seq<char>>,
    w: Seq<Seq<char>>,
)
    requires
        in_order(override_steps(o, cryptol, 1), v),
        in_order(
            override_args(
                used_overrides(
                    bound_overrides(o),
                    o.has_interfaces,
                    target.vmethods@,
                    target.constructors@,
                ),
            ),
            w,
        ),
    ensures
        in_order(
            script_text(bitcode, cryptol, target, o, stubs, buf),
            v + (seq![proof_start(target)] + w + seq![
                "\n    false "@ + target.function_name@ + "_equiv_spec z3;\n\n"@,
            ]),
        ),
{
    let n = steps_after(o, 1);
    let overrides = used_overrides(
        bound_overrides(o),
        o.has_interfaces,
        target.vmethods@,
        target.constructors@,
    );
    let experimental = o.external_calls@.len() > 0 || o.has_interfaces
        || o.sub_callee_specs@.len() > 0 || o.bitcode.override_names@.len() > 0;
    let head = header_text(
        target.function_name@,
        target.mangled_name@,
        cryptol,
        target.cryptol_fn@,
        experimental,
    ) + load_text(1, o.has_interfaces, bitcode, stubs);
    let steps = override_steps(o, cryptol, 1);
    let spec = target.spec_text(buf, o.sub_callee_specs@.len() > 0, n + 1);
    let last = verify_text(
        n + 2,
        target.function_name@,
        target.cryptol_fn@,
        target.mangled_name@,
        overrides,
        target.loop_invariants@,
    );
    lemma_verify_in_order(n + 2, target, overrides, w);
    lemma_in_order_ahead(head, steps, v);
    lemma_in_order_behind(head + steps, spec, v);
    lemma_in_order_join(
        head + steps + spec,
        v,
        last,
        seq![proof_start(target)] + w + seq![
            "\n    false "@ + target.function_name@ + "_equiv_spec z3;\n\n"@,
        ],
    );
}

/// A name of the list is handed to the proof.
proof fn lemma_override_is_used(names: Seq<Seq<char>>, k: int)
    requires
        0 <= k < names.len(),
    ensures
        in_order(override_args(names), seq![names[k]]),
{
    broadcast use group_order;

    lemma_joined_has(names, ", "@, k);
    lemma_joined_has(names, ",\n     "@, k);
}

/// The identifiers of the callees that are assumed: every callee has its own,
/// but for an external one that is modelled otherwise.
proof fn lemma_assumed(v: Seq<SpecConstraint>, external: bool, i: int)
    requires
        0 <= i < v.len(),
        !external || !modelled_elsewhere(&v[i]),
    ensures
        assumed_ids(v, external).contains(sanitized(spec_key(&v[i]))),
    decreases v.len(),
{
    let rest = assumed_ids(v.drop_last(), external);
    let id = sanitized(spec_key(&v[i]));
    if i == v.len() - 1 {
        if !rest.contains(id) {
            assert(assumed_ids(v, external).last() == id);
        }
    } else {
        lemma_assumed(v.drop_last(), external, i);
        let k: int = choose|k: int| 0 <= k < rest.len() && rest[k] == id;
        assert(assumed_ids(v, external)[k] == id);
    }
}

/// An include line stands in the lines.
proof fn lemma_include_line(ids: Seq<Seq<char>>, k: int)
    requires
        0 <= k < ids.len(),
    ensures
        in_order(
            assumed_lines(ids),
            seq!["include \"specs_experimental/"@ + ids[k] + "_auto_spec.saw\";\n"@],
        ),
{
    let line = "include \"specs_experimental/"@ + ids[k] + "_auto_spec.saw\";\n"@;
    lemma_self_in_order(line);
    let s = lemma_assumed_lines_splits(ids, k);
    lemma_in_order_more(s.0, assumed_line(ids[k]), s.1, seq![line]);
}

/// What a step of the overrides holds, the steps hold.
proof fn lemma_steps_in_order(o: ScriptOverrides, cryptol: Seq<char>, v: Seq<Seq<char>>)
    requires
        ({
            let c = 1 + tally(o.has_interfaces) + tally(o.has_source_sal_annotations) + tally(
                o.external_calls@.len() > 0,
            );
            let d = c + tally(o.bitcode.override_names@.len() > 0);
            let e = d + tally(o.sub_callee_specs@.len() > 0);
            ||| o.external_calls@.len() > 0 && in_order(
                external_step(c, o.external_calls@, calls_new(o.external_calls@)),
                v,
            )
            ||| o.bitcode.override_names@.len() > 0 && in_order(
                bitcode_step(d, o.bitcode.snippet@),
                v,
            )
            ||| o.sub_callee_specs@.len() > 0 && in_order(callee_step(e, o.sub_callee_specs@), v)
        }),
    ensures
        in_order(override_steps(o, cryptol, 1), v),
{
    broadcast use group_order;

}

proof fn lemma_in_external_step(step: nat, specs: Seq<SpecConstraint>, needs_new: bool, v: Seq<Seq<char>>)
    requires
        in_order(assumed_lines(assumed_ids(specs, true)), v),
    ensures
        in_order(external_step(step, specs, needs_new), v),
{
    reveal(external_step);
    let head = "// Step "@ + dec(step) + ": Assume external functions\n"@;
    let lines = assumed_lines(assumed_ids(specs, true));
    let new = only_if(
        needs_new,
        "include \"specs_experimental/operator_new_auto_spec.saw\";\n"@,
    );
    lemma_in_order_ahead(head, lines, v);
    lemma_in_order_behind(head + lines, new, v);
}

proof fn lemma_in_callee_step(step: nat, specs: Seq<SpecConstraint>, v: Seq<Seq<char>>)
    requires
        in_order(assumed_lines(assumed_ids(specs, false)), v),
    ensures
        in_order(callee_step(step, specs), v),
{
    reveal(callee_step);
    let head = "// Step "@ + dec(step) + ": Sub-function adversarial overrides (compositional)\n"@;
    let lines = assumed_lines(assumed_ids(specs, false));
    lemma_in_order_ahead(head, lines, v);
    lemma_in_order_behind(head + lines, "\n"@, v);
}

proof fn lemma_in_bitcode_step(step: nat, snippet: Seq<char>, v: Seq<Seq<char>>)
    requires
        in_order(snippet, v),
    ensures
        in_order(bitcode_step(step, snippet), v),
{
    reveal(bitcode_step);
    let head = "// Step "@ + dec(step) + ": Bitcode-derived extern overrides\n"@;
    lemma_in_order_ahead(head, snippet, v);
    lemma_in_order_behind(head + snippet, "\n"@, v);
}

/// Every external function that the verified one calls is assumed: its
/// specification is read in before the proof, and its override is handed to
/// it. Exempt are those that are modelled otherwise.
pub proof fn law_external_callees_are_assumed(
    bitcode: Seq<char>,
    cryptol: Seq<char>,
    target: &ScriptTarget,
    o: ScriptOverrides,
    stubs: &AssembledStubs,
    buf: &BufferOverrides,
    i: int,
)
    requires
        0 <= i < o.external_calls@.len(),
        !modelled_elsewhere(&o.external_calls@[i]),
    ensures
        ({
            let id = sanitized(spec_key(&o.external_calls@[i]));
            in_order(
                script_text(bitcode, cryptol, target, o, stubs, buf),
                seq![
                    "include \"specs_experimental/"@ + id + "_auto_spec.saw\";\n"@,
                    proof_start(target),
                    "ov_"@ + id,
                    "\n    false "@ + target.function_name@ + "_equiv_spec z3;\n\n"@,
                ],
            )
        }),
{
    let specs = o.external_calls@;
    let ids = assumed_ids(specs, true);
    let id = sanitized(spec_key(&specs[i]));
    let line = "include \"specs_experimental/"@ + id + "_auto_spec.saw\";\n"@;
    let name = "ov_"@ + id;
    let end = "\n    false "@ + target.function_name@ + "_equiv_spec z3;\n\n"@;
    lemma_assumed(specs, true, i);
    let k: int = choose|k: int| 0 <= k < ids.len() && ids[k] == id;
    lemma_include_line(ids, k);
    lemma_external_in_order(o, cryptol, seq![line]);
    let names = bound_overrides(o);
    let used = used_overrides(names, o.has_interfaces, target.vmethods@, target.constructors@);
    assert(names.contains(name)) by {
        let first = only_names(o.has_source_sal_annotations, seq!["ov_var_annotation"@]);
        let ext = external_names(specs, calls_new(specs));
        assert(ext[k] == name);
        assert(names[first.len() + k] == name);
    }
    lemma_used_in_order(o, target, name);
    lemma_overrides_before_the_proof(bitcode, cryptol, target, o, stubs, buf, seq![line], seq![name]);
    lemma_list_of_two(proof_start(target), name);
    lemma_list_of_three(proof_start(target), name, end);
    lemma_list_of_four(line, proof_start(target), name, end);
}

/// A bound name is handed to the proof.
proof fn lemma_used_in_order(o: ScriptOverrides, target: &ScriptTarget, name: Seq<char>)
    requires
        bound_overrides(o).contains(name),
    ensures
        in_order(
            override_args(
                used_overrides(
                    bound_overrides(o),
                    o.has_interfaces,
                    target.vmethods@,
                    target.constructors@,
                ),
            ),
            seq![name],
        ),
{
    let names = bound_overrides(o);
    let used = used_overrides(names, o.has_interfaces, target.vmethods@, target.constructors@);
    let j: int = choose|j: int| 0 <= j < names.len() && names[j] == name;
    assert(used[j] == name);
    lemma_override_is_used(used, j);
}

proof fn lemma_external_in_order(o: ScriptOverrides, cryptol: Seq<char>, v: Seq<Seq<char>>)
    requires
        o.external_calls@.len() > 0,
        in_order(assumed_lines(assumed_ids(o.external_calls@, true)), v),
    ensures
        in_order(override_steps(o, cryptol, 1), v),
{
    let c = 1 + tally(o.has_interfaces) + tally(o.has_source_sal_annotations) + tally(
        o.external_calls@.len() > 0,
    );
    lemma_in_external_step(c, o.external_calls@, calls_new(o.external_calls@), v);
    lemma_steps_in_order(o, cryptol, v);
}

proof fn lemma_callee_in_order(o: ScriptOverrides, cryptol: Seq<char>, v: Seq<Seq<char>>)
    requires
        o.sub_callee_specs@.len() > 0,
        in_order(assumed_lines(assumed_ids(o.sub_callee_specs@, false)), v),
    ensures
        in_order(override_steps(o, cryptol, 1), v),
{
    let e = 1 + tally(o.has_interfaces) + tally(o.has_source_sal_annotations) + tally(
        o.external_calls@.len() > 0,
    ) + tally(o.bitcode.override_names@.len() > 0) + tally(o.sub_callee_specs@.len() > 0);
    lemma_in_callee_step(e, o.sub_callee_specs@, v);
    lemma_steps_in_order(o, cryptol, v);
}

/// Every callee that is to be abstracted is assumed in the same way.
pub proof fn law_sub_callees_are_assumed(
    bitcode: Seq<char>,
    cryptol: Seq<char>,
    target: &ScriptTarget,
    o: ScriptOverrides,
    stubs: &AssembledStubs,
    buf: &BufferOverrides,
    i: int,
)
    requires
        0 <= i < o.sub_callee_specs@.len(),
    ensures
        ({
            let id = sanitized(spec_key(&o.sub_callee_specs@[i]));
            in_order(
                script_text(bitcode, cryptol, target, o, stubs, buf),
                seq![
                    "include \"specs_experimental/"@ + id + "_auto_spec.saw\";\n"@,
                    proof_start(target),
                    "ov_"@ + id,
                    "\n    false "@ + target.function_name@ + "_equiv_spec z3;\n\n"@,
                ],
            )
        }),
{
    let specs = o.sub_callee_specs@;
    let ids = assumed_ids(specs, false);
    let id = sanitized(spec_key(&specs[i]));
    let line = "include \"specs_experimental/"@ + id + "_auto_spec.saw\";\n"@;
    let name = "ov_"@ + id;
    let end = "\n    false "@ + target.function_name@ + "_equiv_spec z3;\n\n"@;
    lemma_assumed(specs, false, i);
    let k: int = choose|k: int| 0 <= k < ids.len() && ids[k] == id;
    lemma_include_line(ids, k);
    lemma_callee_in_order(o, cryptol, seq![line]);
    let names = bound_overrides(o);
    assert(names.contains(name)) by {
        let last = bound_names(ids);
        assert(last[k] == name);
        assert(names[names.len() - last.len() + k] == name);
    }
    lemma_used_in_order(o, target, name);
    lemma_overrides_before_the_proof(bitcode, cryptol, target, o, stubs, buf, seq![line], seq![name]);
    lemma_list_of_two(proof_start(target), name);
    lemma_list_of_three(proof_start(target), name, end);
    lemma_list_of_four(line, proof_start(target), name, end);
}

/// The overrides that are derived from the bitcode stand before the proof,
/// and each of their names is handed to it.
pub proof fn law_bitcode_overrides_are_used(
    bitcode: Seq<char>,
    cryptol: Seq<char>,
    target: &ScriptTarget,
    o: ScriptOverrides,
    stubs: &AssembledStubs,
    buf: &BufferOverrides,
    i: int,
)
    requires
        0 <= i < o.bitcode.override_names@.len(),
    ensures
        in_order(
            script_text(bitcode, cryptol, target, o, stubs, buf),
            seq![
                o.bitcode.snippet@,
                proof_start(target),
                o.bitcode.override_names@[i]@,
                "\n    false "@ + target.function_name@ + "_equiv_spec z3;\n\n"@,
            ],
        ),
{
    let snippet = o.bitcode.snippet@;
    let name = o.bitcode.override_names@[i]@;
    let end = "\n    false "@ + target.function_name@ + "_equiv_spec z3;\n\n"@;
    let d = 1 + tally(o.has_interfaces) + tally(o.has_source_sal_annotations) + tally(
        o.external_calls@.len() > 0,
    ) + tally(o.bitcode.override_names@.len() > 0);
    lemma_self_in_order(snippet);
    lemma_in_bitcode_step(d, snippet, seq![snippet]);
    lemma_steps_in_order(o, cryptol, seq![snippet]);
    let names = bound_overrides(o);
    assert(names.contains(name)) by {
        let a = only_names(o.has_source_sal_annotations, seq!["ov_var_annotation"@])
            + only_names(
            o.external_calls@.len() > 0,
            external_names(o.external_calls@, calls_new(o.external_calls@)),
        );
        assert(views(o.bitcode.override_names@)[i] == name);
        assert(names[a.len() + i] == name);
    }
    lemma_used_in_order(o, target, name);
    lemma_overrides_before_the_proof(bitcode, cryptol, target, o, stubs, buf, seq![snippet], seq![name]);
    lemma_list_of_two(proof_start(target), name);
    lemma_list_of_three(proof_start(target), name, end);
    lemma_list_of_four(snippet, proof_start(target), name, end);
}

/// The script loads the bitcode of the program before the proof: alone, or
/// combined with the stubs where there are interfaces. Where the two were
/// linked beforehand it loads what came of that.
pub proof fn law_program_is_loaded(
    bitcode: Seq<char>,
    cryptol: Seq<char>,
    target: &ScriptTarget,
    o: ScriptOverrides,
    stubs: &AssembledStubs,
    buf: &BufferOverrides,
)
    ensures
        ({
            let text = script_text(bitcode, cryptol, target, o, stubs, buf);
            if !o.has_interfaces {
                in_order(
                    text,
                    seq!["m <- llvm_load_module \""@ + bitcode + "\";\n\n"@, proof_start(target)],
                )
            } else {
                match stubs {
                    AssembledStubs::LinkedBitcode { combined_filename, .. } => in_order(
                        text,
                        seq![
                            "m <- llvm_load_module \""@ + combined_filename@ + "\";\n\n"@,
                            proof_start(target),
                        ],
                    ),
                    _ => {
                        let file = match stubs {
                            AssembledStubs::Bitcode { bc_filename, .. } => bc_filename@,
                            _ => "vtable_stubs.bc"@,
                        };
                        in_order(
                            text,
                            seq![
                                "m_main  <- llvm_load_module \""@ + bitcode + "\";\n"@,
                                "m_stubs <- llvm_load_module \""@ + file + "\";\n"@,
                                "m       <- llvm_combine_modules m_main [m_stubs];\n\n"@,
                                proof_start(target),
                            ],
                        )
                    },
                }
            }
        }),
{
    let v = lemma_load_lines(1, o.has_interfaces, bitcode, stubs);
    lemma_loaded_before_the_proof(bitcode, cryptol, target, o, stubs, buf, v);
    lemma_lines_before(v, proof_start(target));
}

/// The lines that load.
proof fn lemma_load_lines(
    step: nat,
    has_interfaces: bool,
    bitcode: Seq<char>,
    stubs: &AssembledStubs,
) -> (r: Seq<Seq<char>>)
    ensures
        in_order(load_text(step, has_interfaces, bitcode, stubs), r),
        r == if !has_interfaces {
            seq!["m <- llvm_load_module \""@ + bitcode + "\";\n\n"@]
        } else {
            match stubs {
                AssembledStubs::LinkedBitcode { combined_filename, .. } => seq![
                    "m <- llvm_load_module \""@ + combined_filename@ + "\";\n\n"@,
                ],
                _ => {
                    let file = match stubs {
                        AssembledStubs::Bitcode { bc_filename, .. } => bc_filename@,
                        _ => "vtable_stubs.bc"@,
                    };
                    seq![
                        "m_main  <- llvm_load_module \""@ + bitcode + "\";\n"@,
                        "m_stubs <- llvm_load_module \""@ + file + "\";\n"@,
                        "m       <- llvm_combine_modules m_main [m_stubs];\n\n"@,
                    ]
                },
            }
        },
{
    let text = load_text(step, has_interfaces, bitcode, stubs);
    if !has_interfaces {
        let head = "// Step "@ + dec(step) + ": Load bitcode\n"@;
        let a = "m <- llvm_load_module \""@ + bitcode + "\";\n\n"@;
        lemma_self_in_order(a);
        lemma_in_order_ahead(head, a, seq![a]);
        assert(text == head + a) by {
            broadcast use group_append;

        }
        seq![a]
    } else if let AssembledStubs::LinkedBitcode { combined_filename, linker } = stubs {
        let head = "// Step "@ + dec(step) + ": Load bitcode (vtable stubs pre-linked)\n"@ + "// "@
            + combined_filename@ + " was produced at gen time via `"@ + linker@ + "`\n"@
            + "// (main bitcode + vtable_stubs.bc). Loading one module here lets the\n"@
            + "// stock SAW v1.5 release tarball run this script unmodified.\n"@;
        let a = "m <- llvm_load_module \""@ + combined_filename@ + "\";\n\n"@;
        lemma_self_in_order(a);
        lemma_in_order_ahead(head, a, seq![a]);
        assert(text == head + a) by {
            broadcast use group_append;

        }
        seq![a]
    } else {
        let file = match stubs {
            AssembledStubs::Bitcode { bc_filename, .. } => bc_filename@,
            _ => "vtable_stubs.bc"@,
        };
        let head = "// Step "@ + dec(step) + ": Load bitcode + vtable stubs\n"@ + stubs_note(stubs);
        let a = "m_main  <- llvm_load_module \""@ + bitcode + "\";\n"@;
        let b = "m_stubs <- llvm_load_module \""@ + file + "\";\n"@;
        let c = "m       <- llvm_combine_modules m_main [m_stubs];\n\n"@;
        lemma_three_in_order(head, a, nil(), b, nil(), c, nil());
        assert(text == head + a + nil() + b + nil() + c + nil()) by {
            broadcast use group_append;

        }
        seq![a, b, c]
    }
}

proof fn lemma_loaded_before_the_proof(
    bitcode: Seq<char>,
    cryptol: Seq<char>,
    target: &ScriptTarget,
    o: ScriptOverrides,
    stubs: &AssembledStubs,
    buf: &BufferOverrides,
    v: Seq<Seq<char>>,
)
    requires
        in_order(load_text(1, o.has_interfaces, bitcode, stubs), v),
    ensures
        in_order(script_text(bitcode, cryptol, target, o, stubs, buf), v + seq![proof_start(target)]),
{
    let n = steps_after(o, 1);
    let none = Seq::<Seq<char>>::empty();
    let overrides = used_overrides(
        bound_overrides(o),
        o.has_interfaces,
        target.vmethods@,
        target.constructors@,
    );
    let experimental = o.external_calls@.len() > 0 || o.has_interfaces
        || o.sub_callee_specs@.len() > 0 || o.bitcode.override_names@.len() > 0;
    let head = header_text(
        target.function_name@,
        target.mangled_name@,
        cryptol,
        target.cryptol_fn@,
        experimental,
    );
    let load = load_text(1, o.has_interfaces, bitcode, stubs);
    let steps = override_steps(o, cryptol, 1);
    let spec = target.spec_text(buf, o.sub_callee_specs@.len() > 0, n + 1);
    let last = verify_text(
        n + 2,
        target.function_name@,
        target.cryptol_fn@,
        target.mangled_name@,
        overrides,
        target.loop_invariants@,
    );
    let end = "\n    false "@ + target.function_name@ + "_equiv_spec z3;\n\n"@;
    lemma_none_in_order(override_args(overrides));
    lemma_verify_in_order(n + 2, target, overrides, none);
    lemma_append_nothing(seq![proof_start(target)]);
    lemma_in_order_first(last, seq![proof_start(target)], seq![end]);
    lemma_in_order_ahead(head, load, v);
    lemma_in_order_behind(head + load, steps, v);
    lemma_in_order_behind(head + load + steps, spec, v);
    lemma_in_order_join(head + load + steps + spec, v, last, seq![proof_start(target)]);
}

/// The script imports the Cryptol model before the proof. Where there are
/// interfaces it reads in their overrides right behind it.
pub proof fn law_model_is_imported(
    bitcode: Seq<char>,
    cryptol: Seq<char>,
    target: &ScriptTarget,
    o: ScriptOverrides,
    stubs: &AssembledStubs,
    buf: &BufferOverrides,
)
    ensures
        in_order(
            script_text(bitcode, cryptol, target, o, stubs, buf),
            seq![
                if o.has_interfaces {
                    "import \""@ + cryptol + "\";\n"@
                        + "include \"interface_overrides.saw\";\n\n"@
                } else {
                    "import \""@ + cryptol + "\";\n\n"@
                },
                proof_start(target),
            ],
        ),
{
    let none = Seq::<Seq<char>>::empty();
    let line = if o.has_interfaces {
        "import \""@ + cryptol + "\";\n"@ + "include \"interface_overrides.saw\";\n\n"@
    } else {
        "import \""@ + cryptol + "\";\n\n"@
    };
    let end = "\n    false "@ + target.function_name@ + "_equiv_spec z3;\n\n"@;
    let used = used_overrides(
        bound_overrides(o),
        o.has_interfaces,
        target.vmethods@,
        target.constructors@,
    );
    lemma_import_line(o, cryptol, line);
    lemma_none_in_order(override_args(used));
    lemma_overrides_before_the_proof(bitcode, cryptol, target, o, stubs, buf, seq![line], none);
    lemma_append_nothing(seq![proof_start(target)]);
    lemma_list_of_two(proof_start(target), end);
    lemma_list_of_three(line, proof_start(target), end);
    lemma_in_order_first(
        script_text(bitcode, cryptol, target, o, stubs, buf),
        seq![line, proof_start(target)],
        seq![end],
    );
}

proof fn lemma_import_line(o: ScriptOverrides, cryptol: Seq<char>, line: Seq<char>)
    requires
        line == if o.has_interfaces {
            "import \""@ + cryptol + "\";\n"@ + "include \"interface_overrides.saw\";\n\n"@
        } else {
            "import \""@ + cryptol + "\";\n\n"@
        },
    ensures
        in_order(override_steps(o, cryptol, 1), seq![line]),
{
    lemma_self_in_order(line);
    assert forall|step: nat|
        if o.has_interfaces {
            in_order(#[trigger] interfaces_step(step, cryptol), seq![line])
        } else {
            true
        } by {
        if o.has_interfaces {
            reveal(interfaces_step);
            let head = "// Step "@ + dec(step) + ": Vtable havoc overrides + constructor overrides\n"@;
            lemma_in_order_ahead(head, line, seq![line]);
            assert(interfaces_step(step, cryptol) == head + line) by {
                broadcast use group_append;

            }
        }
    }
    assert forall|step: nat|
        if !o.has_interfaces {
            in_order(#[trigger] import_step(step, cryptol), seq![line])
        } else {
            true
        } by {
        if !o.has_interfaces {
            reveal(import_step);
            let head = "// Step "@ + dec(step) + ": Import Cryptol spec\n"@;
            lemma_in_order_ahead(head, line, seq![line]);
            assert(import_step(step, cryptol) == head + line) by {
                broadcast use group_append;

            }
        }
    }
    broadcast use group_order;

}

/// Where there are interfaces, the override of every method that overrides no
/// known one is handed to the proof.
pub proof fn law_interface_overrides_are_used(
    bitcode: Seq<char>,
    cryptol: Seq<char>,
    target: &ScriptTarget,
    o: ScriptOverrides,
    stubs: &AssembledStubs,
    buf: &BufferOverrides,
    i: int,
)
    requires
        o.has_interfaces,
        0 <= i < target.vmethods@.len(),
        !target.vmethods@[i].is_override,
    ensures
        ({
            let m = target.vmethods@[i];
            let stub = stub_name(m.class_name@, m.method.name@);
            in_order(
                script_text(bitcode, cryptol, target, o, stubs, buf),
                seq![
                    proof_start(target),
                    "ov_"@ + sanitized(stub),
                    "\n    false "@ + target.function_name@ + "_equiv_spec z3;\n\n"@,
                ],
            )
        }),
{
    let m = target.vmethods@[i];
    let name = "ov_"@ + sanitized(stub_name(m.class_name@, m.method.name@));
    let none = Seq::<Seq<char>>::empty();
    let end = "\n    false "@ + target.function_name@ + "_equiv_spec z3;\n\n"@;
    let methods = method_names(target.vmethods@, target.vmethods@);
    let k = lemma_method_is_named(target.vmethods@, target.vmethods@, i);
    let before = bound_overrides(o) + ctor_names(ctor_ids(target.constructors@));
    let used = used_overrides(
        bound_overrides(o),
        o.has_interfaces,
        target.vmethods@,
        target.constructors@,
    );
    assert(used[before.len() + k] == name);
    lemma_override_is_used(used, before.len() + k);
    lemma_none_in_order(override_steps(o, cryptol, 1));
    lemma_overrides_before_the_proof(bitcode, cryptol, target, o, stubs, buf, none, seq![name]);
    lemma_list_of_two(proof_start(target), name);
    lemma_list_of_three(proof_start(target), name, end);
    lemma_nothing_append(seq![proof_start(target), name, end]);
}

proof fn lemma_method_is_named(v: Seq<InterfaceMethod>, all: Seq<InterfaceMethod>, i: int) -> (k: int)
    requires
        0 <= i < v.len(),
        !v[i].is_override,
    ensures
        0 <= k < method_names(v, all).len(),
        method_names(v, all)[k] == "ov_"@ + sanitized(stub_name(v[i].class_name@, v[i].method.name@)),
    decreases v.len(),
{
    if i == v.len() - 1 {
        method_names(v.drop_last(), all).len() as int
    } else {
        lemma_method_is_named(v.drop_last(), all, i)
    }
}

} // verus!
