//! How the widths of a compiled function and of its model are adapted, as it
//! is written.

use vstd::prelude::*;

use crate::cryptol_bridge::{
    ByteField, Endianness, PackedField, PreservedRange, byte_fields, byte_fields_item,
    bytes_return, law_packing_order_is_complete, packed_parts, packing_order, packs,
    param_bridge_of, param_wrapped, preserved_ranges, preserved_ranges_item, remap_chain,
    remap_text, return_bridge_of, return_wraps, struct_return, term_fields,
};
use crate::text::{dec, group_append, joined, lemma_append_assoc, lemma_append_nothing, nil};
use crate::text_order::{
    in_order, lemma_in_order_ahead, lemma_in_order_behind, lemma_in_order_more, lemma_joined_has,
    lemma_self_in_order,
};

verus! {

/// What stands before and behind the text of one item.
pub proof fn lemma_byte_fields_splits(v: Seq<ByteField>, call: Seq<char>, i: int) -> (r: (Seq<char>, Seq<char>))
    requires
        0 <= i < v.len(),
    ensures
        byte_fields(v, call) == r.0 + byte_fields_item(v[i], call) + r.1,
    decreases v.len(),
{
    let last = byte_fields_item(v.last(), call);
    if i == v.len() - 1 {
        lemma_append_nothing(byte_fields(v.drop_last(), call) + last);
        (byte_fields(v.drop_last(), call), nil())
    } else {
        let r = lemma_byte_fields_splits(v.drop_last(), call, i);
        lemma_append_assoc(r.0 + byte_fields_item(v[i], call), r.1, last);
        (r.0, r.1 + last)
    }
}

/// What stands before and behind the text of one item.
pub proof fn lemma_preserved_ranges_splits(v: Seq<PreservedRange>, i: int) -> (r: (Seq<char>, Seq<char>))
    requires
        0 <= i < v.len(),
    ensures
        preserved_ranges(v) == r.0 + preserved_ranges_item(v[i]) + r.1,
    decreases v.len(),
{
    let last = preserved_ranges_item(v.last());
    if i == v.len() - 1 {
        lemma_append_nothing(preserved_ranges(v.drop_last()) + last);
        (preserved_ranges(v.drop_last()), nil())
    } else {
        let r = lemma_preserved_ranges_splits(v.drop_last(), i);
        lemma_append_assoc(r.0 + preserved_ranges_item(v[i]), r.1, last);
        (r.0, r.1 + last)
    }
}

/// A parameter reaches the model in the width that the model takes: where the
/// model is narrower as many leading bits as it lacks are dropped, where it is
/// wider zeros are added, and one bit is taken as a `Bit`.
pub proof fn law_parameter_is_adapted(llvm_bits: u32, cry_bits: u32, name: Seq<char>)
    ensures
        ({
            let r = param_wrapped(param_bridge_of(llvm_bits, cry_bits), name);
            if llvm_bits == 1 && cry_bits == 1 {
                r == "("@ + name + " ! 0)"@
            } else if llvm_bits == cry_bits {
                r == name
            } else if llvm_bits > cry_bits {
                r == "drop`{"@ + dec((llvm_bits - cry_bits) as nat) + "} "@ + name
            } else {
                r == "zext "@ + name
            }
        }),
{
}

/// The result leaves the model in the width that the compiled function has:
/// where that is narrower as many leading bits as it lacks are dropped, where
/// it is wider zeros are added up to it, and a `Bit` becomes one bit.
pub proof fn law_result_is_adapted(cry_bits: u32, llvm_bits: u32, expr: Seq<char>, r: Seq<char>)
    requires
        return_wraps(return_bridge_of(cry_bits, llvm_bits), expr, r),
    ensures
        if cry_bits == 1 && llvm_bits == 1 {
            r == "["@ + expr + "] : [1]"@
        } else if cry_bits == llvm_bits {
            r == expr
        } else if cry_bits > llvm_bits {
            r == "drop`{"@ + dec((cry_bits - llvm_bits) as nat) + "} ("@ + expr + ")"@
        } else {
            r == "zext`{"@ + dec(llvm_bits as nat) + "} ("@ + expr + ")"@
        },
{
}

/// Every field of a tuple that is packed into an integer stands in it, widened
/// to the whole integer and shifted to its own place.
pub proof fn law_every_field_is_packed(
    r: Seq<char>,
    expr: Seq<char>,
    fields: Seq<PackedField>,
    total_bits: u32,
    endian: Endianness,
    k: int,
)
    requires
        packs(r, expr, fields, total_bits as nat, endian),
        0 <= k < fields.len(),
    ensures
        in_order(
            r,
            seq![
                if fields[k].offset_bits == 0 {
                    "(zext`{"@ + dec(total_bits as nat) + "} ("@ + expr + ")."@
                        + dec(k as nat) + ")"@
                } else {
                    "((zext`{"@ + dec(total_bits as nat) + "} ("@ + expr + ")."@
                        + dec(k as nat) + ") << "@ + dec(fields[k].offset_bits as nat) + ")"@
                },
            ],
        ),
{
    let order = choose|order: Seq<int>| #[trigger]
        packing_order(order, fields, endian, fields.len() as int) && r == joined(
            packed_parts(expr, fields, total_bits as nat, order),
            " || "@,
        );
    law_packing_order_is_complete(order, fields, endian, k);
    let i: int = choose|i: int| 0 <= i < order.len() && order[i] == k;
    lemma_joined_has(packed_parts(expr, fields, total_bits as nat, order), " || "@, i);
}

/// A struct that is returned as a value has every component of the tuple in
/// its place, one bit as a vector of one.
pub proof fn law_every_component_is_returned(call: Seq<char>, bits: Seq<u32>)
    ensures
        ({
            let fields = Seq::new(
                bits.len(),
                |i: int|
                    if bits[i] == 1 {
                        "llvm_term {{ "@ + ("[("@ + call + ")."@ + dec(i as nat) + "] : [1]"@) + " }}"@
                    } else {
                        "llvm_term {{ "@ + ("("@ + call + ")."@ + dec(i as nat)) + " }}"@
                    },
            );
            struct_return(call, bits) == "    llvm_return (llvm_struct_value ["@ + joined(fields, ", "@) + "]);\n"@
        }),
{
    let fields = Seq::new(
        bits.len(),
        |i: int|
            if bits[i] == 1 {
                "llvm_term {{ "@ + ("[("@ + call + ")."@ + dec(i as nat) + "] : [1]"@) + " }}"@
            } else {
                "llvm_term {{ "@ + ("("@ + call + ")."@ + dec(i as nat)) + " }}"@
            },
    );
    assert(term_fields(call, bits) =~= fields);
}

/// A result buffer that is written as a whole holds the result. Where parts of
/// it are kept, every field holds its slice of the result at its own offset,
/// in as many bytes as its width takes, and every range that is kept holds
/// what the buffer held before.
pub proof fn law_result_buffer_is_stated(
    call: Seq<char>,
    fields: Seq<ByteField>,
    preserved: Seq<PreservedRange>,
)
    ensures
        preserved.len() == 0 ==> bytes_return(call, fields, preserved) == "    llvm_points_to result_ptr (llvm_term {{ "@ + call + " }});\n"@,
        preserved.len() > 0 ==> forall|k: int|
            0 <= k < fields.len() ==> {
                let at = (#[trigger] fields[k]).byte_offset as nat;
                let width = ((fields[k].width + 7) / 8) as nat;
                in_order(
                    bytes_return(call, fields, preserved),
                    seq![
                        "    llvm_points_to (llvm_elem result_ptr "@ + dec(at)
                            + ") (llvm_term {{ slice_field ("@ + call + ") "@ + dec(at) + " "@
                            + dec(width) + " }});\n"@,
                    ],
                )
            },
        forall|k: int|
            0 <= k < preserved.len() ==> in_order(
                bytes_return(call, fields, preserved),
                seq![
                    "    llvm_points_to_at_type (llvm_field result_ptr \""@
                        + dec((#[trigger] preserved[k]).start as nat) + "\") (llvm_array_type "@
                        + dec(preserved[k].len as nat)
                        + " (llvm_int 8)) (llvm_term preBytes);\n"@,
                ],
            ),
{
    let a = byte_fields(fields, call);
    let b = preserved_ranges(preserved);
    if preserved.len() > 0 {
        assert forall|k: int| 0 <= k < fields.len() implies {
            let at = (#[trigger] fields[k]).byte_offset as nat;
            let width = ((fields[k].width + 7) / 8) as nat;
            in_order(
                bytes_return(call, fields, preserved),
                seq![
                    "    llvm_points_to (llvm_elem result_ptr "@ + dec(at)
                        + ") (llvm_term {{ slice_field ("@ + call + ") "@ + dec(at) + " "@
                        + dec(width) + " }});\n"@,
                ],
            )
        } by {
            let item = byte_fields_item(fields[k], call);
            lemma_self_in_order(item);
            let s = lemma_byte_fields_splits(fields, call, k);
            lemma_in_order_more(s.0, item, s.1, seq![item]);
            lemma_in_order_behind(a, b, seq![item]);
        }
        assert forall|k: int| 0 <= k < preserved.len() implies in_order(
            bytes_return(call, fields, preserved),
            seq![
                "    llvm_points_to_at_type (llvm_field result_ptr \""@
                    + dec((#[trigger] preserved[k]).start as nat) + "\") (llvm_array_type "@
                    + dec(preserved[k].len as nat) + " (llvm_int 8)) (llvm_term preBytes);\n"@,
            ],
        ) by {
            let p = preserved[k];
            let note = "    // bytes ["@ + dec(p.start as nat) + ".."@ + dec((p.start + p.len) as nat)
                + ") preserved from prestate\n"@;
            let line = "    llvm_points_to_at_type (llvm_field result_ptr \""@ + dec(p.start as nat)
                + "\") (llvm_array_type "@ + dec(p.len as nat)
                + " (llvm_int 8)) (llvm_term preBytes);\n"@;
            lemma_self_in_order(line);
            lemma_in_order_ahead(note, line, seq![line]);
            assert(preserved_ranges_item(p) == note + line) by {
                broadcast use group_append;

            }
            let s = lemma_preserved_ranges_splits(preserved, k);
            lemma_in_order_more(s.0, preserved_ranges_item(p), s.1, seq![line]);
            lemma_in_order_ahead(a, b, seq![line]);
        }
    }
}

/// The chain of cases holds the case of each of the first variants.
proof fn lemma_case_in_chain(
    expr: Seq<char>,
    variants: Seq<(u64, u64)>,
    bits: nat,
    n: int,
    k: int,
)
    requires
        0 <= k < n <= variants.len(),
    ensures
        in_order(
            remap_chain(expr, variants, bits, n),
            seq![
                "if ("@ + expr + ") == ("@ + dec(variants[k].0 as nat) + " : ["@ + dec(bits)
                    + "]) then ("@ + dec(variants[k].1 as nat) + " : ["@ + dec(bits)
                    + "]) else ("@,
            ],
        ),
    decreases n,
{
    let v = variants[n - 1];
    let rest = remap_chain(expr, variants, bits, n - 1);
    let head = "if ("@ + expr + ") == ("@ + dec(v.0 as nat) + " : ["@ + dec(bits) + "]) then ("@
        + dec(v.1 as nat) + " : ["@ + dec(bits) + "]) else ("@;
    lemma_self_in_order(head);
    if k == n - 1 {
        lemma_in_order_behind(head, rest, seq![head]);
        lemma_in_order_behind(head + rest, ")"@, seq![head]);
    } else {
        lemma_case_in_chain(expr, variants, bits, n - 1, k);
        let case = "if ("@ + expr + ") == ("@ + dec(variants[k].0 as nat) + " : ["@ + dec(bits)
            + "]) then ("@ + dec(variants[k].1 as nat) + " : ["@ + dec(bits) + "]) else ("@;
        lemma_in_order_ahead(head, rest, seq![case]);
        lemma_in_order_behind(head + rest, ")"@, seq![case]);
    }
}

/// The discriminant of every variant but the last is mapped to that of the
/// compiled enumeration in a case of its own, and the last is what remains.
pub proof fn law_every_variant_is_mapped(
    expr: Seq<char>,
    variants: Seq<(u64, u64)>,
    bits: nat,
    k: int,
)
    requires
        0 <= k < variants.len() - 1,
    ensures
        in_order(
            remap_text(expr, variants, bits),
            seq![
                "if ("@ + expr + ") == ("@ + dec(variants[k].0 as nat) + " : ["@ + dec(bits)
                    + "]) then ("@ + dec(variants[k].1 as nat) + " : ["@ + dec(bits)
                    + "]) else ("@,
            ],
        ),
        in_order(
            remap_text(expr, variants, bits),
            seq![("("@ + dec(variants.last().1 as nat) + " : ["@ + dec(bits) + "])"@)],
        ),
{
    let last = "("@ + dec(variants.last().1 as nat) + " : ["@ + dec(bits) + "])"@;
    lemma_self_in_order(last);
    if variants.len() == 2 {
        let head = "if ("@ + expr + ") == ("@ + dec(variants[0].0 as nat) + " : ["@ + dec(bits)
            + "]) then ("@ + dec(variants[0].1 as nat) + " : ["@ + dec(bits) + "]) else ("@;
        let tail = dec(variants[1].1 as nat) + " : ["@ + dec(bits) + "])"@;
        lemma_self_in_order(head);
        lemma_in_order_behind(head, tail, seq![head]);
        lemma_remap_two(expr, variants, bits);
        let front = "if ("@ + expr + ") == ("@ + dec(variants[0].0 as nat) + " : ["@ + dec(bits)
            + "]) then ("@ + dec(variants[0].1 as nat) + " : ["@ + dec(bits) + "]) else "@;
        lemma_in_order_ahead(front, last, seq![last]);
    } else {
        lemma_case_in_chain(expr, variants, bits, variants.len() - 1, k);
        lemma_last_in_chain(expr, variants, bits, variants.len() - 1);
    }
}

proof fn lemma_last_in_chain(expr: Seq<char>, variants: Seq<(u64, u64)>, bits: nat, n: int)
    requires
        0 <= n <= variants.len(),
    ensures
        in_order(
            remap_chain(expr, variants, bits, n),
            seq![("("@ + dec(variants.last().1 as nat) + " : ["@ + dec(bits) + "])"@)],
        ),
    decreases n,
{
    let last = "("@ + dec(variants.last().1 as nat) + " : ["@ + dec(bits) + "])"@;
    lemma_self_in_order(last);
    if n > 0 {
        lemma_last_in_chain(expr, variants, bits, n - 1);
        let v = variants[n - 1];
        let rest = remap_chain(expr, variants, bits, n - 1);
        let head = "if ("@ + expr + ") == ("@ + dec(v.0 as nat) + " : ["@ + dec(bits) + "]) then ("@
            + dec(v.1 as nat) + " : ["@ + dec(bits) + "]) else ("@;
        lemma_in_order_ahead(head, rest, seq![last]);
        lemma_in_order_behind(head + rest, ")"@, seq![last]);
    }
}

proof fn lemma_remap_two(expr: Seq<char>, variants: Seq<(u64, u64)>, bits: nat)
    requires
        variants.len() == 2,
    ensures
        remap_text(expr, variants, bits) == ("if ("@ + expr + ") == ("@ + dec(variants[0].0 as nat) + " : ["@ + dec(bits)
            + "]) then ("@ + dec(variants[0].1 as nat) + " : ["@ + dec(bits) + "]) else ("@)
            + (dec(variants[1].1 as nat) + " : ["@ + dec(bits) + "])"@),
        remap_text(expr, variants, bits) == ("if ("@ + expr + ") == ("@ + dec(variants[0].0 as nat) + " : ["@ + dec(bits)
            + "]) then ("@ + dec(variants[0].1 as nat) + " : ["@ + dec(bits) + "]) else "@)
            + ("("@ + dec(variants[1].1 as nat) + " : ["@ + dec(bits) + "])"@),
{
    broadcast use group_append;

    reveal_strlit("(");
    reveal_strlit("]) else ");
    reveal_strlit("]) else (");
    assert("]) else "@ + "("@ =~= "]) else ("@);
}

} // verus!
