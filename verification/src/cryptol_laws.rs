//! What the Cryptol predicates of types say.

use vstd::prelude::*;

use crate::constraints::{FunctionInfo, TypeView};
use crate::cryptol_emit::{
    contiguous, enum_body, law_value_set, noted_names, param_types_of, predicate_name,
    predicate_text, predicates, predicates_text, short_name, types_of, value_set, value_terms,
    variant_lines,
};
use crate::mangle::safe_chars;
use crate::text::{dec, dec_int, group_append, joined, lemma_mentions_inside, mentions, nil};
use crate::text_order::{
    in_order, lemma_in_order_ahead, lemma_in_order_behind, lemma_in_order_join, lemma_list_of_two,
    lemma_self_in_order,
};

verus! {

/// Has one of the variants the value?
pub open spec fn has_value(variants: Seq<(Seq<char>, i128)>, x: i128) -> bool {
    exists|k: int| 0 <= k < variants.len() && (#[trigger] variants[k]).1 == x
}

/// Are the values of the variants all the numbers from 0 to `max`?
pub open spec fn fill_up_to(variants: Seq<(Seq<char>, i128)>, max: i128) -> bool {
    &&& forall|k: int| 0 <= k < variants.len() ==> 0 <= (#[trigger] variants[k]).1 <= max
    &&& forall|x: i128| 0 <= x <= max ==> #[trigger] has_value(variants, x)
    &&& 0 <= max
}

/// Are these the values of the variants, each once and in ascending order?
pub open spec fn lists_values(variants: Seq<(Seq<char>, i128)>, s: Seq<i128>) -> bool {
    &&& forall|i: int, j: int| 0 <= i < j < s.len() ==> #[trigger] s[i] < #[trigger] s[j]
    &&& forall|x: i128| #[trigger]
        s.contains(x) <==> exists|k: int| 0 <= k < variants.len() && (#[trigger] variants[k]).1 == x
}

proof fn lemma_filled(variants: Seq<(Seq<char>, i128)>, max: i128, s: Seq<i128>, i: int)
    requires
        fill_up_to(variants, max),
        lists_values(variants, s),
        0 <= i < s.len(),
    ensures
        forall|j: int| 0 <= j <= i ==> #[trigger] s[j] == j,
    decreases i,
{
    assert(s.contains(s[i]));
    assert(0 <= s[i] <= max);
    if i > 0 {
        lemma_filled(variants, max, s, i - 1);
        assert(s[i - 1] < s[i]);
    }
    let x: i128 = i as i128;
    assert(0 <= x <= max);
    assert(has_value(variants, x));
    assert(s.contains(x));
    let j: int = choose|j: int| 0 <= j < s.len() && s[j] == x;
    if j < i {
        assert(s[j] == j);
    } else if i < j {
        assert(s[i] < s[j]);
    }
}

/// The predicate of an enumeration holds of its values: where they are all the
/// numbers from 0 to the greatest it compares with that one, and otherwise
/// with each of them.
pub proof fn law_enum_predicate_names_its_values(
    name: Seq<char>,
    variants: Seq<(Seq<char>, i128)>,
    bits: u32,
)
    requires
        variants.len() > 0,
    ensures
        ({
            let text = predicate_text(TypeView::Enum { name, variants, bits });
            let id = "valid_"@ + safe_chars(name) + "_disc"@;
            let b = bits as nat;
            &&& forall|max: i128| #[trigger]
                fill_up_to(variants, max) ==> in_order(
                    text,
                    seq![
                        id + " : ["@ + dec(b) + "] -> Bit\n"@,
                        (id + " x = "@) + ("x <= ("@ + dec_int(max as int) + " : ["@ + dec(b) + "])"@) + "\n"@,
                    ],
                )
            &&& (forall|max: i128| !#[trigger] fill_up_to(variants, max)) ==> exists|s: Seq<i128>| #[trigger]
                lists_values(variants, s) && {
                    let terms = Seq::new(
                        s.len(),
                        |i: int| "(x == ("@ + dec_int(s[i] as int) + " : ["@ + dec(b) + "]))"@,
                    );
                    in_order(
                        text,
                        seq![
                            id + " : ["@ + dec(b) + "] -> Bit\n"@,
                            (id + " x = "@) + joined(terms, " \\/ "@) + "\n"@,
                        ],
                    )
                }
        }),
{
    let ty = TypeView::Enum { name, variants, bits };
    let text = predicate_text(ty);
    let id = "valid_"@ + safe_chars(name) + "_disc"@;
    let b = bits as nat;
    let body = enum_body(variants, b);
    let s = value_set(variants);
    law_value_set(variants);
    assert(lists_values(variants, s));
    let head = "// Enum: "@ + name + " ("@ + dec(variants.len()) + " variants)\n"@
        + variant_lines(variants);
    let sig = id + " : ["@ + dec(b) + "] -> Bit\n"@;
    let def = (id + " x = "@) + body + "\n"@;
    assert(predicate_name(ty) == Some(id));
    assert(text == head + sig + def) by {
        broadcast use group_append;

    }
    lemma_self_in_order(sig);
    lemma_self_in_order(def);
    lemma_in_order_ahead(head, sig, seq![sig]);
    lemma_in_order_join(head + sig, seq![sig], def, seq![def]);
    lemma_list_of_two(sig, def);
    assert(in_order(text, seq![sig, def]));
    assert(s.contains(variants[0].1));
    assert forall|max: i128| #[trigger] fill_up_to(variants, max) implies in_order(
        text,
        seq![sig, (id + " x = "@) + ("x <= ("@ + dec_int(max as int) + " : ["@ + dec(b) + "])"@) + "\n"@],
    ) by {
        lemma_filled(variants, max, s, s.len() - 1);
        assert(contiguous(s));
        assert(has_value(variants, max));
        assert(s.contains(max));
        let j: int = choose|j: int| 0 <= j < s.len() && s[j] == max;
        assert(s.contains(s.last()));
        assert(s.last() <= max);
        if j < s.len() - 1 {
            assert(s[j] < s[s.len() - 1]);
        }
        assert(s.last() == max);
    }
    if forall|max: i128| !#[trigger] fill_up_to(variants, max) {
        if contiguous(s) {
            let max = s.last();
            assert forall|k: int| 0 <= k < variants.len() implies 0 <= (#[trigger] variants[k]).1
                <= max by {
                assert(s.contains(variants[k].1));
                let j: int = choose|j: int| 0 <= j < s.len() && s[j] == variants[k].1;
                assert(s[j] == j);
                assert(s[s.len() - 1] == s.len() - 1);
            }
            assert forall|x: i128| 0 <= x <= max implies #[trigger] has_value(variants, x) by {
                assert(s[s.len() - 1] == s.len() - 1);
                assert(s[x as int] == x);
                assert(s.contains(x));
            }
            assert(fill_up_to(variants, max));
        }
        let terms = Seq::new(s.len(), |i: int| "(x == ("@ + dec_int(s[i] as int) + " : ["@ + dec(b) + "]))"@);
        assert(value_terms(s, b) =~= terms);
        assert(def == (id + " x = "@) + joined(terms, " \\/ "@) + "\n"@);
    }
}

/// The predicates of truth values, of options and of results hold of 0 and 1.
/// A pointer has the predicate of what it points to.
pub proof fn law_two_valued_predicates(ok: TypeView, err: TypeView)
    ensures
        mentions(
            predicate_text(TypeView::Bool),
            "valid_bool : [1] -> Bit\n"@ + "valid_bool x = x <= 1\n"@,
        ),
        ({
            let id = "valid_option_"@ + safe_chars(short_name(ok)) + "_disc"@;
            mentions(
                predicate_text(TypeView::Option(Box::new(ok))),
                id + " : [8] -> Bit\n"@ + id + " x = x <= 1\n"@,
            )
        }),
        ({
            let id = "valid_result_"@ + safe_chars(short_name(ok)) + "_"@
                + safe_chars(short_name(err)) + "_disc"@;
            mentions(
                predicate_text(TypeView::Result(Box::new(ok), Box::new(err))),
                id + " : [8] -> Bit\n"@ + id + " x = x <= 1\n"@,
            )
        }),
        predicate_name(TypeView::Pointer(Box::new(ok))) == predicate_name(ok),
        predicate_text(TypeView::Pointer(Box::new(ok))) == predicate_text(ok),
{
    broadcast use group_append;

    reveal_with_fuel(predicate_text, 2);
    reveal_with_fuel(predicate_name, 2);
    let a = "// Boolean constraint\n"@;
    let b = "valid_bool : [1] -> Bit\n"@ + "valid_bool x = x <= 1\n"@;
    lemma_mentions_inside(a, b, nil());
    assert(predicate_text(TypeView::Bool) == a + b + nil());
    let id = "valid_option_"@ + safe_chars(short_name(ok)) + "_disc"@;
    let c = "// Option<"@ + short_name(ok) + ">\n"@;
    let d = id + " : [8] -> Bit\n"@ + id + " x = x <= 1\n"@;
    lemma_mentions_inside(c, d, nil());
    assert(predicate_text(TypeView::Option(Box::new(ok))) == c + d + nil());
    let id2 = "valid_result_"@ + safe_chars(short_name(ok)) + "_"@ + safe_chars(short_name(err))
        + "_disc"@;
    let e = "// Result<"@ + short_name(ok) + ", "@ + short_name(err) + ">\n"@;
    let f = id2 + " : [8] -> Bit\n"@ + id2 + " x = x <= 1\n"@;
    lemma_mentions_inside(e, f, nil());
    assert(predicate_text(TypeView::Result(Box::new(ok), Box::new(err))) == e + f + nil());
}

/// A noted name belongs to a predicate that is written.
proof fn lemma_noted_is_written(types: Seq<TypeView>, name: Seq<char>) -> (j: int)
    requires
        noted_names(types).contains(name),
    ensures
        0 <= j < types.len(),
        predicate_name(types[j]) == Some(name),
        in_order(predicates(types), seq![predicate_text(types[j])]),
    decreases types.len(),
{
    let rest = types.drop_last();
    let before = noted_names(rest);
    if types.len() == 0 {
        0
    } else if before.contains(name) {
        let j = lemma_noted_is_written(rest, name);
        let text = predicate_text(types[j]);
        if predicates(types) != predicates(rest) {
            lemma_in_order_behind(
                predicates(rest),
                predicate_text(types.last()) + "\n"@,
                seq![text],
            );
        }
        j
    } else {
        let text = predicate_text(types.last());
        assert(predicate_name(types.last()) == Some(name)) by {
            let k: int = choose|k: int| 0 <= k < noted_names(types).len() && noted_names(types)[k] == name;
            if k < before.len() {
                assert(before[k] == noted_names(types)[k]);
            }
        }
        lemma_self_in_order(text);
        lemma_in_order_behind(text, "\n"@, seq![text]);
        lemma_in_order_ahead(predicates(rest), text + "\n"@, seq![text]);
        types.len() - 1
    }
}

proof fn lemma_named_is_noted(types: Seq<TypeView>, i: int)
    requires
        0 <= i < types.len(),
        predicate_name(types[i]) is Some,
    ensures
        noted_names(types).contains(predicate_name(types[i])->0),
    decreases types.len(),
{
    let rest = types.drop_last();
    let name = predicate_name(types[i])->0;
    if i < types.len() - 1 {
        lemma_named_is_noted(rest, i);
        let k: int = choose|k: int| 0 <= k < noted_names(rest).len() && noted_names(rest)[k] == name;
        assert(noted_names(types)[k] == name);
    } else if !noted_names(rest).contains(name) {
        assert(noted_names(types).last() == name);
    }
}

/// The types of a function's parameters and result are among all.
proof fn lemma_type_is_listed(functions: Seq<FunctionInfo>, f: int, ty: TypeView)
    requires
        0 <= f < functions.len(),
        ty == functions[f].return_type@ || exists|k: int|
            0 <= k < functions[f].params@.len() && (#[trigger] functions[f].params@[k]).ty@ == ty,
    ensures
        types_of(functions).contains(ty),
    decreases functions.len(),
{
    let rest = types_of(functions.drop_last());
    let last = functions.last();
    let own = param_types_of(last.params@);
    let all = types_of(functions);
    assert(all == (rest + own).push(last.return_type@));
    if f < functions.len() - 1 {
        lemma_type_is_listed(functions.drop_last(), f, ty);
        let k: int = choose|k: int| 0 <= k < rest.len() && rest[k] == ty;
        assert(all[k] == ty);
    } else if ty == last.return_type@ {
        assert(all[all.len() - 1] == ty);
    } else {
        let k: int = choose|k: int|
            0 <= k < last.params@.len() && (#[trigger] last.params@[k]).ty@ == ty;
        assert(own[k] == ty);
        assert(all[rest.len() + k] == ty);
    }
}

/// Every type of a parameter or of a result that has a predicate has one of
/// its name in the module.
pub proof fn law_every_predicate_is_written(functions: Seq<FunctionInfo>, f: int, ty: TypeView)
    requires
        0 <= f < functions.len(),
        ty == functions[f].return_type@ || exists|k: int|
            0 <= k < functions[f].params@.len() && (#[trigger] functions[f].params@[k]).ty@ == ty,
        predicate_name(ty) is Some,
    ensures
        exists|other: TypeView|
            predicate_name(other) == predicate_name(ty) && in_order(
                predicates_text(functions),
                seq![#[trigger] predicate_text(other)],
            ),
{
    let types = types_of(functions);
    lemma_type_is_listed(functions, f, ty);
    let i: int = choose|i: int| 0 <= i < types.len() && types[i] == ty;
    lemma_named_is_noted(types, i);
    let j = lemma_noted_is_written(types, predicate_name(ty)->0);
    let text = predicate_text(types[j]);
    let head = "// Auto-generated Cryptol type constraints\n"@ + "module AutoConstraints where\n\n"@;
    lemma_in_order_ahead(head, predicates(types), seq![text]);
    assert(predicates_text(functions) == head + predicates(types));
}

} // verus!
