//! Where the fields of a struct stand, what its types are read as, and which
//! source is taken for a function.

use vstd::prelude::*;

use crate::constraints::TypeView;
use crate::inventory::{best_source, source_candidate, SourceNode};
use crate::ir_layout::{
    DefView, IrError, align_of, aligned, greatest_align, larger, lemma_aligned, lemma_same_align,
    packed_end, padded_end, resolved, resolved_fields, scalar_align, scalar_size, size_of,
    struct_size,
};
use crate::mangle::{capitalised, chosen};
use crate::text::{dec, is_upper};

verus! {

/// The size of field `k`.
pub open spec fn field_size(
    fields: Seq<Seq<char>>,
    k: int,
    defs: Seq<(Seq<char>, DefView)>,
    left: nat,
) -> nat {
    size_of(fields[k], defs, left)->Ok_0->0
}

/// Is this the first place from `from` on that suits the alignment?
pub open spec fn first_place(place: nat, from: nat, align: nat) -> bool {
    from <= place && (align > 0 ==> place % align == 0 && place < from + align) && (align == 0
        ==> place == from)
}

/// Do the fields from `i` on stand at these places: the first one at the first
/// suitable place from `offset` on, each further one at the first suitable
/// place behind the one before it, and nothing behind the last before `end`?
pub open spec fn laid_out(
    fields: Seq<Seq<char>>,
    places: Seq<nat>,
    i: int,
    offset: nat,
    end: nat,
    defs: Seq<(Seq<char>, DefView)>,
    left: nat,
) -> bool {
    &&& places.len() == fields.len()
    &&& forall|k: int|
        i <= k < fields.len() ==> {
            let from = if k == i {
                offset
            } else {
                places[k - 1] + field_size(fields, k - 1, defs, left)
            };
            &&& size_of(fields[k], defs, left) == Ok::<Option<nat>, IrError>(
                Some(field_size(fields, k, defs, left)),
            )
            &&& align_of(fields[k], defs, left) matches Ok(Some(a)) && first_place(
                #[trigger] places[k],
                from,
                a,
            )
        }
    &&& i == fields.len() ==> end == offset
    &&& i < fields.len() ==> end == places[fields.len() - 1] + field_size(
        fields,
        fields.len() - 1,
        defs,
        left,
    )
}

proof fn lemma_places(
    fields: Seq<Seq<char>>,
    i: int,
    offset: nat,
    align: nat,
    defs: Seq<(Seq<char>, DefView)>,
    left: nat,
) -> (r: Seq<nat>)
    requires
        0 <= i <= fields.len(),
        padded_end(fields, i, offset, align, defs, left) matches Ok(Some(_)),
    ensures
        padded_end(fields, i, offset, align, defs, left) matches Ok(Some((end, a))) && laid_out(
            fields,
            r,
            i,
            offset,
            end,
            defs,
            left,
        ),
    decreases fields.len() - i,
{
    if i == fields.len() {
        Seq::new(fields.len(), |k: int| 0nat)
    } else {
        let size = size_of(fields[i], defs, left)->Ok_0->0;
        let a = align_of(fields[i], defs, left)->Ok_0->0;
        let place = aligned(offset, a);
        let rest = lemma_places(fields, i + 1, place + size, larger(align, a), defs, left);
        let r = rest.update(i, place);
        lemma_first_place(offset, a);
        assert forall|k: int| i <= k < fields.len() implies {
            let from = if k == i {
                offset
            } else {
                r[k - 1] + field_size(fields, k - 1, defs, left)
            };
            &&& size_of(fields[k], defs, left) == Ok::<Option<nat>, IrError>(
                Some(field_size(fields, k, defs, left)),
            )
            &&& align_of(fields[k], defs, left) matches Ok(Some(b)) && first_place(
                #[trigger] r[k],
                from,
                b,
            )
        } by {
            if k > i {
                assert(r[k] == rest[k]);
                if k > i + 1 {
                    assert(r[k - 1] == rest[k - 1]);
                }
            }
        }
        r
    }
}

proof fn lemma_first_place(offset: nat, align: nat)
    ensures
        first_place(aligned(offset, align), offset, align),
{
    if align > 0 {
        lemma_aligned(offset, align);
        assert(offset % align < align);
    }
}

/// The fields of a struct that is not packed stand one behind the other, each
/// at the first place that suits its alignment, and the struct ends at the
/// first place behind them that suits all of them. Those of a packed one stand
/// without gaps.
pub proof fn law_fields_follow_one_another(
    def: DefView,
    defs: Seq<(Seq<char>, DefView)>,
    left: nat,
    size: nat,
)
    requires
        struct_size(def, defs, left) == Ok::<Option<nat>, IrError>(Some(size)),
    ensures
        !def.is_packed ==> exists|places: Seq<nat>, end: nat, align: nat|
            #![trigger laid_out(def.fields, places, 0, 0, end, defs, left), first_place(size, end, align)]
            laid_out(def.fields, places, 0, 0, end, defs, left) && first_place(size, end, align)
                && greatest_align(def.fields, 0, 1, defs, left) == Ok::<Option<nat>, IrError>(
                Some(align),
            ),
        def.is_packed ==> size == total_size(def.fields, 0, defs, left),
{
    if def.is_packed {
        lemma_total_size(def.fields, 0, 0, defs, left);
    } else {
        let (end, align) = padded_end(def.fields, 0, 0, 1, defs, left)->Ok_0->0;
        let places = lemma_places(def.fields, 0, 0, 1, defs, left);
        lemma_first_place(end, align);
        lemma_same_align(def.fields, 0, 0, 1, defs, left);
        assert(laid_out(def.fields, places, 0, 0, end, defs, left));
        assert(first_place(size, end, align));
    }
}

/// The sum of the sizes of the fields from `i` on.
pub open spec fn total_size(
    fields: Seq<Seq<char>>,
    i: int,
    defs: Seq<(Seq<char>, DefView)>,
    left: nat,
) -> nat
    decreases fields.len() - i,
{
    if i < 0 || i >= fields.len() {
        0
    } else {
        field_size(fields, i, defs, left) + total_size(fields, i + 1, defs, left)
    }
}

proof fn lemma_total_size(
    fields: Seq<Seq<char>>,
    i: int,
    offset: nat,
    defs: Seq<(Seq<char>, DefView)>,
    left: nat,
)
    requires
        0 <= i <= fields.len(),
        packed_end(fields, i, offset, defs, left) matches Ok(Some(_)),
    ensures
        packed_end(fields, i, offset, defs, left) == Ok::<Option<nat>, IrError>(
            Some(offset + total_size(fields, i, defs, left)),
        ),
    decreases fields.len() - i,
{
    if i < fields.len() {
        let size = size_of(fields[i], defs, left)->Ok_0->0;
        lemma_total_size(fields, i + 1, offset + size, defs, left);
    }
}

/// Every field of a struct is read in its place: it is named by its number and
/// has the type that its own text denotes.
pub proof fn law_every_field_is_read(
    fields: Seq<Seq<char>>,
    n: nat,
    defs: Seq<(Seq<char>, DefView)>,
    left: nat,
)
    requires
        n <= fields.len(),
        resolved_fields(fields, n, defs, left) is Ok,
    ensures
        resolved_fields(fields, n, defs, left)->Ok_0.len() == n,
        forall|i: int|
            0 <= i < n ==> {
                let f = #[trigger] resolved_fields(fields, n, defs, left)->Ok_0[i];
                f.0 == "field"@ + dec(i as nat) && resolved(fields[i], defs, left) == Ok::<
                    TypeView,
                    IrError,
                >(f.1)
            },
    decreases n,
{
    if n > 0 {
        law_every_field_is_read(fields, (n - 1) as nat, defs, left);
    }
}

/// An integer of whole bytes takes as many bytes as its bits make up.
pub proof fn law_integer_takes_its_bytes(bits: nat)
    requires
        bits == 8 || bits == 16 || bits == 32 || bits == 64 || bits == 128,
    ensures
        scalar_size("i"@ + dec(bits)) == Some((bits / 8) as nat),
        scalar_align("i"@ + dec(bits)) == Some((bits / 8) as nat),
{
    lemma_scalar_texts();
}

proof fn lemma_scalar_texts()
    ensures
        "i"@ + dec(8nat) == "i8"@ && "i"@ + dec(16nat) == "i16"@ && "i"@ + dec(32nat) == "i32"@ && "i"@ + dec(64nat) == "i64"@
            && "i"@ + dec(128nat) == "i128"@,
        "i8"@.len() == 2 && "i16"@.len() == 3 && "i32"@.len() == 3 && "i64"@.len() == 3
            && "i128"@.len() == 4 && "void"@.len() == 4 && "i1"@.len() == 2 && "float"@.len() == 5
            && "double"@.len() == 6 && "ptr"@.len() == 3,
        "i8"@[1] == '8' && "i1"@[1] == '1' && "i16"@[1] == '1' && "i32"@[1] == '3' && "i64"@[1]
            == '6',
        "i16"@[0] == 'i' && "i32"@[0] == 'i' && "i64"@[0] == 'i' && "i128"@[0] == 'i' && "ptr"@[0]
            == 'p' && "void"@[0] == 'v',
{
    reveal_strlit("i");
    reveal_strlit("i1");
    reveal_strlit("i8");
    reveal_strlit("i16");
    reveal_strlit("i32");
    reveal_strlit("i64");
    reveal_strlit("i128");
    reveal_strlit("void");
    reveal_strlit("float");
    reveal_strlit("double");
    reveal_strlit("ptr");
    reveal_with_fuel(dec, 4);
    assert(("i"@ + dec(8nat)) =~= "i8"@);
    assert(("i"@ + dec(16nat)) =~= "i16"@);
    assert(("i"@ + dec(32nat)) =~= "i32"@);
    assert(("i"@ + dec(64nat)) =~= "i64"@);
    assert(("i"@ + dec(128nat)) =~= "i128"@);
}

/// The source of a function is that of a node which declares it, and of no
/// node that fits better, nor of one that fits as well and stands before it.
pub proof fn law_best_source_wins(
    v: Seq<SourceNode>,
    n: nat,
    function: Seq<char>,
    mangled: Seq<char>,
)
    requires
        n <= v.len(),
    ensures
        best_source(v, n, function, mangled) is Some <==> exists|i: nat|
            i < n && #[trigger] source_candidate(v, i, function, mangled) is Some,
        best_source(v, n, function, mangled) matches Some(best) ==> {
            &&& exists|i: nat|
                i < n && #[trigger] source_candidate(v, i, function, mangled) == Some(best)
            &&& forall|i: nat|
                i < n ==> (#[trigger] source_candidate(v, i, function, mangled) matches Some(c)
                    ==> best.0 < c.0 || (best.0 == c.0 && best.1 <= c.1))
        },
    decreases n,
{
    if n > 0 {
        let m = (n - 1) as nat;
        law_best_source_wins(v, m, function, mangled);
        assert(m < n);
        let c = source_candidate(v, m, function, mangled);
        if best_source(v, m, function, mangled) is Some {
            let best = best_source(v, m, function, mangled)->0;
            let i: nat = choose|i: nat|
                i < m && #[trigger] source_candidate(v, i, function, mangled) == Some(best);
            assert(i < n && source_candidate(v, i, function, mangled) == Some(best));
        }
    }
}

/// The readable name of a symbol ends with the last part that says something,
/// and leaves out none that names a type.
pub proof fn law_readable_name_keeps_types_and_the_last_part(segs: Seq<Seq<char>>)
    requires
        segs.len() > 0,
    ensures
        chosen(segs).len() > 0,
        chosen(segs).last() == segs.last(),
        forall|i: int|
            0 <= i < segs.len() && (#[trigger] segs[i]).len() > 0 && is_upper(segs[i][0])
                ==> chosen(segs).contains(segs[i]),
        forall|i: int| 0 <= i < chosen(segs).len() ==> segs.contains(#[trigger] chosen(segs)[i]),
{
    let pred = |s: Seq<char>| s.len() > 0 && is_upper(s[0]);
    let upper = segs.filter(pred);
    assert(upper == capitalised(segs));
    assert(segs.contains(segs.last()));
    assert forall|i: int|
        0 <= i < segs.len() && (#[trigger] segs[i]).len() > 0 && is_upper(
            segs[i][0],
        ) implies chosen(segs).contains(segs[i]) by {
        segs.lemma_filter_contains(pred, i);
        let k: int = choose|k: int| 0 <= k < upper.len() && upper[k] == segs[i];
        assert(chosen(segs)[k] == segs[i]);
    }
    assert forall|i: int| 0 <= i < chosen(segs).len() implies segs.contains(
        #[trigger] chosen(segs)[i],
    ) by {
        if upper.len() > 0 {
            if i < upper.len() {
                segs.lemma_filter_contains_rev(pred, upper[i]);
            }
        } else if segs.len() >= 2 {
            assert(chosen(segs)[i] == segs[segs.len() - 2 + i]);
        }
    }
}

} // verus!
