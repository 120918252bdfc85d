//! Cryptol predicates of the values that types admit.

use vstd::prelude::*;

use crate::constraints::{
    type_view, variants_view, EnumVariant, FunctionInfo, ParamInfo, TypeInfo, TypeView,
};
use crate::llvm_spec::GeneratedFile;
use crate::mangle::{safe_chars, sanitize_filename_chars};
use crate::text::{
    dec, dec_int, group_append, group_views, join, joined, lemma_append_assoc,
    lemma_append_nothing, list_has, nil, opt_string, owned, put, put2, put3, put4, put5, put_dec,
    put_int, views,
};

verus! {

/// The name of a type in the name of a predicate.
pub open spec fn short_name(ty: TypeView) -> Seq<char>
    decreases ty,
{
    match ty {
        TypeView::Bool => "bool"@,
        TypeView::SignedInt(bits) => "i"@ + dec(bits as nat),
        TypeView::UnsignedInt(bits) => "u"@ + dec(bits as nat),
        TypeView::Float(bits) => "f"@ + dec(bits as nat),
        TypeView::Struct { name, .. } => name,
        TypeView::Enum { name, .. } => name,
        TypeView::Opaque { name, .. } => name,
        TypeView::Void => "void"@,
        TypeView::ByteArray(n) => "bytes_"@ + dec(n as nat),
        TypeView::Pointer(inner) => "ptr_"@ + short_name(*inner),
        TypeView::Option(inner) => "opt_"@ + short_name(*inner),
        TypeView::Result(ok, err) => "res_"@ + short_name(*ok) + "_"@ + short_name(*err),
    }
}

pub fn type_short_name(ty: &TypeInfo) -> (r: String)
    ensures
        r@ == short_name(ty@),
    decreases ty,
{
    broadcast use {group_append, group_views};
    let mut r = String::new();
    match ty {
        TypeInfo::Bool => {
            put(&mut r, "bool");
        },
        TypeInfo::SignedInt(bits) => {
            put(&mut r, "i");
            put_dec(&mut r, *bits as u128);
        },
        TypeInfo::UnsignedInt(bits) => {
            put(&mut r, "u");
            put_dec(&mut r, *bits as u128);
        },
        TypeInfo::Float(bits) => {
            put(&mut r, "f");
            put_dec(&mut r, *bits as u128);
        },
        TypeInfo::Struct { name, .. } => {
            put(&mut r, name.as_str());
        },
        TypeInfo::Enum { name, .. } => {
            put(&mut r, name.as_str());
        },
        TypeInfo::Opaque { name, .. } => {
            put(&mut r, name.as_str());
        },
        TypeInfo::Void => {
            put(&mut r, "void");
        },
        TypeInfo::ByteArray(n) => {
            put(&mut r, "bytes_");
            put_dec(&mut r, *n as u128);
        },
        TypeInfo::Pointer(inner) => {
            let s = type_short_name(inner);
            put2(&mut r, "ptr_", s.as_str());
        },
        TypeInfo::Option(inner) => {
            let s = type_short_name(inner);
            put2(&mut r, "opt_", s.as_str());
        },
        TypeInfo::Result(ok, err) => {
            let s = type_short_name(ok);
            let t = type_short_name(err);
            put4(&mut r, "res_", s.as_str(), "_", t.as_str());
        },
    }
    r
}

/// The place of `v` in an ascending list, searched from `i` on.
pub open spec fn slot(s: Seq<i128>, v: i128, i: int) -> int
    decreases s.len() - i,
{
    if i < 0 || i >= s.len() || s[i] >= v {
        i
    } else {
        slot(s, v, i + 1)
    }
}

/// An ascending list with `v` in its place, where it is not there already.
pub open spec fn with_value(s: Seq<i128>, v: i128) -> Seq<i128> {
    let p = slot(s, v, 0);
    if p < s.len() && s[p] == v {
        s
    } else {
        s.insert(p, v)
    }
}

/// The values of the variants, ascending, each once.
pub open spec fn value_set(v: Seq<(Seq<char>, i128)>) -> Seq<i128>
    decreases v.len(),
{
    if v.len() == 0 {
        Seq::empty()
    } else {
        with_value(value_set(v.drop_last()), v.last().1)
    }
}

pub open spec fn ascending(s: Seq<i128>) -> bool {
    forall|i: int, j: int| 0 <= i < j < s.len() ==> #[trigger] s[i] < #[trigger] s[j]
}

proof fn lemma_slot(s: Seq<i128>, v: i128, i: int)
    requires
        0 <= i <= s.len(),
    ensures
        i <= slot(s, v, i) <= s.len(),
        forall|k: int| i <= k < slot(s, v, i) ==> s[k] < v,
        slot(s, v, i) < s.len() ==> s[slot(s, v, i)] >= v,
    decreases s.len() - i,
{
    if i < s.len() && s[i] < v {
        lemma_slot(s, v, i + 1);
    }
}

/// The values are listed in ascending order, and they are those of the
/// variants.
pub proof fn law_value_set(v: Seq<(Seq<char>, i128)>)
    ensures
        ascending(value_set(v)),
        forall|x: i128| #[trigger]
            value_set(v).contains(x) <==> exists|k: int|
                0 <= k < v.len() && (#[trigger] v[k]).1 == x,
    decreases v.len(),
{
    if v.len() > 0 {
        let u = v.drop_last();
        let x = v.last().1;
        let s = value_set(u);
        law_value_set(u);
        lemma_slot(s, x, 0);
        let p = slot(s, x, 0);
        let w = value_set(v);
        if !(p < s.len() && s[p] == x) {
            assert forall|i: int, j: int| 0 <= i < j < w.len() implies #[trigger] w[i]
                < #[trigger] w[j] by {
                let a = if i < p { i } else { i - 1 };
                let b = if j < p { j } else { j - 1 };
                if i != p && j != p {
                    assert(w[i] == s[a] && w[j] == s[b]);
                } else if i == p {
                    assert(w[j] == s[b]);
                    if b > p {
                        assert(s[p] < s[b]);
                    }
                } else {
                    assert(w[i] == s[a]);
                }
            }
        }
        assert forall|y: i128| #[trigger] w.contains(y) <==> exists|k: int|
            0 <= k < v.len() && (#[trigger] v[k]).1 == y by {
            if w.contains(y) {
                let i = choose|i: int| 0 <= i < w.len() && w[i] == y;
                if y == x {
                    assert(v[v.len() - 1].1 == y);
                } else {
                    if p < s.len() && s[p] == x {
                        assert(s[i] == y);
                    } else {
                        let a = if i < p { i } else { i - 1 };
                        assert(s[a] == y);
                    }
                    assert(s.contains(y));
                    let k = choose|k: int| 0 <= k < u.len() && (#[trigger] u[k]).1 == y;
                    assert(v[k].1 == y);
                }
            }
            if exists|k: int| 0 <= k < v.len() && (#[trigger] v[k]).1 == y {
                let k = choose|k: int| 0 <= k < v.len() && (#[trigger] v[k]).1 == y;
                if k < u.len() {
                    assert(u[k].1 == y);
                    assert(s.contains(y));
                    let i = choose|i: int| 0 <= i < s.len() && s[i] == y;
                    if p < s.len() && s[p] == x {
                        assert(w[i] == y);
                    } else {
                        assert(w[if i < p { i } else { i + 1 }] == y);
                    }
                } else if p < s.len() && s[p] == x {
                    assert(w[p] == y);
                } else {
                    assert(w[p] == y);
                }
            }
        }
    }
}

/// Are the values 0, 1, 2 and so on?
pub open spec fn contiguous(s: Seq<i128>) -> bool {
    forall|i: int| 0 <= i < s.len() ==> #[trigger] s[i] == i
}

/// One comparison for each value.
pub open spec fn value_terms(s: Seq<i128>, bits: nat) -> Seq<Seq<char>> {
    Seq::new(s.len(), |i: int| "(x == ("@ + dec_int(s[i] as int) + " : ["@ + dec(bits) + "]))"@)
}

/// Does `x` hold a value of the enumeration: not above the greatest one
/// where the values are contiguous, equal to one of them where they are
/// not?
pub open spec fn enum_body(variants: Seq<(Seq<char>, i128)>, bits: nat) -> Seq<char> {
    let s = value_set(variants);
    if variants.len() == 0 {
        "True"@
    } else if contiguous(s) {
        "x <= ("@ + dec_int(s.last() as int) + " : ["@ + dec(bits) + "])"@
    } else {
        joined(value_terms(s, bits), " \\/ "@)
    }
}

fn sorted_values(variants: &Vec<EnumVariant>) -> (s: Vec<i128>)
    ensures
        s@ == value_set(variants_view(variants@)),
{
    let ghost w = variants_view(variants@);
    let mut s: Vec<i128> = Vec::new();
    let mut i: usize = 0;
    assert(w.take(0) =~= Seq::empty());
    while i < variants.len()
        invariant
            w == variants_view(variants@),
            i <= variants@.len(),
            s@ == value_set(w.take(i as int)),
        decreases variants@.len() - i,
    {
        proof {
            assert(w.take(i + 1).drop_last() =~= w.take(i as int));
        }
        let v: i128 = variants[i].value;
        let mut p: usize = 0;
        while p < s.len() && s[p] < v
            invariant
                p <= s@.len(),
                slot(s@, v, 0) == slot(s@, v, p as int),
            decreases s@.len() - p,
        {
            p += 1;
        }
        if !(p < s.len() && s[p] == v) {
            s.insert(p, v);
        }
        i += 1;
    }
    assert(w.take(w.len() as int) =~= w);
    s
}

fn is_contiguous(s: &Vec<i128>) -> (r: bool)
    ensures
        r == contiguous(s@),
{
    let mut i: usize = 0;
    while i < s.len()
        invariant
            i <= s@.len(),
            forall|k: int| 0 <= k < i ==> #[trigger] s@[k] == k,
        decreases s@.len() - i,
    {
        if s[i] != i as i128 {
            return false;
        }
        i += 1;
    }
    true
}

proof fn lemma_some_value(v: Seq<(Seq<char>, i128)>)
    requires
        v.len() > 0,
    ensures
        value_set(v).len() > 0,
{
    law_value_set(v);
    assert(v[0].1 == v[0].1);
    assert(value_set(v).contains(v[0].1));
}

fn enum_predicate_body(variants: &Vec<EnumVariant>, discriminant_bits: u32) -> (r: String)
    ensures
        r@ == enum_body(variants_view(variants@), discriminant_bits as nat),
{
    broadcast use {group_append, group_views};
    let mut r = String::new();
    if variants.len() == 0 {
        put(&mut r, "True");
        return r;
    }
    proof {
        lemma_some_value(variants_view(variants@));
    }
    let s = sorted_values(variants);
    if is_contiguous(&s) {
        put(&mut r, "x <= (");
        put_int(&mut r, s[s.len() - 1]);
        put(&mut r, " : [");
        put_dec(&mut r, discriminant_bits as u128);
        put(&mut r, "])");
        return r;
    }
    let mut terms: Vec<String> = Vec::new();
    let mut i: usize = 0;
    while i < s.len()
        invariant
            i <= s@.len(),
            terms@.len() == i,
            forall|k: int|
                0 <= k < i ==> (#[trigger] terms@[k])@ == value_terms(
                    s@,
                    discriminant_bits as nat,
                )[k],
        decreases s@.len() - i,
    {
        let mut t = String::new();
        put(&mut t, "(x == (");
        put_int(&mut t, s[i]);
        put(&mut t, " : [");
        put_dec(&mut t, discriminant_bits as u128);
        put(&mut t, "]))");
        terms.push(t);
        i += 1;
    }
    assert(views(terms@) =~= value_terms(s@, discriminant_bits as nat));
    join(&terms, " \\/ ")
}

/// The name of the predicate of a type; `None` where a type has none.
pub open spec fn predicate_name(ty: TypeView) -> Option<Seq<char>>
    decreases ty,
{
    match ty {
        TypeView::Enum { name, .. } => Some("valid_"@ + safe_chars(name) + "_disc"@),
        TypeView::Option(inner) => Some("valid_option_"@ + safe_chars(short_name(*inner)) + "_disc"@),
        TypeView::Result(ok, err) => Some("valid_result_"@ + safe_chars(short_name(*ok)) + "_"@ + safe_chars(short_name(*err))
            + "_disc"@),
        TypeView::Bool => Some("valid_bool"@),
        TypeView::Pointer(inner) => predicate_name(*inner),
        _ => None,
    }
}

/// The comment lines that name the variants.
pub open spec fn variant_lines(v: Seq<(Seq<char>, i128)>) -> Seq<char>
    decreases v.len(),
{
    if v.len() == 0 {
        nil()
    } else {
        variant_lines(v.drop_last()) + ("//   "@ + dec_int(v.last().1 as int) + " = "@ + v.last().0 + "\n"@)
    }
}

fn put_variant_line(out: &mut String, v: &EnumVariant)
    ensures
        final(out)@ == old(out)@ + ("//   "@ + dec_int(v.value as int) + " = "@ + v.name@ + "\n"@),
{
    broadcast use {group_append, group_views};
    put(out, "//   ");
    put_int(out, v.value);
    put3(out, " = ", v.name.as_str(), "\n");
}

fn put_variant_lines(out: &mut String, v: &Vec<EnumVariant>)
    ensures
        final(out)@ == old(out)@ + variant_lines(variants_view(v@)),
{
    broadcast use lemma_append_nothing;

    let ghost w = variants_view(v@);
    let mut i: usize = 0;
    assert(variant_lines(w.take(0)) =~= nil());
    while i < v.len()
        invariant
            w == variants_view(v@),
            i <= v@.len(),
            out@ == old(out)@ + variant_lines(w.take(i as int)),
        decreases v@.len() - i,
    {
        proof {
            assert(w.take(i + 1).drop_last() =~= w.take(i as int));
            lemma_append_assoc(
                old(out)@,
                variant_lines(w.take(i as int)),
                "//   "@ + dec_int(w[i as int].1 as int) + " = "@ + w[i as int].0 + "\n"@,
            );
        }
        put_variant_line(out, &v[i]);
        i += 1;
    }
    assert(w.take(w.len() as int) =~= w);
}

/// The predicate of a type.
pub open spec fn predicate_text(ty: TypeView) -> Seq<char>
    decreases ty,
{
    let name = predicate_name(ty)->0;
    match ty {
        TypeView::Enum { name: enum_name, variants, bits } => "// Enum: "@ + enum_name + " ("@ + dec(variants.len()) + " variants)\n"@
            + variant_lines(variants) + name + " : ["@ + dec(bits as nat) + "] -> Bit\n"@ + name
            + " x = "@ + enum_body(variants, bits as nat) + "\n"@,
        TypeView::Option(inner) => "// Option<"@ + short_name(*inner) + ">\n"@ + name + " : [8] -> Bit\n"@ + name
            + " x = x <= 1\n"@,
        TypeView::Result(ok, err) => "// Result<"@ + short_name(*ok) + ", "@ + short_name(*err) + ">\n"@ + name
            + " : [8] -> Bit\n"@ + name + " x = x <= 1\n"@,
        TypeView::Bool => "// Boolean constraint\n"@ + "valid_bool : [1] -> Bit\n"@ + "valid_bool x = x <= 1\n"@,
        TypeView::Pointer(inner) => predicate_text(*inner),
        _ => nil(),
    }
}

/// Is the name new? Then it is noted.
fn note(emitted: &mut Vec<String>, name: &str) -> (fresh: bool)
    ensures
        fresh == !views(old(emitted)@).contains(name@),
        views(final(emitted)@) == if fresh {
            views(old(emitted)@).push(name@)
        } else {
            views(old(emitted)@)
        },
{
    if list_has(emitted, name) {
        false
    } else {
        emitted.push(owned(name));
        true
    }
}

/// The predicate of a type, where it has one whose name is not noted yet;
/// the name is then noted.
pub fn generate_type_predicate(ty: &TypeInfo, emitted: &mut Vec<String>) -> (r: Option<String>)
    ensures
        match predicate_name(ty@) {
            Some(name) => if views(old(emitted)@).contains(name) {
                r is None && views(final(emitted)@) == views(old(emitted)@)
            } else {
                opt_string(r) == Some(predicate_text(ty@)) && views(final(emitted)@) == views(
                    old(emitted)@,
                ).push(name)
            },
            None => r is None && views(final(emitted)@) == views(old(emitted)@),
        },
    decreases ty,
{
    let mut out = String::new();
    let mut fn_name = String::new();
    match ty {
        TypeInfo::Enum { name, variants, discriminant_bits } => {
            let safe = sanitize_filename_chars(name.as_str());
            put3(&mut fn_name, "valid_", safe.as_str(), "_disc");
            let f = fn_name.as_str();
            if !note(emitted, f) {
                return None;
            }
            let body = enum_predicate_body(variants, *discriminant_bits);
            put3(&mut out, "// Enum: ", name.as_str(), " (");
            put_dec(&mut out, variants.len() as u128);
            put(&mut out, " variants)\n");
            put_variant_lines(&mut out, variants);
            put2(&mut out, f, " : [");
            put_dec(&mut out, *discriminant_bits as u128);
            put(&mut out, "] -> Bit\n");
            put4(&mut out, f, " x = ", body.as_str(), "\n");
            Some(out)
        },
        TypeInfo::Option(inner) => {
            let inner_name = type_short_name(inner);
            let safe = sanitize_filename_chars(inner_name.as_str());
            put3(&mut fn_name, "valid_option_", safe.as_str(), "_disc");
            let f = fn_name.as_str();
            if !note(emitted, f) {
                return None;
            }
            put3(&mut out, "// Option<", inner_name.as_str(), ">\n");
            put2(&mut out, f, " : [8] -> Bit\n");
            put2(&mut out, f, " x = x <= 1\n");
            Some(out)
        },
        TypeInfo::Result(ok, err) => {
            let ok_name = type_short_name(ok);
            let err_name = type_short_name(err);
            let safe_ok = sanitize_filename_chars(ok_name.as_str());
            let safe_err = sanitize_filename_chars(err_name.as_str());
            put5(&mut fn_name, "valid_result_", safe_ok.as_str(), "_", safe_err.as_str(), "_disc");
            let f = fn_name.as_str();
            if !note(emitted, f) {
                return None;
            }
            put5(&mut out, "// Result<", ok_name.as_str(), ", ", err_name.as_str(), ">\n");
            put2(&mut out, f, " : [8] -> Bit\n");
            put2(&mut out, f, " x = x <= 1\n");
            Some(out)
        },
        TypeInfo::Bool => {
            if !note(emitted, "valid_bool") {
                return None;
            }
            put(&mut out, "// Boolean constraint\n");
            put(&mut out, "valid_bool : [1] -> Bit\n");
            put(&mut out, "valid_bool x = x <= 1\n");
            Some(out)
        },
        TypeInfo::Pointer(inner) => generate_type_predicate(inner, emitted),
        _ => None,
    }
}

/// The types of the parameters.
pub open spec fn param_types_of(params: Seq<ParamInfo>) -> Seq<TypeView> {
    Seq::new(params.len(), |i: int| params[i].ty@)
}

/// The types of the parameters and of the result of each function.
pub open spec fn types_of(functions: Seq<FunctionInfo>) -> Seq<TypeView>
    decreases functions.len(),
{
    if functions.len() == 0 {
        Seq::empty()
    } else {
        let f = functions.last();
        (types_of(functions.drop_last()) + param_types_of(f.params@)).push(f.return_type@)
    }
}

/// The names of the predicates of the types, each once.
pub open spec fn noted_names(types: Seq<TypeView>) -> Seq<Seq<char>>
    decreases types.len(),
{
    if types.len() == 0 {
        Seq::empty()
    } else {
        let before = noted_names(types.drop_last());
        match predicate_name(types.last()) {
            Some(name) => if before.contains(name) {
                before
            } else {
                before.push(name)
            },
            None => before,
        }
    }
}

/// The predicates of the types, each name once.
pub open spec fn predicates(types: Seq<TypeView>) -> Seq<char>
    decreases types.len(),
{
    if types.len() == 0 {
        nil()
    } else {
        let before = predicates(types.drop_last());
        match predicate_name(types.last()) {
            Some(name) => if noted_names(types.drop_last()).contains(name) {
                before
            } else {
                before + (predicate_text(types.last()) + "\n"@)
            },
            None => before,
        }
    }
}

/// The module of Cryptol predicates.
pub open spec fn predicates_text(functions: Seq<FunctionInfo>) -> Seq<char> {
    "// Auto-generated Cryptol type constraints\n"@ + "module AutoConstraints where\n\n"@
        + predicates(types_of(functions))
}

fn put_predicate(
    out: &mut String,
    emitted: &mut Vec<String>,
    ty: &TypeInfo,
    Ghost(head): Ghost<Seq<char>>,
    Ghost(types): Ghost<Seq<TypeView>>,
)
    requires
        old(out)@ == head + predicates(types),
        views(old(emitted)@) == noted_names(types),
    ensures
        final(out)@ == head + predicates(types.push(ty@)),
        views(final(emitted)@) == noted_names(types.push(ty@)),
{
    broadcast use {group_append, group_views};
    proof {
        assert(types.push(ty@).drop_last() =~= types);
    }
    if let Some(text) = generate_type_predicate(ty, emitted) {
        put2(out, text.as_str(), "\n");
    }
}

/// The module of Cryptol predicates of the types that occur in the
/// functions' signatures.
pub fn generate_cryptol_predicates(functions: &[FunctionInfo]) -> (r: String)
    ensures
        r@ == predicates_text(functions@),
{
    broadcast use {group_append, group_views};
    let mut out = String::new();
    let mut emitted: Vec<String> = Vec::new();
    put(&mut out, "// Auto-generated Cryptol type constraints\n");
    put(&mut out, "module AutoConstraints where\n\n");
    let ghost head = out@;
    let mut i: usize = 0;
    proof {
        assert(functions@.take(0) =~= Seq::empty());
        assert(views(emitted@) =~= Seq::<Seq<char>>::empty());
    }
    while i < functions.len()
        invariant
            i <= functions@.len(),
            out@ == head + predicates(types_of(functions@.take(i as int))),
            views(emitted@) == noted_names(types_of(functions@.take(i as int))),
        decreases functions@.len() - i,
    {
        let f = &functions[i];
        let ghost base = types_of(functions@.take(i as int));
        let ghost tys = param_types_of(f.params@);
        let mut k: usize = 0;
        assert(base + tys.take(0) =~= base);
        while k < f.params.len()
            invariant
                tys == param_types_of(f.params@),
                k <= f.params@.len(),
                out@ == head + predicates(base + tys.take(k as int)),
                views(emitted@) == noted_names(base + tys.take(k as int)),
            decreases f.params@.len() - k,
        {
            put_predicate(
                &mut out,
                &mut emitted,
                &f.params[k].ty,
                Ghost(head),
                Ghost(base + tys.take(k as int)),
            );
            assert((base + tys.take(k as int)).push(tys[k as int]) =~= base + tys.take(k + 1));
            k += 1;
        }
        assert(tys.take(tys.len() as int) =~= tys);
        put_predicate(&mut out, &mut emitted, &f.return_type, Ghost(head), Ghost(base + tys));
        proof {
            assert(functions@.take(i + 1).drop_last() =~= functions@.take(i as int));
        }
        i += 1;
    }
    assert(functions@.take(functions@.len() as int) =~= functions@);
    out
}

/// The file with the module of Cryptol predicates.
pub fn emit_cryptol_constraints(functions: &[FunctionInfo]) -> (r: GeneratedFile)
    ensures
        r@ == ("auto_constraints.cry"@, predicates_text(functions@)),
{
    GeneratedFile {
        name: owned("auto_constraints.cry"),
        content: generate_cryptol_predicates(functions),
    }
}

/// No name is given to two predicates.
pub proof fn law_predicates_are_distinct(types: Seq<TypeView>)
    ensures
        noted_names(types).no_duplicates(),
    decreases types.len(),
{
    if types.len() > 0 {
        law_predicates_are_distinct(types.drop_last());
    }
}

} // verus!
