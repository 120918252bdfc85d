//! How functions are read: every parameter is kept in its place, with its own
//! type.

use vstd::prelude::*;

use crate::constraints::{
    AnnotationView, Mutability, Nullability, ParamView, SpecConstraint, TypeView,
};
use crate::gen_verify::chosen_spec;
use crate::gen_verify_rust::{ArtifactsView, meta_json};
use crate::gen_verify_rust_classify::ReturnView;
use crate::ir_layout::{DefView, IrError, resolved};
use crate::json::{JsonView, member, member_text};
use crate::llvm_ir::{
    WordsView, holds_result, list_params, numbered, param_of, params_of, result_param,
    signature_of, word_annotations, word_read, words_param,
};
use crate::mir_json::{mir_params, pointee_name, rust_type, simple_type, variants_in};
use crate::text::{dec, mentions, starts, trim_text, words};

verus! {

/// A reference is a pointer that is never null and a raw pointer one that may
/// be; each is to the type that stands second between its brackets.
pub proof fn law_references_are_pointers(ty: Seq<char>, adts: Seq<(Seq<char>, TypeView)>)
    requires
        starts(ty, "ty::Ref"@) || mentions(ty, "RawPtr"@),
    ensures
        rust_type(ty, adts).0 is Pointer,
        rust_type(ty, adts).1 is NonNull <==> starts(ty, "ty::Ref"@),
        pointee_name(ty) matches Some(n) ==> rust_type(ty, adts).0 == TypeView::Pointer(
            Box::new(rust_type(n, adts).0),
        ),
{
}

/// An integer type is read at the width and with the sign that its name says.
pub proof fn law_integers_are_read_at_their_width(bits: nat)
    requires
        bits == 8 || bits == 16 || bits == 32 || bits == 64,
    ensures
        simple_type("u"@ + dec(bits)) == Some(TypeView::UnsignedInt(bits as u32)),
        simple_type("i"@ + dec(bits)) == Some(TypeView::SignedInt(bits as u32)),
{
    lemma_number_names();
    lemma_letters();
    lemma_short_names("u"@ + dec(bits));
    lemma_short_names("i"@ + dec(bits));
}

proof fn lemma_number_names()
    ensures
        "u"@ + dec(8nat) == "u8"@,
        "u"@ + dec(16nat) == "u16"@,
        "u"@ + dec(32nat) == "u32"@,
        "u"@ + dec(64nat) == "u64"@,
        "i"@ + dec(8nat) == "i8"@,
        "i"@ + dec(16nat) == "i16"@,
        "i"@ + dec(32nat) == "i32"@,
        "i"@ + dec(64nat) == "i64"@,
{
    reveal_strlit("u");
    reveal_strlit("i");
    reveal_strlit("u8");
    reveal_strlit("u16");
    reveal_strlit("u32");
    reveal_strlit("u64");
    reveal_strlit("i8");
    reveal_strlit("i16");
    reveal_strlit("i32");
    reveal_strlit("i64");
    reveal_with_fuel(dec, 3);
    assert(("u"@ + dec(8nat)) =~= "u8"@);
    assert(("u"@ + dec(16nat)) =~= "u16"@);
    assert(("u"@ + dec(32nat)) =~= "u32"@);
    assert(("u"@ + dec(64nat)) =~= "u64"@);
    assert(("i"@ + dec(8nat)) =~= "i8"@);
    assert(("i"@ + dec(16nat)) =~= "i16"@);
    assert(("i"@ + dec(32nat)) =~= "i32"@);
    assert(("i"@ + dec(64nat)) =~= "i64"@);
}

/// A text of at most three letters is none of the longer names.
proof fn lemma_short_names(s: Seq<char>)
    requires
        s.len() <= 3,
    ensures
        s != "bool"@ && s != "ty::Bool"@ && s != "ty::Uint::U8"@ && s != "ty::Uint::U16"@,
        s != "ty::Uint::U32"@ && s != "ty::Uint::U64"@ && s != "ty::Uint::Usize"@ && s != "usize"@,
        s != "ty::Int::I8"@ && s != "ty::Int::I16"@ && s != "ty::Int::I32"@ && s != "ty::Int::I64"@,
        s != "ty::Int::Isize"@ && s != "isize"@,
{
    reveal_strlit("bool");
    reveal_strlit("ty::Bool");
    reveal_strlit("ty::Uint::U8");
    reveal_strlit("ty::Uint::U16");
    reveal_strlit("ty::Uint::U32");
    reveal_strlit("ty::Uint::U64");
    reveal_strlit("ty::Uint::Usize");
    reveal_strlit("ty::Int::I8");
    reveal_strlit("ty::Int::I16");
    reveal_strlit("ty::Int::I32");
    reveal_strlit("ty::Int::I64");
    reveal_strlit("ty::Int::Isize");
    reveal_strlit("usize");
    reveal_strlit("isize");
    assert("bool"@.len() == 4 && "usize"@.len() == 5 && "isize"@.len() == 5);
    assert("ty::Bool"@.len() == 8 && "ty::Uint::U8"@.len() == 12 && "ty::Uint::U16"@.len() == 13);
    assert("ty::Uint::U32"@.len() == 13 && "ty::Uint::U64"@.len() == 13);
    assert("ty::Uint::Usize"@.len() == 15 && "ty::Int::Isize"@.len() == 14);
    assert("ty::Int::I8"@.len() == 11 && "ty::Int::I16"@.len() == 12);
    assert("ty::Int::I32"@.len() == 12 && "ty::Int::I64"@.len() == 12);
}

/// The letters of the short names.
proof fn lemma_letters()
    ensures
        "u8"@.len() == 2 && "i8"@.len() == 2 && "u16"@.len() == 3 && "i16"@.len() == 3,
        "u32"@.len() == 3 && "i32"@.len() == 3 && "u64"@.len() == 3 && "i64"@.len() == 3,
        "u8"@[0] == 'u' && "u16"@[0] == 'u' && "u32"@[0] == 'u' && "u64"@[0] == 'u',
        "i8"@[0] == 'i' && "i16"@[0] == 'i' && "i32"@[0] == 'i' && "i64"@[0] == 'i',
        "u16"@[1] == '1' && "u32"@[1] == '3' && "u64"@[1] == '6',
        "i16"@[1] == '1' && "i32"@[1] == '3' && "i64"@[1] == '6',
{
    reveal_strlit("u8");
    reveal_strlit("u16");
    reveal_strlit("u32");
    reveal_strlit("u64");
    reveal_strlit("i8");
    reveal_strlit("i16");
    reveal_strlit("i32");
    reveal_strlit("i64");
}

/// The variants of an enumeration are numbered in their order.
pub proof fn law_variants_are_numbered(v: Seq<JsonView>, n: nat)
    requires
        n <= v.len(),
        n <= i128::MAX,
    ensures
        variants_in(v, n).len() <= n,
        forall|i: int|
            0 <= i < variants_in(v, n).len() ==> (#[trigger] variants_in(v, n)[i]).1 == i,
    decreases n,
{
    if n > 0 {
        law_variants_are_numbered(v, (n - 1) as nat);
    }
}

/// Where every argument has a name and a type, there is one parameter for each
/// argument, in the same place and with its own name and type; it may be
/// changed exactly where the argument is marked so.
pub proof fn law_every_argument_is_a_parameter(
    v: Seq<JsonView>,
    n: nat,
    adts: Seq<(Seq<char>, TypeView)>,
)
    requires
        n <= v.len(),
        forall|i: int|
            0 <= i < n ==> member_text(#[trigger] v[i], "name"@) is Some && member_text(
                v[i],
                "ty"@,
            ) is Some,
    ensures
        mir_params(v, n, adts).len() == n,
        forall|i: int|
            0 <= i < n ==> {
                let p = #[trigger] mir_params(v, n, adts)[i];
                &&& Some(p.name) == member_text(v[i], "name"@)
                &&& p.ty == rust_type(member_text(v[i], "ty"@)->0, adts).0
                &&& p.nullable == rust_type(member_text(v[i], "ty"@)->0, adts).1
                &&& p.mutability is Mutable <==> (member(v[i], "mut"@) matches Some(m)
                    && member_text(m, "kind"@) == Some("Mut"@))
                &&& p.mutability is Mutable || p.mutability is Readonly
            },
    decreases n,
{
    if n > 0 {
        law_every_argument_is_a_parameter(v, (n - 1) as nat, adts);
    }
}

/// The description of the verified function gives its symbol, its Cryptol
/// function, the width of its result, and for every parameter in its place the
/// name and the width.
pub proof fn law_description_names_every_parameter(
    function: Seq<char>,
    cryptol_fn: Seq<char>,
    a: ArtifactsView,
)
    ensures
        meta_json(function, cryptol_fn, a) is Object,
        ({
            let m = meta_json(function, cryptol_fn, a)->Object_0;
            &&& m["function"@] == JsonView::Text(function)
            &&& m["cryptol_fn"@] == JsonView::Text(cryptol_fn)
            &&& m["mangled_name"@] == JsonView::Text(a.mangled_name)
            &&& m["return_llvm_type"@] == JsonView::Text(a.return_llvm_type)
            &&& m["params"@] matches JsonView::Array(ps) && ps.len() == a.params.len()
                && forall|i: int|
                0 <= i < ps.len() ==> (#[trigger] ps[i] matches JsonView::Object(p) && p["name"@]
                    == JsonView::Text(a.params[i].name) && p["bits"@] == JsonView::Unsigned(
                    a.params[i].bits as u64,
                ) && p["index"@] == JsonView::Unsigned(a.params[i].index as u64) && p["llvm_type"@]
                    == JsonView::Text(a.params[i].llvm_type))
            &&& m["globals"@] matches JsonView::Array(gs) && gs.len() == a.globals.len()
                && forall|i: int|
                0 <= i < gs.len() ==> #[trigger] gs[i] == JsonView::Text(a.globals[i])
            &&& (a.return_kind matches ReturnView::Scalar { bits } ==> m["return_bits"@]
                == JsonView::Unsigned(bits as u64))
            &&& (!(a.return_kind is Scalar) ==> m["return_bits"@] == JsonView::Null)
        }),
{
    lemma_keys_differ();
}

proof fn lemma_keys_differ()
    ensures
        "function"@ != "cryptol_fn"@ && "function"@ != "mangled_name"@ && "function"@ != "params"@
            && "function"@ != "return_bits"@ && "function"@ != "return_llvm_type"@ && "function"@
            != "globals"@,
        "cryptol_fn"@ != "mangled_name"@ && "cryptol_fn"@ != "params"@ && "cryptol_fn"@
            != "return_bits"@ && "cryptol_fn"@ != "return_llvm_type"@ && "cryptol_fn"@
            != "globals"@,
        "mangled_name"@ != "params"@ && "mangled_name"@ != "return_bits"@ && "mangled_name"@
            != "return_llvm_type"@ && "mangled_name"@ != "globals"@,
        "params"@ != "return_bits"@ && "params"@ != "return_llvm_type"@ && "params"@
            != "globals"@,
        "return_bits"@ != "return_llvm_type"@ && "return_bits"@ != "globals"@,
        "return_llvm_type"@ != "globals"@,
        "index"@ != "name"@ && "index"@ != "bits"@ && "index"@ != "llvm_type"@,
        "name"@ != "bits"@ && "name"@ != "llvm_type"@ && "bits"@ != "llvm_type"@,
{
    reveal_strlit("function");
    reveal_strlit("cryptol_fn");
    reveal_strlit("mangled_name");
    reveal_strlit("params");
    reveal_strlit("return_bits");
    reveal_strlit("return_llvm_type");
    reveal_strlit("globals");
    reveal_strlit("index");
    reveal_strlit("name");
    reveal_strlit("bits");
    reveal_strlit("llvm_type");
    assert("function"@.len() == 8 && "cryptol_fn"@.len() == 10 && "mangled_name"@.len() == 12);
    assert("params"@.len() == 6 && "return_bits"@.len() == 11 && "return_llvm_type"@.len() == 16);
    assert("globals"@.len() == 7 && "index"@.len() == 5 && "llvm_type"@.len() == 9);
    assert("name"@.len() == 4 && "bits"@.len() == 4);
    assert("name"@[0] == 'n' && "bits"@[0] == 'b');
}

/// What the words say of a parameter: one that is written only, or holds the
/// result, is write-only, and a pointer may be changed unless it is said to be
/// read-only. Only a pointer of which nothing says otherwise may be null.
pub proof fn law_attributes_decide_access(w: WordsView, inner: TypeView)
    ensures
        ({
            let p = words_param(w, inner);
            let pointer = mentions(w.type_str, "*"@) || w.type_str == "ptr"@;
            &&& p.name == w.name
            &&& pointer ==> p.ty == TypeView::Pointer(Box::new(inner))
            &&& !pointer ==> p.ty == inner
            &&& p.mutability is WriteOnly <==> w.is_writeonly || w.is_sret
            &&& p.mutability is Mutable <==> pointer && !w.is_readonly && !w.is_writeonly
                && !w.is_sret
            &&& p.nullable is Nullable <==> pointer && !w.is_nonnull && !w.is_sret
            &&& p.annotations.contains(AnnotationView::NoAlias) <==> w.is_noalias
            &&& p.annotations.contains(AnnotationView::NoCapture) <==> w.is_nocapture
            &&& forall|n: usize| #[trigger]
                p.annotations.contains(AnnotationView::Dereferenceable(n)) <==> w.deref_size
                    == Some(n)
            &&& p.annotations.contains(AnnotationView::Custom("sret"@)) <==> w.is_sret
        }),
{
    let a = if w.is_noalias {
        seq![AnnotationView::NoAlias]
    } else {
        Seq::<AnnotationView>::empty()
    };
    let b = if w.is_nocapture {
        a.push(AnnotationView::NoCapture)
    } else {
        a
    };
    let c = match w.deref_size {
        Some(n) => b.push(AnnotationView::Dereferenceable(n)),
        None => b,
    };
    let d = word_annotations(w);
    assert(w.is_noalias ==> a[0] == AnnotationView::NoAlias);
    assert(w.is_noalias ==> b[0] == AnnotationView::NoAlias && c[0] == AnnotationView::NoAlias
        && d[0] == AnnotationView::NoAlias);
    assert(w.is_nocapture ==> b.last() == AnnotationView::NoCapture && c[b.len() - 1]
        == AnnotationView::NoCapture && d[b.len() - 1] == AnnotationView::NoCapture);
    assert(w.deref_size matches Some(n) ==> c.last() == AnnotationView::Dereferenceable(n)
        && d[c.len() - 1] == AnnotationView::Dereferenceable(n));
    assert(w.is_sret ==> d.last() == AnnotationView::Custom("sret"@));
}

/// One attribute changes what it says and nothing else, wherever it stands
/// outside the values of a range.
pub proof fn law_attribute_is_noted(s: WordsView)
    requires
        !s.in_range,
    ensures
        word_read(s, "readonly"@) == (WordsView { is_readonly: true, ..s }),
        word_read(s, "writeonly"@) == (WordsView { is_writeonly: true, ..s }),
        word_read(s, "noalias"@) == (WordsView { is_noalias: true, ..s }),
        word_read(s, "nocapture"@) == (WordsView { is_nocapture: true, ..s }),
        word_read(s, "nonnull"@) == (WordsView { is_nonnull: true, ..s }),
{
    lemma_attribute_words();
}

proof fn lemma_attribute_words()
    ensures
        !starts("readonly"@, "range("@),
        !starts("writeonly"@, "range("@),
        !starts("noalias"@, "range("@),
        !starts("nocapture"@, "range("@),
        !starts("nonnull"@, "range("@),
        "writeonly"@ != "readonly"@,
        "noalias"@ != "readonly"@ && "noalias"@ != "writeonly"@,
        "nocapture"@ != "readonly"@ && "nocapture"@ != "writeonly"@ && "nocapture"@ != "noalias"@,
        "nonnull"@ != "readonly"@ && "nonnull"@ != "writeonly"@ && "nonnull"@ != "noalias"@
            && "nonnull"@ != "nocapture"@,
{
    reveal_strlit("range(");
    reveal_strlit("readonly");
    reveal_strlit("writeonly");
    reveal_strlit("noalias");
    reveal_strlit("nocapture");
    reveal_strlit("nonnull");
    assert("readonly"@.len() == 8 && "writeonly"@.len() == 9 && "noalias"@.len() == 7);
    assert("nocapture"@.len() == 9 && "nonnull"@.len() == 7);
    assert("writeonly"@[0] == 'w' && "nocapture"@[0] == 'n');
    assert("noalias"@[2] == 'a' && "nonnull"@[2] == 'n');
    assert("readonly"@[1] == 'e' && "range("@[1] == 'a');
    assert("range("@[0] == 'r' && "noalias"@[0] == 'n' && "nonnull"@[0] == 'n');
    assert forall|t: Seq<char>|
        starts(t, "range("@) implies t.len() >= 6 && t[0] == 'r' && t[1] == 'a' by {
        assert(t.take(6)[0] == "range("@[0]);
        assert(t.take(6)[1] == "range("@[1]);
    }
}

/// Where every item of a parameter list is a parameter, there is one for each
/// item, in the same place: the one that its own text describes.
pub proof fn law_every_item_is_a_parameter(
    items: Seq<Seq<char>>,
    n: nat,
    defs: Seq<(Seq<char>, DefView)>,
)
    requires
        n <= items.len(),
        params_of(items, n, defs) is Ok,
        forall|i: int|
            0 <= i < n ==> trim_text(#[trigger] items[i]) != "..."@ && words(
                trim_text(items[i]),
            ).len() > 0,
    ensures
        numbered(items, n) == n,
        params_of(items, n, defs)->Ok_0.len() == n,
        forall|i: int|
            0 <= i < n ==> param_of(trim_text(items[i]), i as nat, defs) == Ok::<
                Option<ParamView>,
                IrError,
            >(Some(#[trigger] params_of(items, n, defs)->Ok_0[i])),
    decreases n,
{
    if n > 0 {
        law_every_item_is_a_parameter(items, (n - 1) as nat, defs);
    }
}

/// A line that defines a function gives it a body and one that declares it
/// does not; it may throw unless it is said not to unwind.
pub proof fn law_definitions_have_bodies(
    name: Seq<char>,
    params: Seq<char>,
    result: Seq<char>,
    defs: Seq<(Seq<char>, DefView)>,
    line: Seq<char>,
)
    requires
        signature_of(name, params, result, defs, line) is Ok,
    ensures
        ({
            let f = signature_of(name, params, result, defs, line)->Ok_0;
            &&& f.name == name
            &&& f.has_body <==> starts(line, "define "@)
            &&& f.can_throw <==> !mentions(line, "nounwind"@)
            &&& !f.is_virtual
            &&& list_params(params, defs) is Ok
            &&& f.params.len() == list_params(params, defs)->Ok_0.len()
            &&& (forall|i: int|
                0 <= i < list_params(params, defs)->Ok_0.len() ==> !holds_result(
                    #[trigger] list_params(params, defs)->Ok_0[i],
                )) ==> f.params == list_params(params, defs)->Ok_0 && resolved(
                result,
                defs,
                defs.len(),
            ) == Ok::<TypeView, IrError>(f.return_type)
        }),
{
    let ps = list_params(params, defs)->Ok_0;
    lemma_result_param(ps, 0);
}

proof fn lemma_result_param(params: Seq<ParamView>, i: int)
    requires
        0 <= i <= params.len(),
    ensures
        result_param(params, i) matches Some(k) ==> i <= k < params.len() && holds_result(params[k]),
    decreases params.len() - i,
{
    if i < params.len() && !holds_result(params[i]) {
        lemma_result_param(params, i + 1);
    }
}

/// The specification of a function that is not virtual is preferred to that
/// of one that is.
pub proof fn law_plain_specifications_win(v: Seq<SpecConstraint>, name: Seq<char>, n: nat)
    requires
        n <= v.len(),
    ensures
        chosen_spec(v, name, n) is Some <==> exists|i: int|
            0 <= i < n && (#[trigger] v[i]).function_name@ == name,
        chosen_spec(v, name, n) matches Some(k) ==> 0 <= k < n && v[k].function_name@ == name && (
        v[k].is_virtual ==> forall|i: int|
            0 <= i < n && (#[trigger] v[i]).function_name@ == name ==> v[i].is_virtual),
        chosen_spec(v, name, n) matches Some(k) ==> forall|i: int|
            0 <= i < k && (#[trigger] v[i]).function_name@ == name ==> v[i].is_virtual
                && !v[k].is_virtual,
    decreases n,
{
    if n > 0 {
        law_plain_specifications_win(v, name, (n - 1) as nat);
        if v[n - 1].function_name@ == name {
            assert(v[(n - 1) as int].function_name@ == name);
        }
    }
}

} // verus!
