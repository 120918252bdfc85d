//! Function signatures in MIR dumps.

use vstd::prelude::*;

use crate::constraints::{
    annotations_view, fields_view, functions_view, globals_view, params_view, type_view,
    variants_view, Annotation, AnnotationView, EnumVariant, FunctionInfo, FunctionView, Mutability,
    Nullability, ParamInfo, ParamView, TypeInfo, TypeView,
};
use crate::ir_layout::lemma_trim_len;
use crate::json::{
    Json, JsonError, JsonView, items_view, json_document, lemma_items_view, member, member_items,
    member_number, member_text, parse_json, text_of,
};
use crate::text::{
    CharSet, at, before_suffix, contains, cut, dec, find, group_append, group_views, last_position,
    lemma_find_from, lemma_parts_len, lemma_pieces_len, mentions, nil, opt_string, opt_view, owned,
    parts, pieces, position, put, put3, put_dec, rfind, rfind_from, same, split, split_on,
    split_once, starts, starts_with, strip_suffix, trim, trim_text,
};

verus! {

// ---------------------------------------------------------------------
// Types
// ---------------------------------------------------------------------

/// The type of a name among the first `n`: the last one counts.
pub open spec fn adt_of(adts: Seq<(Seq<char>, TypeView)>, name: Seq<char>, n: int) -> Option<TypeView>
    decreases n,
{
    if n <= 0 || n > adts.len() {
        None
    } else if adts[n - 1].0 == name {
        Some(adts[n - 1].1)
    } else {
        adt_of(adts, name, n - 1)
    }
}

pub open spec fn adts_view(v: Seq<(String, TypeInfo)>) -> Seq<(Seq<char>, TypeView)> {
    Seq::new(v.len(), |i: int| (v[i].0@, v[i].1@))
}

/// The type under the given name.
pub open spec fn named(t: TypeView, name: Seq<char>) -> TypeView {
    match t {
        TypeView::Enum { variants, bits, .. } => TypeView::Enum { name, variants, bits },
        TypeView::Struct { size, fields, .. } => TypeView::Struct { name, size, fields },
        other => other,
    }
}

/// The type that a pointer's name says it is to: the second of the
/// arguments between the angle brackets.
pub open spec fn pointee_name(ty: Seq<char>) -> Option<Seq<char>> {
    match find(ty, "<"@) {
        Some(start) => {
            let inner = ty.subrange(start + 1, ty.len() as int);
            match rfind(inner, ">"@) {
                Some(end) => {
                    let args = parts(inner.subrange(0, end), ", "@);
                    if args.len() >= 2 {
                        Some(trim_text(args[1]))
                    } else {
                        None
                    }
                },
                None => None,
            }
        },
        None => None,
    }
}

/// What stands between the first angle bracket and the next one, or the
/// closing one at the end.
pub open spec fn argument(ty: Seq<char>) -> Option<Seq<char>> {
    let ps = pieces(ty, CharSet::Is('<'));
    if ps.len() > 1 {
        before_suffix(ps[1], ">"@)
    } else {
        None
    }
}

pub open spec fn is_option(ty: Seq<char>) -> bool {
    starts(ty, "Option<"@) || mentions(ty, "::Option<"@)
}

pub open spec fn is_result(ty: Seq<char>) -> bool {
    starts(ty, "Result<"@) || mentions(ty, "::Result<"@)
}

/// The value type of an option type.
pub open spec fn option_argument(ty: Seq<char>) -> Seq<char> {
    match argument(ty) {
        Some(a) => a,
        None => "()"@,
    }
}

/// The two types of a result type.
pub open spec fn result_arguments(ty: Seq<char>) -> (Seq<char>, Seq<char>) {
    let inner = match argument(ty) {
        Some(a) => a,
        None => "(), ()"@,
    };
    match cut(inner, ", "@) {
        Some(pair) => pair,
        None => (inner, "()"@),
    }
}

/// A type without arguments.
pub open spec fn simple_type(ty: Seq<char>) -> Option<TypeView> {
    if ty == "ty::Bool"@ || ty == "bool"@ {
        Some(TypeView::Bool)
    } else if ty == "ty::Uint::U8"@ || ty == "u8"@ {
        Some(TypeView::UnsignedInt(8))
    } else if ty == "ty::Uint::U16"@ || ty == "u16"@ {
        Some(TypeView::UnsignedInt(16))
    } else if ty == "ty::Uint::U32"@ || ty == "u32"@ {
        Some(TypeView::UnsignedInt(32))
    } else if ty == "ty::Uint::U64"@ || ty == "u64"@ || ty == "ty::Uint::Usize"@ || ty
        == "usize"@ {
        Some(TypeView::UnsignedInt(64))
    } else if ty == "ty::Int::I8"@ || ty == "i8"@ {
        Some(TypeView::SignedInt(8))
    } else if ty == "ty::Int::I16"@ || ty == "i16"@ {
        Some(TypeView::SignedInt(16))
    } else if ty == "ty::Int::I32"@ || ty == "i32"@ {
        Some(TypeView::SignedInt(32))
    } else if ty == "ty::Int::I64"@ || ty == "i64"@ || ty == "ty::Int::Isize"@ || ty
        == "isize"@ {
        Some(TypeView::SignedInt(64))
    } else if ty == "()"@ || ty == "ty::Tuple::unit"@ {
        Some(TypeView::Void)
    } else {
        None
    }
}

pub proof fn lemma_pointee_name(ty: Seq<char>)
    ensures
        pointee_name(ty) matches Some(n) ==> n.len() < ty.len(),
{
    reveal_strlit("<");
    lemma_find_from(ty, "<"@, 0);
    if let Some(start) = find(ty, "<"@) {
        let inner = ty.subrange(start + 1, ty.len() as int);
        lemma_rfind_within(inner, ">"@, inner.len() - ">"@.len());
        if let Some(end) = rfind(inner, ">"@) {
            let body = inner.subrange(0, end);
            lemma_parts_len(body, ", "@, 0);
            let args = parts(body, ", "@);
            if args.len() >= 2 {
                lemma_trim_len(args[1], CharSet::Space);
            }
        }
    }
}

proof fn lemma_rfind_within(s: Seq<char>, p: Seq<char>, i: int)
    ensures
        rfind_from(s, p, i) matches Some(k) ==> 0 <= k && at(s, p, k),
    decreases i + 1,
{
    if i >= 0 && !at(s, p, i) {
        lemma_rfind_within(s, p, i - 1);
    }
}

pub proof fn lemma_argument(ty: Seq<char>)
    ensures
        argument(ty) matches Some(a) ==> a.len() < ty.len(),
{
    reveal_strlit(">");
    lemma_pieces_len(ty, CharSet::Is('<'), 0, 0);
}

pub proof fn lemma_option_argument(ty: Seq<char>)
    requires
        is_option(ty),
    ensures
        option_argument(ty).len() < ty.len(),
{
    reveal_strlit("Option<");
    reveal_strlit("::Option<");
    reveal_strlit("()");
    lemma_argument(ty);
}

pub proof fn lemma_result_arguments(ty: Seq<char>)
    requires
        is_result(ty),
    ensures
        result_arguments(ty).0.len() < ty.len(),
        result_arguments(ty).1.len() < ty.len(),
{
    reveal_strlit("Result<");
    reveal_strlit("::Result<");
    reveal_strlit("()");
    reveal_strlit("(), ()");
    reveal_strlit(", ");
    lemma_argument(ty);
    let inner = match argument(ty) {
        Some(a) => a,
        None => "(), ()"@,
    };
    lemma_find_from(inner, ", "@, 0);
}

/// The type of a name, and whether a value of it may be null.
pub open spec fn rust_type(ty: Seq<char>, adts: Seq<(Seq<char>, TypeView)>) -> (
    TypeView,
    Nullability,
)
    decreases ty.len(),
{
    if starts(ty, "ty::Ref"@) || mentions(ty, "RawPtr"@) {
        let inner = match pointee_name(ty) {
            Some(n) => {
                proof {
                    lemma_pointee_name(ty);
                }
                rust_type(n, adts).0
            },
            None => TypeView::Opaque { name: ty, size: 0 },
        };
        (
            TypeView::Pointer(Box::new(inner)),
            if starts(ty, "ty::Ref"@) {
                Nullability::NonNull
            } else {
                Nullability::Nullable
            },
        )
    } else if is_option(ty) {
        proof {
            lemma_option_argument(ty);
        }
        (
            TypeView::Option(Box::new(rust_type(option_argument(ty), adts).0)),
            Nullability::NonNull,
        )
    } else if is_result(ty) {
        proof {
            lemma_result_arguments(ty);
        }
        let (ok, err) = result_arguments(ty);
        (
            TypeView::Result(
                Box::new(rust_type(ok, adts).0),
                Box::new(rust_type(err, adts).0),
            ),
            Nullability::NonNull,
        )
    } else {
        (
            match simple_type(ty) {
                Some(t) => t,
                None => match adt_of(adts, ty, adts.len() as int) {
                    Some(t) => named(t, ty),
                    None => TypeView::Opaque { name: ty, size: 0 },
                },
            },
            Nullability::NonNull,
        )
    }
}

fn find_adt<'a>(adts: &'a [(String, TypeInfo)], name: &str) -> (r: Option<&'a TypeInfo>)
    ensures
        match r {
            Some(t) => adt_of(adts_view(adts@), name@, adts@.len() as int) == Some(t@),
            None => adt_of(adts_view(adts@), name@, adts@.len() as int) is None,
        },
{
    let ghost v = adts_view(adts@);
    let mut n: usize = adts.len();
    while n > 0
        invariant
            v == adts_view(adts@),
            n <= adts@.len(),
            adt_of(v, name@, adts@.len() as int) == adt_of(v, name@, n as int),
        decreases n,
    {
        assert(v[n - 1] == (adts@[n - 1].0@, adts@[n - 1].1@));
        if same(adts[n - 1].0.as_str(), name) {
            return Some(&adts[n - 1].1);
        }
        n -= 1;
    }
    None
}

fn make_named(t: &TypeInfo, name: &str) -> (r: TypeInfo)
    ensures
        r@ == named(t@, name@),
{
    match t.duplicate() {
        TypeInfo::Enum { variants, discriminant_bits, .. } => TypeInfo::Enum {
            name: owned(name),
            variants,
            discriminant_bits,
        },
        TypeInfo::Struct { size_bytes, fields, .. } => TypeInfo::Struct {
            name: owned(name),
            size_bytes,
            fields,
        },
        other => other,
    }
}

fn read_pointee_name(ty: &str) -> (r: Option<String>)
    ensures
        opt_string(r) == pointee_name(ty@),
{
    proof {
        reveal_strlit("<");
        reveal_strlit(", ");
        lemma_find_from(ty@, "<"@, 0);
    }
    match position(ty, "<") {
        Some(start) => {
            let n: usize = ty.unicode_len();
            let inner = ty.substring_char(start + 1, n);
            match last_position(inner, ">") {
                Some(end) => {
                    let args = split_on(inner.substring_char(0, end), ", ");
                    if args.len() >= 2 {
                        Some(owned(trim(args[1].as_str())))
                    } else {
                        None
                    }
                },
                None => None,
            }
        },
        None => None,
    }
}

fn read_argument(ty: &str) -> (r: Option<String>)
    ensures
        opt_string(r) == argument(ty@),
{
    let ps = split(ty, CharSet::Is('<'));
    if ps.len() > 1 {
        match strip_suffix(ps[1].as_str(), ">") {
            Some(a) => Some(owned(a)),
            None => None,
        }
    } else {
        None
    }
}

fn read_simple_type(ty: &str) -> (r: Option<TypeInfo>)
    ensures
        match r {
            Some(t) => simple_type(ty@) == Some(t@),
            None => simple_type(ty@) is None,
        },
{
    if same(ty, "ty::Bool") || same(ty, "bool") {
        Some(TypeInfo::Bool)
    } else if same(ty, "ty::Uint::U8") || same(ty, "u8") {
        Some(TypeInfo::UnsignedInt(8))
    } else if same(ty, "ty::Uint::U16") || same(ty, "u16") {
        Some(TypeInfo::UnsignedInt(16))
    } else if same(ty, "ty::Uint::U32") || same(ty, "u32") {
        Some(TypeInfo::UnsignedInt(32))
    } else if same(ty, "ty::Uint::U64") || same(ty, "u64") || same(ty, "ty::Uint::Usize") || same(
        ty,
        "usize",
    ) {
        Some(TypeInfo::UnsignedInt(64))
    } else if same(ty, "ty::Int::I8") || same(ty, "i8") {
        Some(TypeInfo::SignedInt(8))
    } else if same(ty, "ty::Int::I16") || same(ty, "i16") {
        Some(TypeInfo::SignedInt(16))
    } else if same(ty, "ty::Int::I32") || same(ty, "i32") {
        Some(TypeInfo::SignedInt(32))
    } else if same(ty, "ty::Int::I64") || same(ty, "i64") || same(ty, "ty::Int::Isize") || same(
        ty,
        "isize",
    ) {
        Some(TypeInfo::SignedInt(64))
    } else if same(ty, "()") || same(ty, "ty::Tuple::unit") {
        Some(TypeInfo::Void)
    } else {
        None
    }
}

fn resolve_rust_type(ty: &str, adts: &[(String, TypeInfo)]) -> (r: (TypeInfo, Nullability))
    ensures
        (r.0@, r.1) == rust_type(ty@, adts_view(adts@)),
    decreases ty@.len(),
{
    proof {
        reveal_with_fuel(type_view, 2);
    }
    let is_ref = starts_with(ty, "ty::Ref");
    if is_ref || contains(ty, "RawPtr") {
        let inner = match read_pointee_name(ty) {
            Some(n) => {
                proof {
                    lemma_pointee_name(ty@);
                }
                resolve_rust_type(n.as_str(), adts).0
            },
            None => TypeInfo::Opaque { name: owned(ty), size_bytes: 0 },
        };
        let nullable = if is_ref {
            Nullability::NonNull
        } else {
            Nullability::Nullable
        };
        (TypeInfo::Pointer(Box::new(inner)), nullable)
    } else if starts_with(ty, "Option<") || contains(ty, "::Option<") {
        let inner = match read_argument(ty) {
            Some(a) => a,
            None => owned("()"),
        };
        proof {
            lemma_option_argument(ty@);
        }
        let (t, _) = resolve_rust_type(inner.as_str(), adts);
        (TypeInfo::Option(Box::new(t)), Nullability::NonNull)
    } else if starts_with(ty, "Result<") || contains(ty, "::Result<") {
        let inner = match read_argument(ty) {
            Some(a) => a,
            None => owned("(), ()"),
        };
        let (ok, err) = match split_once(inner.as_str(), ", ") {
            Some(pair) => pair,
            None => (inner.as_str(), "()"),
        };
        proof {
            lemma_result_arguments(ty@);
        }
        let (ok_ty, _) = resolve_rust_type(ok, adts);
        let (err_ty, _) = resolve_rust_type(err, adts);
        (TypeInfo::Result(Box::new(ok_ty), Box::new(err_ty)), Nullability::NonNull)
    } else {
        let t = match read_simple_type(ty) {
            Some(t) => t,
            None => match find_adt(adts, ty) {
                Some(t) => make_named(t, ty),
                None => TypeInfo::Opaque { name: owned(ty), size_bytes: 0 },
            },
        };
        (t, Nullability::NonNull)
    }
}

/// May the value be changed through the parameter?
pub open spec fn mutability_of(is_mut: bool) -> Mutability {
    if is_mut {
        Mutability::Mutable
    } else {
        Mutability::Readonly
    }
}

/// The type of a name, whether a value of it may be changed, and whether
/// it may be null.
pub fn parse_rust_type_string(ty_name: &str, is_mut: bool, adts: &[(String, TypeInfo)]) -> (r: (
    TypeInfo,
    Mutability,
    Nullability,
))
    ensures
        (r.0@, r.2) == rust_type(ty_name@, adts_view(adts@)),
        r.1 == mutability_of(is_mut),
{
    let (ty, nullable) = resolve_rust_type(ty_name, adts);
    let mutability = if is_mut {
        Mutability::Mutable
    } else {
        Mutability::Readonly
    };
    (ty, mutability, nullable)
}

// ---------------------------------------------------------------------
// Type definitions
// ---------------------------------------------------------------------

/// The named variants among the first `n`, numbered in order.
pub open spec fn variants_in(v: Seq<JsonView>, n: nat) -> Seq<(Seq<char>, i128)>
    decreases n,
{
    if n == 0 {
        Seq::empty()
    } else {
        let rest = variants_in(v, (n - 1) as nat);
        match member_text(v[n - 1], "name"@) {
            Some(name) => rest.push((name, rest.len() as i128)),
            None => rest,
        }
    }
}

/// The named fields among the first `n`.
pub open spec fn fields_in(v: Seq<JsonView>, n: nat) -> Seq<(Seq<char>, TypeView)>
    decreases n,
{
    if n == 0 {
        Seq::empty()
    } else {
        let rest = fields_in(v, (n - 1) as nat);
        match member_text(v[n - 1], "name"@) {
            Some(name) => {
                let ty = match member_text(v[n - 1], "ty"@) {
                    Some(t) => t,
                    None => "()"@,
                };
                rest.push((name, rust_type(ty, Seq::empty()).0))
            },
            None => rest,
        }
    }
}

/// The fields of the first variant.
pub open spec fn struct_fields(adt: JsonView) -> Seq<(Seq<char>, TypeView)> {
    let vs = member_items(adt, "variants"@);
    if vs.len() == 0 {
        Seq::empty()
    } else {
        let fs = member_items(vs[0], "fields"@);
        fields_in(fs, fs.len())
    }
}

/// The definition of a type, without its name in it.
pub open spec fn adt_in(adt: JsonView) -> Option<(Seq<char>, TypeView)> {
    match member_text(adt, "name"@) {
        Some(name) => {
            let kind = match member_text(adt, "kind"@) {
                Some(k) => k,
                None => "struct"@,
            };
            if kind == "enum"@ {
                let vs = member_items(adt, "variants"@);
                Some(
                    (
                        name,
                        TypeView::Enum {
                            name: nil(),
                            variants: variants_in(vs, vs.len()),
                            bits: match member_number(adt, "discriminant_bits"@) {
                                Some(n) => n as u32,
                                None => 64,
                            },
                        },
                    ),
                )
            } else if kind == "struct"@ || kind == "union"@ {
                Some(
                    (
                        name,
                        TypeView::Struct {
                            name: nil(),
                            size: match member_number(adt, "size"@) {
                                Some(n) => Some(n as usize),
                                None => None,
                            },
                            fields: struct_fields(adt),
                        },
                    ),
                )
            } else {
                None
            }
        },
        None => None,
    }
}

/// The definitions among the first `n` values.
pub open spec fn adts_in(v: Seq<JsonView>, n: nat) -> Seq<(Seq<char>, TypeView)>
    decreases n,
{
    if n == 0 {
        Seq::empty()
    } else {
        match adt_in(v[n - 1]) {
            Some(a) => adts_in(v, (n - 1) as nat).push(a),
            None => adts_in(v, (n - 1) as nat),
        }
    }
}

/// The type definitions of a dump.
pub open spec fn adt_table(mir: JsonView) -> Seq<(Seq<char>, TypeView)> {
    let v = member_items(mir, "adts"@);
    adts_in(v, v.len())
}

fn read_variants(v: &Vec<Json>) -> (r: Vec<EnumVariant>)
    ensures
        variants_view(r@) == variants_in(items_view(v@, v@.len()), v@.len()),
{
    broadcast use {group_append, group_views};
    let ghost all = items_view(v@, v@.len());
    proof {
        lemma_items_view(v@, v@.len());
    }
    let mut r: Vec<EnumVariant> = Vec::new();
    let mut i: usize = 0;
    assert(variants_view(r@) =~= Seq::empty());
    while i < v.len()
        invariant
            all == items_view(v@, v@.len()),
            forall|k: int| 0 <= k < v@.len() ==> #[trigger] all[k] == v@[k]@,
            r@.len() <= i <= v@.len(),
            variants_view(r@) == variants_in(all, i as nat),
        decreases v@.len() - i,
    {
        assert(all[i as int] == v@[i as int]@);
        if let Some(name) = v[i].get_str("name") {
            let ghost before = variants_view(r@);
            let value: i128 = r.len() as i128;
            r.push(EnumVariant::new(name, value));
            assert(variants_view(r@) =~= before.push((name@, value)));
        }
        i += 1;
    }
    r
}

proof fn lemma_fields_push(v: Seq<(String, TypeInfo)>, f: (String, TypeInfo), n: nat)
    requires
        n <= v.len(),
    ensures
        fields_view(v.push(f), n) == fields_view(v, n),
    decreases n,
{
    if n > 0 {
        lemma_fields_push(v, f, (n - 1) as nat);
    }
}

fn read_fields(v: &Vec<Json>) -> (r: Vec<(String, TypeInfo)>)
    ensures
        fields_view(r@, r@.len()) == fields_in(items_view(v@, v@.len()), v@.len()),
{
    broadcast use {group_append, group_views};
    let ghost all = items_view(v@, v@.len());
    proof {
        lemma_items_view(v@, v@.len());
    }
    let none: Vec<(String, TypeInfo)> = Vec::new();
    assert(adts_view(none@) =~= Seq::empty());
    let mut r: Vec<(String, TypeInfo)> = Vec::new();
    let mut i: usize = 0;
    while i < v.len()
        invariant
            adts_view(none@) == Seq::<(Seq<char>, TypeView)>::empty(),
            all == items_view(v@, v@.len()),
            forall|k: int| 0 <= k < v@.len() ==> #[trigger] all[k] == v@[k]@,
            i <= v@.len(),
            fields_view(r@, r@.len()) == fields_in(all, i as nat),
        decreases v@.len() - i,
    {
        assert(all[i as int] == v@[i as int]@);
        if let Some(name) = v[i].get_str("name") {
            let ty = match v[i].get_str("ty") {
                Some(t) => t,
                None => "()",
            };
            let (t, _) = resolve_rust_type(ty, none.as_slice());
            let field = (owned(name), t);
            proof {
                lemma_fields_push(r@, field, r@.len());
            }
            r.push(field);
        }
        i += 1;
    }
    r
}

fn read_struct_fields(adt: &Json) -> (r: Vec<(String, TypeInfo)>)
    ensures
        fields_view(r@, r@.len()) == struct_fields(adt@),
{
    let none: Vec<(String, TypeInfo)> = Vec::new();
    match adt.get_array("variants") {
        Some(vs) => {
            proof {
                lemma_items_view(vs@, vs@.len());
            }
            if vs.len() == 0 {
                none
            } else {
                match vs[0].get_array("fields") {
                    Some(fs) => {
                        proof {
                            lemma_items_view(fs@, fs@.len());
                        }
                        read_fields(fs)
                    },
                    None => none,
                }
            }
        },
        None => none,
    }
}

/// The definition of a type, without its name in it.
pub fn parse_adt_def(adt: &Json) -> (r: Option<(String, TypeInfo)>)
    ensures
        match r {
            Some((n, t)) => adt_in(adt@) == Some((n@, t@)),
            None => adt_in(adt@) is None,
        },
{
    proof {
        reveal_with_fuel(type_view, 2);
    }
    let name = match adt.get_str("name") {
        Some(n) => owned(n),
        None => {
            return None;
        },
    };
    let kind = match adt.get_str("kind") {
        Some(k) => k,
        None => "struct",
    };
    if same(kind, "enum") {
        let variants = match adt.get_array("variants") {
            Some(vs) => {
                proof {
                    lemma_items_view(vs@, vs@.len());
                }
                read_variants(vs)
            },
            None => Vec::new(),
        };
        assert(variants@.len() == 0 ==> variants_view(variants@) =~= Seq::empty());
        let discriminant_bits: u32 = match adt.get_u64("discriminant_bits") {
            Some(n) => #[verifier::truncate] (n as u32),
            None => 64,
        };
        Some((name, TypeInfo::Enum { name: String::new(), variants, discriminant_bits }))
    } else if same(kind, "struct") || same(kind, "union") {
        let size_bytes = match adt.get_u64("size") {
            Some(n) => Some(#[verifier::truncate] (n as usize)),
            None => None,
        };
        Some(
            (
                name,
                TypeInfo::Struct {
                    name: String::new(),
                    size_bytes,
                    fields: read_struct_fields(adt),
                },
            ),
        )
    } else {
        None
    }
}

/// The type definitions of a dump.
pub fn build_adt_map(mir: &Json) -> (r: Vec<(String, TypeInfo)>)
    ensures
        adts_view(r@) == adt_table(mir@),
{
    broadcast use {group_append, group_views};
    let mut r: Vec<(String, TypeInfo)> = Vec::new();
    assert(adts_view(r@) =~= Seq::empty());
    match mir.get_array("adts") {
        Some(v) => {
            let ghost all = items_view(v@, v@.len());
            proof {
                lemma_items_view(v@, v@.len());
            }
            let mut i: usize = 0;
            while i < v.len()
                invariant
                    all == items_view(v@, v@.len()),
                    all.len() == v@.len(),
                    adt_table(mir@) == adts_in(all, all.len()),
                    forall|k: int| 0 <= k < v@.len() ==> #[trigger] all[k] == v@[k]@,
                    i <= v@.len(),
                    adts_view(r@) == adts_in(all, i as nat),
                decreases v@.len() - i,
            {
                assert(all[i as int] == v@[i as int]@);
                if let Some(a) = parse_adt_def(&v[i]) {
                    let ghost before = adts_view(r@);
                    let ghost e = (a.0@, a.1@);
                    r.push(a);
                    assert(adts_view(r@) =~= before.push(e));
                }
                i += 1;
            }
            r
        },
        None => r,
    }
}

// ---------------------------------------------------------------------
// Functions
// ---------------------------------------------------------------------

/// Is the parameter marked as one that may be changed?
pub open spec fn marked_mut(arg: JsonView) -> bool {
    match member(arg, "mut"@) {
        Some(m) => member_text(m, "kind"@) == Some("Mut"@),
        None => false,
    }
}

/// The parameter that a value describes: it has a name and a type.
pub open spec fn mir_param(arg: JsonView, adts: Seq<(Seq<char>, TypeView)>) -> Option<ParamView> {
    match (member_text(arg, "name"@), member_text(arg, "ty"@)) {
        (Some(name), Some(ty)) => {
            let (t, nullable) = rust_type(ty, adts);
            Some(
                ParamView {
                    name,
                    ty: t,
                    mutability: mutability_of(marked_mut(arg)),
                    nullable,
                    annotations: Seq::empty(),
                },
            )
        },
        _ => None,
    }
}

/// The parameters that the first `n` values describe.
pub open spec fn mir_params(
    v: Seq<JsonView>,
    n: nat,
    adts: Seq<(Seq<char>, TypeView)>,
) -> Seq<ParamView>
    decreases n,
{
    if n == 0 {
        Seq::empty()
    } else {
        match mir_param(v[n - 1], adts) {
            Some(p) => mir_params(v, (n - 1) as nat, adts).push(p),
            None => mir_params(v, (n - 1) as nat, adts),
        }
    }
}

/// The annotations that the first `n` attributes stand for.
pub open spec fn mir_annotations(v: Seq<JsonView>, n: nat) -> Seq<AnnotationView>
    decreases n,
{
    if n == 0 {
        Seq::empty()
    } else {
        let rest = mir_annotations(v, (n - 1) as nat);
        if text_of(v[n - 1]) == Some("nounwind"@) || text_of(v[n - 1]) == Some("noexcept"@) {
            rest.push(AnnotationView::NoThrow)
        } else {
            rest
        }
    }
}

/// Does the name of a return type show that the function is asynchronous?
pub open spec fn async_type(ty: Seq<char>) -> bool {
    mentions(ty, "GenFuture"@) || mentions(ty, "Coroutine"@) || mentions(ty, "impl Future"@)
        || mentions(ty, "Poll"@)
}

/// Is the function asynchronous?
pub open spec fn is_async(func: JsonView) -> bool {
    member(func, "is_async"@) == Some(JsonView::Bool(true)) || match member_text(
        func,
        "return_ty"@,
    ) {
        Some(ty) => async_type(ty),
        None => false,
    }
}

/// The return type of a function: that of an asynchronous one is opaque.
pub open spec fn mir_return(
    func: JsonView,
    name: Seq<char>,
    adts: Seq<(Seq<char>, TypeView)>,
) -> TypeView {
    if is_async(func) {
        TypeView::Opaque { name: "async_coroutine<"@ + name + ">"@, size: 0 }
    } else {
        match member_text(func, "return_ty"@) {
            Some(ty) => rust_type(ty, adts).0,
            None => TypeView::Void,
        }
    }
}

/// The function that a value describes: it has a name.
pub open spec fn mir_function(func: JsonView, adts: Seq<(Seq<char>, TypeView)>) -> Option<
    FunctionView,
> {
    match member_text(func, "name"@) {
        Some(name) => {
            let args = member_items(func, "args"@);
            let attrs = member_items(func, "attrs"@);
            Some(
                FunctionView {
                    name,
                    mangled_name: None,
                    params: mir_params(args, args.len(), adts),
                    return_type: mir_return(func, name, adts),
                    can_throw: false,
                    is_virtual: false,
                    has_body: true,
                    is_system: false,
                    called_functions: Seq::empty(),
                    referenced_globals: Seq::empty(),
                    annotations: mir_annotations(attrs, attrs.len()),
                },
            )
        },
        None => None,
    }
}

/// Is the function asked for?
pub open spec fn wanted(name: Seq<char>, filter: Option<Seq<char>>) -> bool {
    match filter {
        Some(f) => mentions(name, f),
        None => true,
    }
}

/// The functions among the first `n` values that are asked for.
pub open spec fn mir_functions(
    v: Seq<JsonView>,
    n: nat,
    filter: Option<Seq<char>>,
    adts: Seq<(Seq<char>, TypeView)>,
) -> Seq<FunctionView>
    decreases n,
{
    if n == 0 {
        Seq::empty()
    } else {
        let rest = mir_functions(v, (n - 1) as nat, filter, adts);
        match mir_function(v[n - 1], adts) {
            Some(f) => if wanted(f.name, filter) {
                rest.push(f)
            } else {
                rest
            },
            None => rest,
        }
    }
}

/// The functions of a dump that are asked for.
pub open spec fn functions_of(mir: JsonView, filter: Option<Seq<char>>) -> Seq<FunctionView> {
    let v = member_items(mir, "fns"@);
    mir_functions(v, v.len(), filter, adt_table(mir))
}

/// The parameter that a value describes.
pub fn parse_mir_param(arg: &Json, adts: &[(String, TypeInfo)]) -> (r: Option<ParamInfo>)
    ensures
        match r {
            Some(p) => mir_param(arg@, adts_view(adts@)) == Some(p@),
            None => mir_param(arg@, adts_view(adts@)) is None,
        },
{
    match (arg.get_str("name"), arg.get_str("ty")) {
        (Some(name), Some(ty_name)) => {
            let is_mut = match arg.get("mut") {
                Some(m) => match m.get_str("kind") {
                    Some(k) => same(k, "Mut"),
                    None => false,
                },
                None => false,
            };
            let (ty, mutability, nullable) = parse_rust_type_string(ty_name, is_mut, adts);
            let annotations: Vec<Annotation> = Vec::new();
            assert(annotations_view(annotations@) =~= Seq::empty());
            Some(ParamInfo { name: owned(name), ty, mutability, nullable, annotations })
        },
        _ => None,
    }
}

fn read_params(v: &Vec<Json>, adts: &[(String, TypeInfo)]) -> (r: Vec<ParamInfo>)
    ensures
        params_view(r@) == mir_params(items_view(v@, v@.len()), v@.len(), adts_view(adts@)),
{
    broadcast use {group_append, group_views};
    let ghost all = items_view(v@, v@.len());
    let ghost a = adts_view(adts@);
    proof {
        lemma_items_view(v@, v@.len());
    }
    let mut r: Vec<ParamInfo> = Vec::new();
    assert(params_view(r@) =~= Seq::empty());
    let mut i: usize = 0;
    while i < v.len()
        invariant
            all == items_view(v@, v@.len()),
            a == adts_view(adts@),
            forall|k: int| 0 <= k < v@.len() ==> #[trigger] all[k] == v@[k]@,
            i <= v@.len(),
            params_view(r@) == mir_params(all, i as nat, a),
        decreases v@.len() - i,
    {
        assert(all[i as int] == v@[i as int]@);
        if let Some(p) = parse_mir_param(&v[i], adts) {
            let ghost before = params_view(r@);
            let ghost e = p@;
            r.push(p);
            assert(params_view(r@) =~= before.push(e));
        }
        i += 1;
    }
    r
}

fn read_annotations(v: &Vec<Json>) -> (r: Vec<Annotation>)
    ensures
        annotations_view(r@) == mir_annotations(items_view(v@, v@.len()), v@.len()),
{
    broadcast use {group_append, group_views};
    let ghost all = items_view(v@, v@.len());
    proof {
        lemma_items_view(v@, v@.len());
    }
    let mut r: Vec<Annotation> = Vec::new();
    assert(annotations_view(r@) =~= Seq::empty());
    let mut i: usize = 0;
    while i < v.len()
        invariant
            all == items_view(v@, v@.len()),
            forall|k: int| 0 <= k < v@.len() ==> #[trigger] all[k] == v@[k]@,
            i <= v@.len(),
            annotations_view(r@) == mir_annotations(all, i as nat),
        decreases v@.len() - i,
    {
        assert(all[i as int] == v@[i as int]@);
        if let Some(s) = v[i].as_str() {
            if same(s, "nounwind") || same(s, "noexcept") {
                let ghost before = annotations_view(r@);
                r.push(Annotation::NoThrow);
                assert(annotations_view(r@) =~= before.push(AnnotationView::NoThrow));
            }
        }
        i += 1;
    }
    r
}

fn read_is_async(func: &Json) -> (r: bool)
    ensures
        r == is_async(func@),
{
    let flagged = match func.get("is_async") {
        Some(j) => match j.as_bool() {
            Some(b) => b,
            None => false,
        },
        None => false,
    };
    flagged || match func.get_str("return_ty") {
        Some(ty) => contains(ty, "GenFuture") || contains(ty, "Coroutine") || contains(
            ty,
            "impl Future",
        ) || contains(ty, "Poll"),
        None => false,
    }
}

fn read_return(func: &Json, name: &str, adts: &[(String, TypeInfo)]) -> (r: TypeInfo)
    ensures
        r@ == mir_return(func@, name@, adts_view(adts@)),
{
    broadcast use {group_append, group_views};
    if read_is_async(func) {
        let mut s = String::new();
        put3(&mut s, "async_coroutine<", name, ">");
        TypeInfo::Opaque { name: s, size_bytes: 0 }
    } else {
        match func.get_str("return_ty") {
            Some(ty) => resolve_rust_type(ty, adts).0,
            None => TypeInfo::Void,
        }
    }
}

/// The function that a value describes.
pub fn parse_mir_function(func: &Json, adts: &[(String, TypeInfo)]) -> (r: Option<FunctionInfo>)
    ensures
        match r {
            Some(f) => mir_function(func@, adts_view(adts@)) == Some(f@),
            None => mir_function(func@, adts_view(adts@)) is None,
        },
{
    let name = match func.get_str("name") {
        Some(n) => owned(n),
        None => {
            return None;
        },
    };
    let params = match func.get_array("args") {
        Some(v) => {
            proof {
                lemma_items_view(v@, v@.len());
            }
            read_params(v, adts)
        },
        None => Vec::new(),
    };
    assert(params@.len() == 0 ==> params_view(params@) =~= Seq::empty());
    let annotations = match func.get_array("attrs") {
        Some(v) => {
            proof {
                lemma_items_view(v@, v@.len());
            }
            read_annotations(v)
        },
        None => Vec::new(),
    };
    assert(annotations@.len() == 0 ==> annotations_view(annotations@) =~= Seq::empty());
    let return_type = read_return(func, name.as_str(), adts);
    let f = FunctionInfo {
        name,
        mangled_name: None,
        params,
        return_type,
        can_throw: false,
        is_virtual: false,
        has_body: true,
        is_system: false,
        called_functions: Vec::new(),
        referenced_globals: Vec::new(),
        annotations,
    };
    assert(globals_view(f.referenced_globals@) =~= Seq::empty());
    Some(f)
}

/// The functions of a dump, in order: those whose names contain the
/// filter.
pub fn extract_functions(mir: &Json, filter: Option<&str>) -> (r: Vec<FunctionInfo>)
    ensures
        functions_view(r@) == functions_of(mir@, opt_view(filter)),
{
    broadcast use {group_append, group_views};
    let adts = build_adt_map(mir);
    let mut r: Vec<FunctionInfo> = Vec::new();
    assert(functions_view(r@) =~= Seq::empty());
    match mir.get_array("fns") {
        Some(v) => {
            let ghost all = items_view(v@, v@.len());
            let ghost a = adts_view(adts@);
            let ghost f = opt_view(filter);
            proof {
                lemma_items_view(v@, v@.len());
            }
            let mut i: usize = 0;
            while i < v.len()
                invariant
                    all == items_view(v@, v@.len()),
                    all.len() == v@.len(),
                    a == adts_view(adts@),
                    f == opt_view(filter),
                    functions_of(mir@, f) == mir_functions(all, all.len(), f, a),
                    forall|k: int| 0 <= k < v@.len() ==> #[trigger] all[k] == v@[k]@,
                    i <= v@.len(),
                    functions_view(r@) == mir_functions(all, i as nat, f, a),
                decreases v@.len() - i,
            {
                assert(all[i as int] == v@[i as int]@);
                if let Some(func) = parse_mir_function(&v[i], adts.as_slice()) {
                    let matches = match filter {
                        Some(p) => contains(func.name.as_str(), p),
                        None => true,
                    };
                    if matches {
                        let ghost before = functions_view(r@);
                        let ghost e = func@;
                        r.push(func);
                        assert(functions_view(r@) =~= before.push(e));
                    }
                }
                i += 1;
            }
            r
        },
        None => r,
    }
}

/// The functions of the text of a dump, in order: those whose names
/// contain the filter. The text must be a JSON document.
pub fn extract_functions_from_text(text: &str, filter: Option<&str>) -> (r: Result<
    Vec<FunctionInfo>,
    JsonError,
>)
    ensures
        match (r, json_document(text@)) {
            (Ok(v), Some(mir)) => functions_view(v@) == functions_of(mir, opt_view(filter)),
            (Err(e), None) => e == JsonError::Malformed,
            _ => false,
        },
{
    match parse_json(text) {
        Ok(mir) => Ok(extract_functions(&mir, filter)),
        Err(e) => Err(e),
    }
}

/// Rust functions do not throw, and a filter only leaves functions out.
pub proof fn law_filter_selects(
    v: Seq<JsonView>,
    n: nat,
    filter: Option<Seq<char>>,
    adts: Seq<(Seq<char>, TypeView)>,
)
    ensures
        mir_functions(v, n, filter, adts) == mir_functions(v, n, None, adts).filter(
            |f: FunctionView| wanted(f.name, filter),
        ),
        forall|i: int|
            0 <= i < mir_functions(v, n, filter, adts).len() ==> !(#[trigger] mir_functions(
                v,
                n,
                filter,
                adts,
            )[i]).can_throw,
    decreases n,
{
    let keep = |f: FunctionView| wanted(f.name, filter);
    reveal(Seq::filter);
    if n > 0 {
        law_filter_selects(v, (n - 1) as nat, filter, adts);
        let rest = mir_functions(v, (n - 1) as nat, None, adts);
        if let Some(f) = mir_function(v[n - 1], adts) {
            assert(rest.push(f).drop_last() =~= rest);
        }
    }
}

/// The size in bytes above which a dump is not read.
pub const MAX_MIR_FILE_SIZE: u64 = 104857600;

/// What is said of a dump that is too large.
pub open spec fn mir_size_text(path: Seq<char>, size: nat) -> Seq<char> {
    "MIR file "@ + path + " is too large ("@ + dec(size / 1048576) + " MB, limit is "@
        + dec(MAX_MIR_FILE_SIZE as nat / 1048576) + " MB). To reduce size, try:\n\n"@
        + "  1. Use --filter to process only specific functions\n\n"@
        + "  2. Build with a smaller crate scope (e.g. single lib target)\n\n"@
        + "  3. Pre-filter with: jq '.fns |= map(select(.name | test(\"pattern\")))' large.json > filtered.json"@
}

/// What is said of a dump of the given size, where it is too large.
pub fn mir_size_error(path: &str, size: u64) -> (r: Option<String>)
    ensures
        opt_string(r) == if size > MAX_MIR_FILE_SIZE {
            Some(mir_size_text(path@, size as nat))
        } else {
            None
        },
{
    if size <= MAX_MIR_FILE_SIZE {
        return None;
    }
    let mut r = String::new();
    put3(&mut r, "MIR file ", path, " is too large (");
    put_dec(&mut r, (size / 1048576) as u128);
    put(&mut r, " MB, limit is ");
    put_dec(&mut r, (MAX_MIR_FILE_SIZE / 1048576) as u128);
    put(&mut r, " MB). To reduce size, try:\n\n");
    put(&mut r, "  1. Use --filter to process only specific functions\n\n");
    put(&mut r, "  2. Build with a smaller crate scope (e.g. single lib target)\n\n");
    put(
        &mut r,
        "  3. Pre-filter with: jq '.fns |= map(select(.name | test(\"pattern\")))' large.json > filtered.json",
    );
    Some(r)
}

} // verus!
