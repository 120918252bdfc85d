//! How a compiled Rust function returns its result.

use vstd::prelude::*;

use crate::constraints::{fields_view, type_view, TypeInfo, TypeView};
use crate::text::{
    CharSet, after_prefix, before_suffix, dec, ends, group_append, group_views, is_space, join,
    join_rest, joined, lemma_joined_push, lemma_pieces_of_list, lemma_trimmed_is,
    lemma_value_of_dec, pieces, put, put2, put3, put_dec, same, split, starts, starts_with,
    strip_prefix, strip_suffix, trim, trim_text, views,
};

verus! {

/// How a function returns its result.
#[derive(Debug, PartialEq, Eq)]
pub enum RustReturnKind {
    /// As an integer of the given width.
    Scalar { bits: u32 },
    /// Through a hidden pointer.
    Sret { llvm_type: String, size_bytes: usize },
    /// As a struct of integers.
    Aggregate { field_bits: Vec<u32> },
}

/// How a function returns its result, apart from how that is stored.
pub ghost enum ReturnView {
    Scalar { bits: u32 },
    Sret { llvm_type: Seq<char>, size_bytes: usize },
    Aggregate { field_bits: Seq<u32> },
}

impl View for RustReturnKind {
    type V = ReturnView;

    open spec fn view(&self) -> ReturnView {
        match *self {
            RustReturnKind::Scalar { bits } => ReturnView::Scalar { bits },
            RustReturnKind::Sret { llvm_type, size_bytes } => ReturnView::Sret {
                llvm_type: llvm_type@,
                size_bytes,
            },
            RustReturnKind::Aggregate { field_bits } => ReturnView::Aggregate {
                field_bits: field_bits@,
            },
        }
    }
}

pub open spec fn opt_kind(o: Option<RustReturnKind>) -> Option<ReturnView> {
    match o {
        Some(k) => Some(k@),
        None => None,
    }
}

/// The width of an integer type.
pub open spec fn int_width(t: TypeView) -> Option<u32> {
    match t {
        TypeView::Bool => Some(1u32),
        TypeView::SignedInt(n) => Some(n),
        TypeView::UnsignedInt(n) => Some(n),
        _ => None,
    }
}

/// The width of an integer type.
pub fn type_int_bits(t: &TypeInfo) -> (r: Option<u32>)
    ensures
        r == int_width(t@),
{
    match t {
        TypeInfo::Bool => Some(1),
        TypeInfo::SignedInt(n) => Some(*n),
        TypeInfo::UnsignedInt(n) => Some(*n),
        _ => None,
    }
}

/// The widths of the first `n` fields; `None` where one is no integer.
pub open spec fn field_widths(fields: Seq<(Seq<char>, TypeView)>, n: nat) -> Option<Seq<u32>>
    decreases n,
{
    if n == 0 {
        Some(Seq::empty())
    } else {
        match (field_widths(fields, (n - 1) as nat), int_width(fields[n - 1].1)) {
            (Some(rest), Some(w)) => Some(rest.push(w)),
            _ => None,
        }
    }
}

/// The width of an integer type of IR.
pub open spec fn ir_width(t: Seq<char>) -> Option<u32> {
    if t == "i1"@ {
        Some(1u32)
    } else if t == "i8"@ {
        Some(8u32)
    } else if t == "i16"@ {
        Some(16u32)
    } else if t == "i32"@ {
        Some(32u32)
    } else if t == "i64"@ {
        Some(64u32)
    } else {
        None
    }
}

/// The widths of the first `n` types; `None` where one is no integer.
pub open spec fn ir_widths(v: Seq<Seq<char>>, n: nat) -> Option<Seq<u32>>
    decreases n,
{
    if n == 0 {
        Some(Seq::empty())
    } else {
        match (ir_widths(v, (n - 1) as nat), ir_width(trim_text(v[n - 1]))) {
            (Some(rest), Some(w)) => Some(rest.push(w)),
            _ => None,
        }
    }
}

/// The fields of a struct type without a name.
pub open spec fn inline_fields(ty: Seq<char>) -> Option<Seq<char>> {
    match after_prefix(trim_text(ty), "{"@) {
        Some(rest) => match before_suffix(rest, "}"@) {
            Some(inner) => if trim_text(inner).len() > 0 {
                Some(trim_text(inner))
            } else {
                None
            },
            None => None,
        },
        None => None,
    }
}

/// How a struct without a name is returned: it must have fields, all of
/// them integers.
pub open spec fn inline_return(ty: Seq<char>) -> Option<ReturnView> {
    match inline_fields(ty) {
        Some(inner) => {
            let ps = pieces(inner, CharSet::Is(','));
            match ir_widths(ps, ps.len()) {
                Some(field_bits) => Some(ReturnView::Aggregate { field_bits }),
                None => None,
            }
        },
        None => None,
    }
}

/// How a result of the type is returned where no parameter holds it.
pub open spec fn direct_return(ty: TypeView) -> Option<ReturnView> {
    match ty {
        TypeView::Bool => Some(ReturnView::Scalar { bits: 1 }),
        TypeView::SignedInt(bits) => Some(ReturnView::Scalar { bits }),
        TypeView::UnsignedInt(bits) => Some(ReturnView::Scalar { bits }),
        TypeView::Struct { name, size, fields } => match field_widths(fields, fields.len()) {
            Some(field_bits) => Some(ReturnView::Aggregate { field_bits }),
            None => match size {
                Some(n) => if n > 0 {
                    Some(ReturnView::Sret { llvm_type: "%"@ + name, size_bytes: n })
                } else {
                    None
                },
                None => None,
            },
        },
        TypeView::Opaque { name, .. } => if starts(name, "{"@) {
            inline_return(name)
        } else {
            None
        },
        _ => None,
    }
}

/// How a result of the type is returned where a parameter holds it.
pub open spec fn hidden_return(ty: TypeView) -> Option<ReturnView> {
    match ty {
        TypeView::ByteArray(n) => Some(
            ReturnView::Sret { llvm_type: "["@ + dec(n as nat) + " x i8]"@, size_bytes: n },
        ),
        TypeView::Struct { name, size, .. } => Some(
            ReturnView::Sret {
                llvm_type: "%"@ + name,
                size_bytes: match size {
                    Some(n) => n,
                    None => 0,
                },
            },
        ),
        TypeView::Opaque { name, size } => Some(
            ReturnView::Sret { llvm_type: name, size_bytes: size },
        ),
        _ => None,
    }
}

fn read_ir_width(t: &str) -> (r: Option<u32>)
    ensures
        r == ir_width(t@),
{
    if same(t, "i1") {
        Some(1)
    } else if same(t, "i8") {
        Some(8)
    } else if same(t, "i16") {
        Some(16)
    } else if same(t, "i32") {
        Some(32)
    } else if same(t, "i64") {
        Some(64)
    } else {
        None
    }
}

proof fn lemma_no_widths(v: Seq<Seq<char>>, i: nat, n: nat)
    requires
        i <= n,
        ir_widths(v, i) is None,
    ensures
        ir_widths(v, n) is None,
    decreases n,
{
    if i < n {
        lemma_no_widths(v, i, (n - 1) as nat);
    }
}

fn read_ir_widths(v: &Vec<String>) -> (r: Option<Vec<u32>>)
    ensures
        match r {
            Some(w) => ir_widths(views(v@), v@.len()) == Some(w@),
            None => ir_widths(views(v@), v@.len()) is None,
        },
{
    let ghost all = views(v@);
    let mut r: Vec<u32> = Vec::new();
    let mut i: usize = 0;
    while i < v.len()
        invariant
            all == views(v@),
            i <= v@.len(),
            ir_widths(all, i as nat) == Some(r@),
        decreases v@.len() - i,
    {
        assert(all[i as int] == v@[i as int]@);
        match read_ir_width(trim(v[i].as_str())) {
            Some(w) => {
                r.push(w);
            },
            None => {
                proof {
                    lemma_no_widths(all, (i + 1) as nat, all.len());
                }
                return None;
            },
        }
        i += 1;
    }
    Some(r)
}

/// How a struct without a name is returned.
pub fn classify_inline_struct_return(type_str: &str) -> (r: Option<RustReturnKind>)
    ensures
        opt_kind(r) == inline_return(type_str@),
{
    match strip_prefix(trim(type_str), "{") {
        Some(rest) => match strip_suffix(rest, "}") {
            Some(inner) => {
                let inner = trim(inner);
                if inner.is_empty() {
                    return None;
                }
                match read_ir_widths(&split(inner, CharSet::Is(','))) {
                    Some(field_bits) => Some(RustReturnKind::Aggregate { field_bits }),
                    None => None,
                }
            },
            None => None,
        },
        None => None,
    }
}

proof fn lemma_no_field_widths(fields: Seq<(Seq<char>, TypeView)>, i: nat, n: nat)
    requires
        i <= n,
        field_widths(fields, i) is None,
    ensures
        field_widths(fields, n) is None,
    decreases n,
{
    if i < n {
        lemma_no_field_widths(fields, i, (n - 1) as nat);
    }
}

/// Each field is the one stored.
pub proof fn lemma_fields_view(fields: Seq<(String, TypeInfo)>, n: nat)
    requires
        n <= fields.len(),
    ensures
        fields_view(fields, n).len() == n,
        forall|i: int|
            0 <= i < n ==> #[trigger] fields_view(fields, n)[i] == (fields[i].0@, fields[i].1@),
    decreases n,
{
    if n > 0 {
        lemma_fields_view(fields, (n - 1) as nat);
        assert forall|i: int| 0 <= i < n implies #[trigger] fields_view(fields, n)[i] == (
            fields[i].0@,
            fields[i].1@,
        ) by {
            if i < n - 1 {
                assert(fields_view(fields, (n - 1) as nat)[i] == (fields[i].0@, fields[i].1@));
            }
        }
    }
}

fn read_field_widths(fields: &Vec<(String, TypeInfo)>) -> (r: Option<Vec<u32>>)
    ensures
        match r {
            Some(w) => field_widths(
                fields_view(fields@, fields@.len()),
                fields_view(fields@, fields@.len()).len(),
            ) == Some(w@),
            None => field_widths(
                fields_view(fields@, fields@.len()),
                fields_view(fields@, fields@.len()).len(),
            ) is None,
        },
{
    let ghost all = fields_view(fields@, fields@.len());
    proof {
        lemma_fields_view(fields@, fields@.len());
    }
    let mut r: Vec<u32> = Vec::new();
    let mut i: usize = 0;
    while i < fields.len()
        invariant
            all == fields_view(fields@, fields@.len()),
            all.len() == fields@.len(),
            forall|k: int|
                0 <= k < all.len() ==> #[trigger] all[k] == (fields@[k].0@, fields@[k].1@),
            i <= fields@.len(),
            field_widths(all, i as nat) == Some(r@),
        decreases fields@.len() - i,
    {
        assert(all[i as int] == (fields@[i as int].0@, fields@[i as int].1@));
        match type_int_bits(&fields[i].1) {
            Some(w) => {
                r.push(w);
            },
            None => {
                proof {
                    lemma_no_field_widths(all, (i + 1) as nat, all.len());
                }
                return None;
            },
        }
        i += 1;
    }
    Some(r)
}

fn struct_type_name(name: &str) -> (r: String)
    ensures
        r@ == "%"@ + name@,
{
    broadcast use {group_append, group_views};
    let mut r = String::new();
    put2(&mut r, "%", name);
    r
}

/// How a result of the type is returned where no parameter holds it;
/// `None` where the type is not handled.
pub fn classify_return(ty: &TypeInfo) -> (r: Option<RustReturnKind>)
    ensures
        opt_kind(r) == direct_return(ty@),
{
    match ty {
        TypeInfo::Bool => Some(RustReturnKind::Scalar { bits: 1 }),
        TypeInfo::SignedInt(n) => Some(RustReturnKind::Scalar { bits: *n }),
        TypeInfo::UnsignedInt(n) => Some(RustReturnKind::Scalar { bits: *n }),
        TypeInfo::Struct { name, size_bytes, fields } => {
            if let Some(field_bits) = read_field_widths(fields) {
                return Some(RustReturnKind::Aggregate { field_bits });
            }
            match size_bytes {
                Some(n) => if *n > 0 {
                    Some(
                        RustReturnKind::Sret {
                            llvm_type: struct_type_name(name.as_str()),
                            size_bytes: *n,
                        },
                    )
                } else {
                    None
                },
                None => None,
            }
        },
        TypeInfo::Opaque { name, .. } => if starts_with(name.as_str(), "{") {
            classify_inline_struct_return(name.as_str())
        } else {
            None
        },
        _ => None,
    }
}

/// How a result of the type is returned where a parameter holds it;
/// `None` where the type is not handled.
pub fn classify_sret_return(ty: &TypeInfo) -> (r: Option<RustReturnKind>)
    ensures
        opt_kind(r) == hidden_return(ty@),
{
    broadcast use {group_append, group_views};
    match ty {
        TypeInfo::ByteArray(n) => {
            let mut llvm_type = String::new();
            put(&mut llvm_type, "[");
            put_dec(&mut llvm_type, *n as u128);
            put(&mut llvm_type, " x i8]");
            Some(RustReturnKind::Sret { llvm_type, size_bytes: *n })
        },
        TypeInfo::Struct { name, size_bytes, .. } => Some(
            RustReturnKind::Sret {
                llvm_type: struct_type_name(name.as_str()),
                size_bytes: match size_bytes {
                    Some(n) => *n,
                    None => 0,
                },
            },
        ),
        TypeInfo::Opaque { name, size_bytes } => Some(
            RustReturnKind::Sret { llvm_type: name.clone(), size_bytes: *size_bytes },
        ),
        _ => None,
    }
}

/// An integer type of IR.
pub open spec fn int_type(bits: u32) -> Seq<char> {
    "i"@ + dec(bits as nat)
}

pub open spec fn int_types(v: Seq<u32>) -> Seq<Seq<char>> {
    Seq::new(v.len(), |i: int| int_type(v[i]))
}

/// The return type as IR writes it.
pub open spec fn return_ir(kind: ReturnView) -> Seq<char> {
    match kind {
        ReturnView::Scalar { bits } => int_type(bits),
        ReturnView::Sret { llvm_type, .. } => llvm_type,
        ReturnView::Aggregate { field_bits } => "{ "@ + joined(int_types(field_bits), ", "@) + " }"@,
    }
}

/// An integer type of IR.
pub fn make_int_type(bits: u32) -> (r: String)
    ensures
        r@ == int_type(bits),
{
    broadcast use {group_append, group_views};
    let mut r = String::new();
    put(&mut r, "i");
    put_dec(&mut r, bits as u128);
    r
}

fn make_int_types(v: &Vec<u32>) -> (r: Vec<String>)
    ensures
        views(r@) == int_types(v@),
{
    broadcast use {group_append, group_views};
    let mut r: Vec<String> = Vec::new();
    let mut i: usize = 0;
    while i < v.len()
        invariant
            i <= v@.len(),
            r@.len() == i,
            forall|k: int| 0 <= k < i ==> (#[trigger] r@[k])@ == int_type(v@[k]),
        decreases v@.len() - i,
    {
        r.push(make_int_type(v[i]));
        i += 1;
    }
    assert(views(r@) =~= int_types(v@));
    r
}

/// The return type as IR writes it.
pub fn format_return_llvm_type(kind: &RustReturnKind) -> (r: String)
    ensures
        r@ == return_ir(kind@),
{
    broadcast use {group_append, group_views};
    match kind {
        RustReturnKind::Scalar { bits } => make_int_type(*bits),
        RustReturnKind::Sret { llvm_type, .. } => llvm_type.clone(),
        RustReturnKind::Aggregate { field_bits } => {
            let mut r = String::new();
            put3(&mut r, "{ ", join(&make_int_types(field_bits), ", ").as_str(), " }");
            r
        },
    }
}

/// A width that an integer field of a struct without a name can have.
pub open spec fn readable_width(bits: u32) -> bool {
    bits == 1 || bits == 8 || bits == 16 || bits == 32 || bits == 64
}

/// An integer type is read as its width.
proof fn lemma_int_type_read(bits: u32)
    requires
        readable_width(bits),
    ensures
        ir_width(int_type(bits)) == Some(bits),
        int_type(bits).len() > 0,
        forall|k: int|
            0 <= k < int_type(bits).len() ==> !is_space(#[trigger] int_type(bits)[k])
                && int_type(bits)[k] != ',',
{
    reveal_strlit("i");
    reveal_strlit("i1");
    reveal_strlit("i8");
    reveal_strlit("i16");
    reveal_strlit("i32");
    reveal_strlit("i64");
    reveal_with_fuel(dec, 2);
    let d = dec(bits as nat);
    let t = int_type(bits);
    lemma_value_of_dec(bits as nat);
    assert forall|k: int| 0 <= k < t.len() implies !is_space(#[trigger] t[k]) && t[k] != ',' by {
        if k > 0 {
            assert(t[k] == d[k - 1]);
            assert(CharSet::Digit.has(d[k - 1]));
        }
    }
    assert("i1"@[1] == '1' && "i8"@[1] == '8' && "i16"@[1] == '1' && "i32"@[1] == '3' && "i64"@[1]
        == '6');
    if bits == 1 {
        assert(t =~= "i1"@);
    } else if bits == 8 {
        assert(t =~= "i8"@);
    } else if bits == 16 {
        assert(t =~= "i16"@);
    } else if bits == 32 {
        assert(t =~= "i32"@);
    } else {
        assert(t =~= "i64"@);
    }
}

/// The types of the fields are read as their widths, also behind a space.
proof fn lemma_int_types_read(ps: Seq<Seq<char>>, v: Seq<u32>, n: nat)
    requires
        n <= v.len(),
        ps.len() == v.len(),
        forall|i: int| 0 <= i < v.len() ==> readable_width(#[trigger] v[i]),
        forall|i: int|
            0 <= i < v.len() ==> (#[trigger] ps[i] == int_type(v[i]) || ps[i] == " "@ + int_type(
                v[i],
            )),
    ensures
        ir_widths(ps, n) == Some(v.take(n as int)),
    decreases n,
{
    if n > 0 {
        lemma_int_types_read(ps, v, (n - 1) as nat);
        let i: int = n - 1;
        let t = int_type(v[i]);
        lemma_int_type_read(v[i]);
        reveal_strlit(" ");
        let l: int = t.len() as int;
        let p = ps[i];
        if p == t {
            lemma_trimmed_is(p, CharSet::Space, 0, l);
            assert(p.subrange(0, l) =~= t);
        } else {
            assert(p[1] == t[0] && p[l] == t[l - 1]);
            lemma_trimmed_is(p, CharSet::Space, 1, l + 1);
            assert(p.subrange(1, l + 1) =~= t);
        }
        assert(v.take(n as int) =~= v.take(i).push(v[i]));
    } else {
        assert(v.take(0) =~= Seq::empty());
    }
}

/// The fields of a struct type without a name, as it is written.
proof fn lemma_written_fields(text: Seq<char>)
    requires
        text.len() > 0,
        !is_space(text[0]),
        !is_space(text[text.len() - 1]),
    ensures
        inline_fields("{ "@ + text + " }"@) == Some(text),
{
    reveal_strlit("{ ");
    reveal_strlit(" }");
    reveal_strlit("{");
    reveal_strlit("}");
    let l: int = text.len() as int;
    let ty = "{ "@ + text + " }"@;
    lemma_trimmed_is(ty, CharSet::Space, 0, l + 4);
    assert(ty.subrange(0, l + 4) =~= ty);
    assert(ty.subrange(0, 1) =~= "{"@);
    let rest = ty.subrange(1, l + 4);
    assert(rest.subrange(l + 2, l + 3) =~= "}"@);
    let inner = rest.subrange(0, l + 2);
    assert(inner[1] == text[0] && inner[l] == text[l - 1]);
    lemma_trimmed_is(inner, CharSet::Space, 1, l + 1);
    assert(inner.subrange(1, l + 1) =~= text);
}

/// The text of the fields begins and ends with no white space.
proof fn lemma_fields_text(v: Seq<u32>)
    requires
        v.len() > 0,
        forall|i: int| 0 <= i < v.len() ==> readable_width(#[trigger] v[i]),
    ensures
        joined(int_types(v), ", "@).len() > 0,
        !is_space(joined(int_types(v), ", "@)[0]),
        !is_space(joined(int_types(v), ", "@).last()),
{
    let ts = int_types(v);
    let j = joined(ts, ", "@);
    lemma_int_type_read(v[0]);
    lemma_int_type_read(v.last());
    assert(j[0] == ts[0][0]);
    let rest = ts.drop_last();
    assert(rest.push(ts.last()) =~= ts);
    lemma_joined_push(rest, ", "@, ts.last());
    assert(j.last() == ts.last().last());
}

/// The widths of a struct that is returned as a whole are read back from
/// its type as it is written.
pub proof fn law_aggregate_is_read_back(v: Seq<u32>)
    requires
        v.len() > 0,
        forall|i: int| 0 <= i < v.len() ==> readable_width(#[trigger] v[i]),
    ensures
        inline_return(return_ir(ReturnView::Aggregate { field_bits: v })) == Some(
            ReturnView::Aggregate { field_bits: v },
        ),
{
    let ts = int_types(v);
    let text = joined(ts, ", "@);
    lemma_fields_text(v);
    lemma_written_fields(text);
    assert forall|i: int, j: int| 0 <= i < ts.len() && 0 <= j < ts[i].len() implies #[trigger] ts[i][j]
        != ',' by {
        lemma_int_type_read(v[i]);
    }
    lemma_int_type_read(v[0]);
    assert(text.subrange(0, text.len() as int) =~= ts[0] + join_rest(ts, ", "@, 1));
    lemma_pieces_of_list(text, 0, ts[0], ts, 1);
    let ps = pieces(text, CharSet::Is(','));
    assert forall|i: int| 0 <= i < v.len() implies (#[trigger] ps[i] == int_type(v[i]) || ps[i]
        == " "@ + int_type(v[i])) by {
        if i > 0 {
            assert(ps[i] == " "@ + ts[1 + (i - 1)]);
        }
    }
    lemma_int_types_read(ps, v, v.len());
    assert(v.take(v.len() as int) =~= v);
}

proof fn lemma_widths_known(v: Seq<Seq<char>>, n: nat)
    requires
        n <= v.len(),
    ensures
        ir_widths(v, n) is Some <==> forall|i: int|
            0 <= i < n ==> ir_width(trim_text(#[trigger] v[i])) is Some,
    decreases n,
{
    if n > 0 {
        lemma_widths_known(v, (n - 1) as nat);
    }
}

/// A text is read as a struct that is returned as a whole exactly when it
/// stands in curly brackets, names fields, and each of them is an integer
/// type.
pub proof fn law_only_integers_are_returned_whole(ty: Seq<char>)
    ensures
        !starts(trim_text(ty), "{"@) || !ends(trim_text(ty), "}"@) ==> inline_return(ty) is None,
        inline_fields(ty) is None ==> inline_return(ty) is None,
        inline_fields(ty) matches Some(inner) ==> inner.len() > 0 && (inline_return(ty) is Some
            <==> forall|i: int|
            0 <= i < pieces(inner, CharSet::Is(',')).len() ==> ir_width(
                trim_text(#[trigger] pieces(inner, CharSet::Is(','))[i]),
            ) is Some),
{
    reveal_strlit("{");
    reveal_strlit("}");
    let t = trim_text(ty);
    if let Some(rest) = after_prefix(t, "{"@) {
        if ends(rest, "}"@) {
            let k: int = t.len() - 1;
            assert(t.subrange(k, k + 1) =~= rest.subrange(rest.len() - 1, rest.len() as int));
        }
    }
    if let Some(inner) = inline_fields(ty) {
        let ps = pieces(inner, CharSet::Is(','));
        lemma_widths_known(ps, ps.len());
    }
}

} // verus!
