//! Types of LLVM IR text: struct definitions, sizes, and alignments.

use vstd::prelude::*;

use crate::constraints::{fields_view, type_view, TypeInfo, TypeView};
use crate::text::{
    CharSet, after_prefix, before_suffix, cut, dec, ends, ends_with, from_chars, group_append,
    group_views, lemma_find_from, lemma_retreat, lemma_skip, lines, lines_of, opt_pair, owned,
    parse_bounded, parsed, put, put_dec, same, split_once, starts, starts_with, strip_prefix,
    strip_suffix, to_chars, trim, trim_end, trim_set, trim_start, trim_text, trimmed, trimmed_end,
    trimmed_start, views,
};

verus! {

/// A struct definition: its field types, and whether it has no padding.
#[derive(Debug, PartialEq, Eq)]
pub struct IrStructDef {
    pub fields: Vec<String>,
    pub is_packed: bool,
}

/// What a struct definition says.
pub ghost struct DefView {
    pub fields: Seq<Seq<char>>,
    pub is_packed: bool,
}

impl View for IrStructDef {
    type V = DefView;

    open spec fn view(&self) -> DefView {
        DefView { fields: views(self.fields@), is_packed: self.is_packed }
    }
}

/// Why a type cannot be laid out.
#[derive(Debug, Clone, Copy, PartialEq, Eq, Structural)]
pub enum IrError {
    /// A struct holds itself, directly or through others.
    EndlessStruct,
    /// A size exceeds the address space.
    SizeTooLarge,
}

pub open spec fn defs_view(v: Seq<(String, IrStructDef)>) -> Seq<(Seq<char>, DefView)> {
    Seq::new(v.len(), |i: int| (v[i].0@, v[i].1@))
}

/// The definition of a name among the first `n`: the last one counts.
pub open spec fn def_of(defs: Seq<(Seq<char>, DefView)>, name: Seq<char>, n: int) -> Option<DefView>
    decreases n,
{
    if n <= 0 || n > defs.len() {
        None
    } else if defs[n - 1].0 == name {
        Some(defs[n - 1].1)
    } else {
        def_of(defs, name, n - 1)
    }
}

pub open spec fn opt_def(o: Option<&IrStructDef>) -> Option<DefView> {
    match o {
        Some(d) => Some(d@),
        None => None,
    }
}

/// The definition of a name.
pub fn find_def<'a>(defs: &'a [(String, IrStructDef)], name: &str) -> (r: Option<&'a IrStructDef>)
    ensures
        opt_def(r) == def_of(defs_view(defs@), name@, defs@.len() as int),
{
    let ghost v = defs_view(defs@);
    let mut n: usize = defs.len();
    while n > 0
        invariant
            v == defs_view(defs@),
            n <= defs@.len(),
            def_of(v, name@, defs@.len() as int) == def_of(v, name@, n as int),
        decreases n,
    {
        assert(v[n - 1] == (defs@[n - 1].0@, defs@[n - 1].1@));
        if same(defs[n - 1].0.as_str(), name) {
            return Some(&defs[n - 1].1);
        }
        n -= 1;
    }
    None
}

// ---------------------------------------------------------------------
// Lists
// ---------------------------------------------------------------------

/// The nesting depth behind the character `c`.
pub open spec fn nesting_after(c: char, depth: int) -> int {
    if c == '{' || c == '<' || c == '(' {
        depth + 1
    } else if c == '}' || c == '>' || c == ')' {
        depth - 1
    } else {
        depth
    }
}

/// The items of a list, the current one having begun at `start`: commas
/// outside brackets part them. A blank item at the end is none.
pub open spec fn items_from(s: Seq<char>, start: int, i: int, depth: int) -> Seq<Seq<char>>
    decreases s.len() - i,
{
    if i < 0 || i >= s.len() {
        let last = trim_text(s.subrange(start, s.len() as int));
        if last.len() == 0 {
            Seq::empty()
        } else {
            seq![last]
        }
    } else if s[i] == ',' && depth == 0 {
        seq![trim_text(s.subrange(start, i))] + items_from(s, i + 1, i + 1, depth)
    } else {
        items_from(s, start, i + 1, nesting_after(s[i], depth))
    }
}

/// The items of a list.
pub open spec fn list_items(s: Seq<char>) -> Seq<Seq<char>> {
    items_from(s, 0, 0, 0)
}

/// Splits a list at the commas outside brackets.
pub fn split_ir_params(s: &str) -> (r: Vec<String>)
    ensures
        views(r@) == list_items(s@),
{
    broadcast use {group_append, group_views};
    let cs = to_chars(s);
    let n: usize = cs.len();
    let mut r: Vec<String> = Vec::new();
    let mut start: usize = 0;
    let mut i: usize = 0;
    let mut depth: i128 = 0;
    assert(views(r@) + items_from(s@, 0, 0, 0) =~= list_items(s@));
    while i < n
        invariant
            cs@ == s@,
            n == cs@.len(),
            start <= i <= n,
            -(i as int) <= depth <= i,
            views(r@) + items_from(s@, start as int, i as int, depth as int) == list_items(s@),
        decreases n - i,
    {
        let c: char = cs[i];
        if c == ',' && depth == 0 {
            let item = from_chars(&cs, start, i);
            r.push(owned(trim(item.as_str())));
            start = i + 1;
            assert(views(r@) + items_from(s@, i + 1, i + 1, depth as int) =~= list_items(s@));
        } else if c == '{' || c == '<' || c == '(' {
            depth += 1;
        } else if c == '}' || c == '>' || c == ')' {
            depth -= 1;
        }
        i += 1;
    }
    let item = from_chars(&cs, start, n);
    let last = trim(item.as_str());
    if !last.is_empty() {
        r.push(owned(last));
    }
    assert(views(r@) =~= list_items(s@));
    r
}

// ---------------------------------------------------------------------
// Struct definitions
// ---------------------------------------------------------------------

/// What stands between the braces of a struct type, and whether it is
/// packed.
pub open spec fn struct_body(body: Seq<char>) -> Option<(bool, Seq<char>)> {
    match after_prefix(body, "<{"@) {
        Some(rest) => match before_suffix(rest, "}>"@) {
            Some(inner) => Some((true, inner)),
            None => None,
        },
        None => match after_prefix(body, "{"@) {
            Some(rest) => match before_suffix(rest, "}"@) {
                Some(inner) => Some((false, inner)),
                None => None,
            },
            None => None,
        },
    }
}

/// The texts that are not empty.
pub open spec fn nonempty(v: Seq<Seq<char>>) -> Seq<Seq<char>>
    decreases v.len(),
{
    if v.len() == 0 {
        Seq::empty()
    } else if v.last().len() == 0 {
        nonempty(v.drop_last())
    } else {
        nonempty(v.drop_last()).push(v.last())
    }
}

/// The struct definition that a line holds.
pub open spec fn def_in(line: Seq<char>) -> Option<(Seq<char>, DefView)> {
    match cut(trim_text(line), " = type "@) {
        Some((left, right)) => if starts(trim_text(left), "%"@) {
            match struct_body(trim_text(right)) {
                Some((is_packed, inner)) => Some(
                    (
                        trim_text(left),
                        DefView { fields: nonempty(list_items(inner)), is_packed },
                    ),
                ),
                None => None,
            }
        } else {
            None
        },
        None => None,
    }
}

/// The struct definitions of the lines, in order.
pub open spec fn defs_in(lines: Seq<Seq<char>>) -> Seq<(Seq<char>, DefView)>
    decreases lines.len(),
{
    if lines.len() == 0 {
        Seq::empty()
    } else {
        match def_in(lines.last()) {
            Some(d) => defs_in(lines.drop_last()).push(d),
            None => defs_in(lines.drop_last()),
        }
    }
}

fn read_struct_body(body: &str) -> (r: Option<(bool, &str)>)
    ensures
        match r {
            Some((p, inner)) => struct_body(body@) == Some((p, inner@)),
            None => struct_body(body@) is None,
        },
{
    match strip_prefix(body, "<{") {
        Some(rest) => match strip_suffix(rest, "}>") {
            Some(inner) => Some((true, inner)),
            None => None,
        },
        None => match strip_prefix(body, "{") {
            Some(rest) => match strip_suffix(rest, "}") {
                Some(inner) => Some((false, inner)),
                None => None,
            },
            None => None,
        },
    }
}

fn keep_nonempty(v: Vec<String>) -> (r: Vec<String>)
    ensures
        views(r@) == nonempty(views(v@)),
{
    broadcast use {group_append, group_views};
    let ghost all = views(v@);
    let mut r: Vec<String> = Vec::new();
    let mut i: usize = 0;
    assert(all.take(0) =~= Seq::empty());
    while i < v.len()
        invariant
            all == views(v@),
            i <= v@.len(),
            views(r@) == nonempty(all.take(i as int)),
        decreases v@.len() - i,
    {
        assert(all.take(i + 1).drop_last() =~= all.take(i as int));
        assert(all.take(i + 1).last() == v@[i as int]@);
        if !v[i].as_str().is_empty() {
            r.push(v[i].clone());
        }
        i += 1;
    }
    assert(all.take(all.len() as int) =~= all);
    r
}

/// The struct definition that a line holds.
pub fn parse_struct_type(line: &str) -> (r: Option<(String, IrStructDef)>)
    ensures
        match r {
            Some((n, d)) => def_in(line@) == Some((n@, d@)),
            None => def_in(line@) is None,
        },
{
    match split_once(trim(line), " = type ") {
        Some((left, right)) => {
            let name = trim(left);
            if !starts_with(name, "%") {
                return None;
            }
            match read_struct_body(trim(right)) {
                Some((is_packed, inner)) => Some(
                    (
                        owned(name),
                        IrStructDef { fields: keep_nonempty(split_ir_params(inner)), is_packed },
                    ),
                ),
                None => None,
            }
        },
        None => None,
    }
}

/// The struct definitions of IR text.
pub fn parse_struct_types(ir: &str) -> (r: Vec<(String, IrStructDef)>)
    ensures
        defs_view(r@) == defs_in(lines_of(ir@)),
{
    broadcast use {group_append, group_views};
    let all = lines(ir);
    let ghost v = views(all@);
    let mut r: Vec<(String, IrStructDef)> = Vec::new();
    let mut i: usize = 0;
    assert(v.take(0) =~= Seq::empty());
    assert(defs_view(r@) =~= Seq::empty());
    while i < all.len()
        invariant
            v == views(all@),
            i <= all@.len(),
            defs_view(r@) == defs_in(v.take(i as int)),
        decreases all@.len() - i,
    {
        assert(v.take(i + 1).drop_last() =~= v.take(i as int));
        assert(v.take(i + 1).last() == all@[i as int]@);
        if let Some(d) = parse_struct_type(all[i].as_str()) {
            let ghost before = defs_view(r@);
            let ghost e = (d.0@, d.1@);
            r.push(d);
            assert(defs_view(r@) =~= before.push(e));
        }
        i += 1;
    }
    assert(v.take(v.len() as int) =~= v);
    r
}

// ---------------------------------------------------------------------
// Sizes
// ---------------------------------------------------------------------

/// The count and the element type of an array type.
pub open spec fn array_parts(t: Seq<char>) -> Option<(Seq<char>, Seq<char>)> {
    match after_prefix(t, "["@) {
        Some(rest) => match cut(rest, " x "@) {
            Some((count, inner)) => match before_suffix(inner, "]"@) {
                Some(elem) => Some((count, elem)),
                None => None,
            },
            None => None,
        },
        None => None,
    }
}

/// Trimming does not lengthen a text.
pub proof fn lemma_trim_len(s: Seq<char>, set: CharSet)
    ensures
        trimmed_start(s, set).len() <= s.len(),
        trimmed_end(s, set).len() <= s.len(),
        trimmed(s, set).len() <= s.len(),
{
    lemma_skip(s, set, 0);
    lemma_retreat(s, set, s.len() as int);
    let t = trimmed_start(s, set);
    lemma_retreat(t, set, t.len() as int);
}

/// The element type is shorter than the array type.
pub proof fn lemma_array_parts(t: Seq<char>)
    ensures
        array_parts(t) matches Some((count, elem)) ==> elem.len() < t.len(),
{
    reveal_strlit("[");
    reveal_strlit(" x ");
    reveal_strlit("]");
    if let Some(rest) = after_prefix(t, "["@) {
        lemma_find_from(rest, " x "@, 0);
    }
}

/// The size of a scalar type; a pointer has eight bytes.
pub open spec fn scalar_size(t: Seq<char>) -> Option<nat> {
    if t == "void"@ {
        Some(0)
    } else if t == "i1"@ || t == "i8"@ {
        Some(1)
    } else if t == "i16"@ {
        Some(2)
    } else if t == "i32"@ || t == "float"@ {
        Some(4)
    } else if t == "i64"@ || t == "double"@ || t == "ptr"@ {
        Some(8)
    } else if t == "i128"@ {
        Some(16)
    } else if ends(t, "*"@) {
        Some(8)
    } else {
        None
    }
}

/// The size of a type in bytes; `None` where it is not known. At most
/// `left` definitions may be nested in one another: where there are no
/// more of them, a longer nesting repeats one and does not end.
pub open spec fn size_of(ty: Seq<char>, defs: Seq<(Seq<char>, DefView)>, left: nat) -> Result<
    Option<nat>,
    IrError,
>
    decreases left, 0int, ty.len(),
{
    let t = trim_text(ty);
    if scalar_size(t) is Some {
        Ok(scalar_size(t))
    } else if starts(t, "["@) {
        match array_parts(t) {
            Some((count, elem)) => match parsed(trim_text(count), usize::MAX as nat) {
                Some(n) => {
                    proof {
                        lemma_array_parts(t);
                        lemma_trim_len(ty, CharSet::Space);
                        lemma_trim_len(elem, CharSet::Space);
                    }
                    match size_of(trim_text(elem), defs, left) {
                        Ok(Some(size)) => if n * size <= usize::MAX {
                            Ok(Some((n * size) as nat))
                        } else {
                            Err(IrError::SizeTooLarge)
                        },
                        other => other,
                    }
                },
                None => Ok(None),
            },
            None => Ok(None),
        }
    } else if starts(t, "%"@) {
        match def_of(defs, t, defs.len() as int) {
            Some(def) => if left == 0 {
                Err(IrError::EndlessStruct)
            } else {
                struct_size(def, defs, (left - 1) as nat)
            },
            None => Ok(None),
        }
    } else {
        Ok(None)
    }
}

/// The alignment of a scalar type.
pub open spec fn scalar_align(t: Seq<char>) -> Option<nat> {
    if t == "void"@ {
        Some(1)
    } else {
        scalar_size(t)
    }
}

/// The alignment of a type; `None` where it is not known.
pub open spec fn align_of(ty: Seq<char>, defs: Seq<(Seq<char>, DefView)>, left: nat) -> Result<
    Option<nat>,
    IrError,
>
    decreases left, 0int, ty.len(),
{
    let t = trim_text(ty);
    if scalar_align(t) is Some {
        Ok(scalar_align(t))
    } else if starts(t, "["@) {
        match array_parts(t) {
            Some((count, elem)) => {
                proof {
                    lemma_array_parts(t);
                    lemma_trim_len(ty, CharSet::Space);
                    lemma_trim_len(elem, CharSet::Space);
                }
                align_of(trim_text(elem), defs, left)
            },
            None => Ok(None),
        }
    } else if starts(t, "%"@) {
        match def_of(defs, t, defs.len() as int) {
            Some(def) => if def.is_packed {
                Ok(Some(1))
            } else if left == 0 {
                Err(IrError::EndlessStruct)
            } else {
                greatest_align(def.fields, 0, 1, defs, (left - 1) as nat)
            },
            None => Ok(None),
        }
    } else {
        Ok(None)
    }
}

/// The greatest alignment of the fields from `i` on, and of `align`.
pub open spec fn greatest_align(
    fields: Seq<Seq<char>>,
    i: int,
    align: nat,
    defs: Seq<(Seq<char>, DefView)>,
    left: nat,
) -> Result<Option<nat>, IrError>
    decreases left, 1int, fields.len() - i,
{
    if i < 0 || i >= fields.len() {
        Ok(Some(align))
    } else {
        match align_of(fields[i], defs, left) {
            Ok(Some(a)) => greatest_align(fields, i + 1, larger(align, a), defs, left),
            other => other,
        }
    }
}

pub open spec fn larger(a: nat, b: nat) -> nat {
    if a < b {
        b
    } else {
        a
    }
}

/// The least multiple of `align` from `offset` on.
pub open spec fn aligned(offset: nat, align: nat) -> nat {
    if align == 0 || offset % align == 0 {
        offset
    } else {
        (offset + align - offset % align) as nat
    }
}

/// The end of the fields from `i` on, without padding between them.
pub open spec fn packed_end(
    fields: Seq<Seq<char>>,
    i: int,
    offset: nat,
    defs: Seq<(Seq<char>, DefView)>,
    left: nat,
) -> Result<Option<nat>, IrError>
    decreases left, 1int, fields.len() - i,
{
    if i < 0 || i >= fields.len() {
        Ok(Some(offset))
    } else {
        match size_of(fields[i], defs, left) {
            Ok(Some(size)) => if offset + size <= usize::MAX {
                packed_end(fields, i + 1, offset + size, defs, left)
            } else {
                Err(IrError::SizeTooLarge)
            },
            other => other,
        }
    }
}

/// The end of the fields from `i` on, each at a multiple of its
/// alignment, and the greatest alignment.
pub open spec fn padded_end(
    fields: Seq<Seq<char>>,
    i: int,
    offset: nat,
    align: nat,
    defs: Seq<(Seq<char>, DefView)>,
    left: nat,
) -> Result<Option<(nat, nat)>, IrError>
    decreases left, 1int, fields.len() - i,
{
    if i < 0 || i >= fields.len() {
        Ok(Some((offset, align)))
    } else {
        match size_of(fields[i], defs, left) {
            Ok(Some(size)) => match align_of(fields[i], defs, left) {
                Ok(Some(a)) => if aligned(offset, a) + size <= usize::MAX {
                    padded_end(
                        fields,
                        i + 1,
                        aligned(offset, a) + size,
                        larger(align, a),
                        defs,
                        left,
                    )
                } else {
                    Err(IrError::SizeTooLarge)
                },
                Ok(None) => Ok(None),
                Err(e) => Err(e),
            },
            Ok(None) => Ok(None),
            Err(e) => Err(e),
        }
    }
}

/// The size of a struct.
pub open spec fn struct_size(def: DefView, defs: Seq<(Seq<char>, DefView)>, left: nat) -> Result<
    Option<nat>,
    IrError,
>
    decreases left, 2int, 0nat,
{
    if def.is_packed {
        packed_end(def.fields, 0, 0, defs, left)
    } else {
        match padded_end(def.fields, 0, 0, 1, defs, left) {
            Ok(Some((offset, align))) => if aligned(offset, align) <= usize::MAX {
                Ok(Some(aligned(offset, align)))
            } else {
                Err(IrError::SizeTooLarge)
            },
            Ok(None) => Ok(None),
            Err(e) => Err(e),
        }
    }
}

/// A size as a mathematical number.
pub open spec fn size_view(r: Result<Option<usize>, IrError>) -> Result<Option<nat>, IrError> {
    match r {
        Ok(Some(n)) => Ok(Some(n as nat)),
        Ok(None) => Ok(None),
        Err(e) => Err(e),
    }
}

fn read_scalar_size(t: &str) -> (r: Option<usize>)
    ensures
        match r {
            Some(n) => scalar_size(t@) == Some(n as nat),
            None => scalar_size(t@) is None,
        },
{
    if same(t, "void") {
        Some(0)
    } else if same(t, "i1") || same(t, "i8") {
        Some(1)
    } else if same(t, "i16") {
        Some(2)
    } else if same(t, "i32") || same(t, "float") {
        Some(4)
    } else if same(t, "i64") || same(t, "double") || same(t, "ptr") {
        Some(8)
    } else if same(t, "i128") {
        Some(16)
    } else if ends_with(t, "*") {
        Some(8)
    } else {
        None
    }
}

fn read_array_parts(t: &str) -> (r: Option<(&str, &str)>)
    ensures
        opt_pair(r) == array_parts(t@),
{
    match strip_prefix(t, "[") {
        Some(rest) => match split_once(rest, " x ") {
            Some((count, inner)) => match strip_suffix(inner, "]") {
                Some(elem) => Some((count, elem)),
                None => None,
            },
            None => None,
        },
        None => None,
    }
}

fn read_usize(s: &str) -> (r: Option<usize>)
    ensures
        match r {
            Some(n) => parsed(s@, usize::MAX as nat) == Some(n as nat),
            None => parsed(s@, usize::MAX as nat) is None,
        },
{
    match parse_bounded(s, usize::MAX as u64) {
        Some(n) => Some(n as usize),
        None => None,
    }
}

fn measure(ty: &str, defs: &[(String, IrStructDef)], left: usize) -> (r: Result<
    Option<usize>,
    IrError,
>)
    ensures
        size_view(r) == size_of(ty@, defs_view(defs@), left as nat),
    decreases left, 0int, ty@.len(),
{
    let t = trim(ty);
    if let Some(n) = read_scalar_size(t) {
        return Ok(Some(n));
    }
    if starts_with(t, "[") {
        match read_array_parts(t) {
            Some((count, elem)) => match read_usize(trim(count)) {
                Some(n) => {
                    proof {
                        lemma_array_parts(t@);
                        lemma_trim_len(ty@, CharSet::Space);
                        lemma_trim_len(elem@, CharSet::Space);
                    }
                    match measure(trim(elem), defs, left) {
                        Ok(Some(size)) => match n.checked_mul(size) {
                            Some(p) => Ok(Some(p)),
                            None => Err(IrError::SizeTooLarge),
                        },
                        other => other,
                    }
                },
                None => Ok(None),
            },
            None => Ok(None),
        }
    } else if starts_with(t, "%") {
        match find_def(defs, t) {
            Some(def) => if left == 0 {
                Err(IrError::EndlessStruct)
            } else {
                measure_struct(def, defs, left - 1)
            },
            None => Ok(None),
        }
    } else {
        Ok(None)
    }
}

fn measure_align(ty: &str, defs: &[(String, IrStructDef)], left: usize) -> (r: Result<
    Option<usize>,
    IrError,
>)
    ensures
        size_view(r) == align_of(ty@, defs_view(defs@), left as nat),
    decreases left, 0int, ty@.len(),
{
    let t = trim(ty);
    if same(t, "void") {
        return Ok(Some(1));
    }
    if let Some(n) = read_scalar_size(t) {
        return Ok(Some(n));
    }
    if starts_with(t, "[") {
        match read_array_parts(t) {
            Some((_, elem)) => {
                proof {
                    lemma_array_parts(t@);
                    lemma_trim_len(ty@, CharSet::Space);
                    lemma_trim_len(elem@, CharSet::Space);
                }
                measure_align(trim(elem), defs, left)
            },
            None => Ok(None),
        }
    } else if starts_with(t, "%") {
        match find_def(defs, t) {
            Some(def) => if def.is_packed {
                Ok(Some(1))
            } else if left == 0 {
                Err(IrError::EndlessStruct)
            } else {
                let mut align: usize = 1;
                let mut i: usize = 0;
                let ghost d = defs_view(defs@);
                let ghost want = greatest_align(def@.fields, 0, 1, d, (left - 1) as nat);
                while i < def.fields.len()
                    invariant
                        d == defs_view(defs@),
                        left > 0,
                        i <= def.fields@.len(),
                        want == greatest_align(
                            def@.fields,
                            i as int,
                            align as nat,
                            d,
                            (left - 1) as nat,
                        ),
                        want == align_of(ty@, d, left as nat),
                    decreases def.fields@.len() - i,
                {
                    assert(def@.fields[i as int] == def.fields@[i as int]@);
                    match measure_align(def.fields[i].as_str(), defs, left - 1) {
                        Ok(Some(a)) => {
                            if align < a {
                                align = a;
                            }
                        },
                        other => {
                            return other;
                        },
                    }
                    i += 1;
                }
                Ok(Some(align))
            },
            None => Ok(None),
        }
    } else {
        Ok(None)
    }
}

fn align_up(offset: usize, align: usize) -> (r: Option<usize>)
    ensures
        match r {
            Some(n) => n == aligned(offset as nat, align as nat),
            None => aligned(offset as nat, align as nat) > usize::MAX,
        },
{
    if align == 0 {
        return Some(offset);
    }
    let rest: usize = offset % align;
    if rest == 0 {
        Some(offset)
    } else {
        offset.checked_add(align - rest)
    }
}

fn measure_struct(def: &IrStructDef, defs: &[(String, IrStructDef)], left: usize) -> (r: Result<
    Option<usize>,
    IrError,
>)
    ensures
        size_view(r) == struct_size(def@, defs_view(defs@), left as nat),
    decreases left, 2int, 0nat,
{
    let ghost d = defs_view(defs@);
    let ghost want = struct_size(def@, d, left as nat);
    let mut offset: usize = 0;
    let mut align: usize = 1;
    let mut i: usize = 0;
    while i < def.fields.len()
        invariant
            d == defs_view(defs@),
            want == struct_size(def@, d, left as nat),
            i <= def.fields@.len(),
            def.is_packed ==> packed_end(def@.fields, 0, 0, d, left as nat) == packed_end(
                def@.fields,
                i as int,
                offset as nat,
                d,
                left as nat,
            ),
            !def.is_packed ==> padded_end(def@.fields, 0, 0, 1, d, left as nat) == padded_end(
                def@.fields,
                i as int,
                offset as nat,
                align as nat,
                d,
                left as nat,
            ),
        decreases def.fields@.len() - i,
    {
        assert(def@.fields[i as int] == def.fields@[i as int]@);
        let field = def.fields[i].as_str();
        let size: usize = match measure(field, defs, left) {
            Ok(Some(n)) => n,
            other => {
                return other;
            },
        };
        if !def.is_packed {
            let a: usize = match measure_align(field, defs, left) {
                Ok(Some(a)) => a,
                other => {
                    return other;
                },
            };
            match align_up(offset, a) {
                Some(o) => {
                    offset = o;
                },
                None => {
                    return Err(IrError::SizeTooLarge);
                },
            }
            if align < a {
                align = a;
            }
        }
        match offset.checked_add(size) {
            Some(o) => {
                offset = o;
            },
            None => {
                return Err(IrError::SizeTooLarge);
            },
        }
        i += 1;
    }
    if def.is_packed {
        Ok(Some(offset))
    } else {
        match align_up(offset, align) {
            Some(n) => Ok(Some(n)),
            None => Err(IrError::SizeTooLarge),
        }
    }
}

/// The size of a type in bytes; `None` where it is not known.
pub fn compute_ir_type_size(ty: &str, defs: &[(String, IrStructDef)]) -> (r: Option<usize>)
    requires
        size_of(ty@, defs_view(defs@), defs@.len()) is Ok,
    ensures
        size_view(Ok(r)) == size_of(ty@, defs_view(defs@), defs@.len()),
{
    match measure(ty, defs, defs.len()) {
        Ok(r) => r,
        Err(_) => None,
    }
}

/// The size of a struct; `None` where that of a field is not known.
pub fn compute_struct_size(def: &IrStructDef, defs: &[(String, IrStructDef)]) -> (r: Option<usize>)
    requires
        struct_size(def@, defs_view(defs@), defs@.len()) is Ok,
    ensures
        size_view(Ok(r)) == struct_size(def@, defs_view(defs@), defs@.len()),
{
    match measure_struct(def, defs, defs.len()) {
        Ok(r) => r,
        Err(_) => None,
    }
}

/// The alignment of a type; `None` where it is not known.
pub fn type_alignment(ty: &str, defs: &[(String, IrStructDef)]) -> (r: Option<usize>)
    requires
        align_of(ty@, defs_view(defs@), defs@.len()) is Ok,
    ensures
        size_view(Ok(r)) == align_of(ty@, defs_view(defs@), defs@.len()),
{
    match measure_align(ty, defs, defs.len()) {
        Ok(r) => r,
        Err(_) => None,
    }
}

/// A struct with padding takes a multiple of its alignment.
pub proof fn law_struct_size_is_aligned(
    def: DefView,
    defs: Seq<(Seq<char>, DefView)>,
    left: nat,
    size: nat,
    align: nat,
)
    requires
        !def.is_packed,
        struct_size(def, defs, left) == Ok::<Option<nat>, IrError>(Some(size)),
        greatest_align(def.fields, 0, 1, defs, left) == Ok::<Option<nat>, IrError>(Some(align)),
    ensures
        align > 0,
        size % align == 0,
{
    lemma_same_align(def.fields, 0, 0, 1, defs, left);
    let (offset, a) = end_and_align(padded_end(def.fields, 0, 0, 1, defs, left));
    assert(a == align);
    lemma_aligned(offset, align);
}

pub open spec fn end_and_align(r: Result<Option<(nat, nat)>, IrError>) -> (nat, nat) {
    match r {
        Ok(Some(p)) => p,
        _ => (0, 0),
    }
}

pub proof fn lemma_aligned(offset: nat, align: nat)
    requires
        align > 0,
    ensures
        aligned(offset, align) % align == 0,
{
    let m = offset % align;
    if m != 0 {
        vstd::arithmetic::div_mod::lemma_fundamental_div_mod(offset as int, align as int);
        let q = offset / align;
        assert(offset + align - m == align * (q + 1)) by (nonlinear_arith)
            requires
                offset == align * q + m,
        ;
        vstd::arithmetic::div_mod::lemma_mod_multiples_basic((q + 1) as int, align as int);
        assert((q + 1) * align == align * (q + 1)) by (nonlinear_arith);
    }
}

pub proof fn lemma_same_align(
    fields: Seq<Seq<char>>,
    i: int,
    offset: nat,
    align: nat,
    defs: Seq<(Seq<char>, DefView)>,
    left: nat,
)
    requires
        align > 0,
        padded_end(fields, i, offset, align, defs, left) matches Ok(Some(_)),
    ensures
        greatest_align(fields, i, align, defs, left) == Ok::<Option<nat>, IrError>(
            Some(end_and_align(padded_end(fields, i, offset, align, defs, left)).1),
        ),
        end_and_align(padded_end(fields, i, offset, align, defs, left)).1 > 0,
    decreases fields.len() - i,
{
    if 0 <= i < fields.len() {
        let size = size_of(fields[i], defs, left)->Ok_0->0;
        let a = align_of(fields[i], defs, left)->Ok_0->0;
        lemma_same_align(
            fields,
            i + 1,
            aligned(offset, a) + size,
            larger(align, a),
            defs,
            left,
        );
    }
}

/// Packing a struct does not make it larger.
pub proof fn law_packing_saves(
    def: DefView,
    defs: Seq<(Seq<char>, DefView)>,
    left: nat,
    size: nat,
)
    requires
        !def.is_packed,
        struct_size(def, defs, left) == Ok::<Option<nat>, IrError>(Some(size)),
    ensures
        struct_size(DefView { is_packed: true, ..def }, defs, left) matches Ok(Some(n)) && n <= size,
{
    lemma_packed_end(def.fields, 0, 0, 0, 1, defs, left);
    let (offset, align) = end_and_align(padded_end(def.fields, 0, 0, 1, defs, left));
    lemma_aligned_from(offset, align);
}

proof fn lemma_aligned_from(offset: nat, align: nat)
    ensures
        aligned(offset, align) >= offset,
{
    if align > 0 {
        assert(offset % align < align);
    }
}

proof fn lemma_packed_end(
    fields: Seq<Seq<char>>,
    i: int,
    packed: nat,
    offset: nat,
    align: nat,
    defs: Seq<(Seq<char>, DefView)>,
    left: nat,
)
    requires
        packed <= offset,
        padded_end(fields, i, offset, align, defs, left) matches Ok(Some(_)),
    ensures
        packed_end(fields, i, packed, defs, left) matches Ok(Some(n)) && n <= end_and_align(
            padded_end(fields, i, offset, align, defs, left),
        ).0,
    decreases fields.len() - i,
{
    if 0 <= i < fields.len() {
        let size = size_of(fields[i], defs, left)->Ok_0->0;
        let a = align_of(fields[i], defs, left)->Ok_0->0;
        lemma_aligned_from(offset, a);
        lemma_packed_end(
            fields,
            i + 1,
            packed + size,
            aligned(offset, a) + size,
            larger(align, a),
            defs,
            left,
        );
    }
}

// ---------------------------------------------------------------------
// Types
// ---------------------------------------------------------------------

/// The name of a field of a struct.
pub open spec fn field_name(i: nat) -> Seq<char> {
    "field"@ + dec(i)
}

/// A named type: a struct where its definition is known.
pub open spec fn shown_name(t: Seq<char>) -> Seq<char> {
    trimmed(trimmed_start(t, CharSet::Is('%')), CharSet::Is('"'))
}

/// The type that IR text denotes. The stars of pointers are left out.
pub open spec fn resolved(ty: Seq<char>, defs: Seq<(Seq<char>, DefView)>, left: nat) -> Result<
    TypeView,
    IrError,
>
    decreases left, 0int, ty.len(),
{
    let t = trimmed_end(trim_text(ty), CharSet::Is('*'));
    let opaque = TypeView::Opaque { name: t, size: 0 };
    if t == "void"@ {
        Ok(TypeView::Void)
    } else if t == "i1"@ {
        Ok(TypeView::Bool)
    } else if t == "i8"@ {
        Ok(TypeView::SignedInt(8))
    } else if t == "i16"@ {
        Ok(TypeView::SignedInt(16))
    } else if t == "i32"@ {
        Ok(TypeView::SignedInt(32))
    } else if t == "i64"@ {
        Ok(TypeView::SignedInt(64))
    } else if t == "i128"@ {
        Ok(TypeView::SignedInt(128))
    } else if t == "ptr"@ {
        Ok(TypeView::Pointer(Box::new(TypeView::UnsignedInt(8))))
    } else if starts(t, "["@) {
        match array_parts(t) {
            Some((count, elem)) => match parsed(count, usize::MAX as nat) {
                Some(n) => {
                    proof {
                        lemma_array_parts(t);
                        lemma_trim_len(ty, CharSet::Space);
                        lemma_trim_len(trim_text(ty), CharSet::Is('*'));
                    }
                    match resolved(elem, defs, left) {
                        Ok(TypeView::SignedInt(8)) => Ok(TypeView::ByteArray(n as usize)),
                        Ok(TypeView::UnsignedInt(8)) => Ok(TypeView::ByteArray(n as usize)),
                        Ok(_) => Ok(opaque),
                        Err(e) => Err(e),
                    }
                },
                None => Ok(opaque),
            },
            None => Ok(opaque),
        }
    } else if starts(t, "%"@) {
        match def_of(defs, t, defs.len() as int) {
            Some(def) => if left == 0 {
                Err(IrError::EndlessStruct)
            } else {
                match struct_size(def, defs, (left - 1) as nat) {
                    Ok(size) => match resolved_fields(
                        def.fields,
                        def.fields.len(),
                        defs,
                        (left - 1) as nat,
                    ) {
                        Ok(fields) => Ok(
                            TypeView::Struct {
                                name: shown_name(t),
                                size: match size {
                                    Some(n) => Some(n as usize),
                                    None => None,
                                },
                                fields,
                            },
                        ),
                        Err(e) => Err(e),
                    },
                    Err(e) => Err(e),
                }
            },
            None => Ok(TypeView::Opaque { name: shown_name(t), size: 0 }),
        }
    } else {
        Ok(opaque)
    }
}

/// The first `n` fields with their types.
pub open spec fn resolved_fields(
    fields: Seq<Seq<char>>,
    n: nat,
    defs: Seq<(Seq<char>, DefView)>,
    left: nat,
) -> Result<Seq<(Seq<char>, TypeView)>, IrError>
    decreases left, 1int, n,
{
    if n == 0 {
        Ok(Seq::empty())
    } else {
        match resolved_fields(fields, (n - 1) as nat, defs, left) {
            Ok(rest) => match resolved(fields[n - 1], defs, left) {
                Ok(ty) => Ok(rest.push((field_name((n - 1) as nat), ty))),
                Err(e) => Err(e),
            },
            Err(e) => Err(e),
        }
    }
}

/// A resolved type, apart from how it is stored.
pub open spec fn type_result(r: Result<TypeInfo, IrError>) -> Result<TypeView, IrError> {
    match r {
        Ok(t) => Ok(t@),
        Err(e) => Err(e),
    }
}

fn opaque_type(name: &str) -> (r: TypeInfo)
    ensures
        r@ == (TypeView::Opaque { name: name@, size: 0 }),
{
    TypeInfo::Opaque { name: owned(name), size_bytes: 0 }
}

fn make_field_name(i: usize) -> (r: String)
    ensures
        r@ == field_name(i as nat),
{
    broadcast use {group_append, group_views};
    let mut r = String::new();
    put(&mut r, "field");
    put_dec(&mut r, i as u128);
    r
}

proof fn lemma_fields_prefix(a: Seq<(String, TypeInfo)>, b: Seq<(String, TypeInfo)>, n: nat)
    requires
        n <= a.len(),
        n <= b.len(),
        a.take(n as int) =~= b.take(n as int),
    ensures
        fields_view(a, n) == fields_view(b, n),
    decreases n,
{
    if n > 0 {
        assert(a.take(n as int)[n - 1] == b.take(n as int)[n - 1]);
        assert(a.take(n - 1) =~= a.take(n as int).take(n - 1));
        assert(b.take(n - 1) =~= b.take(n as int).take(n - 1));
        lemma_fields_prefix(a, b, (n - 1) as nat);
    }
}

proof fn lemma_errors_stay(
    fields: Seq<Seq<char>>,
    i: nat,
    n: nat,
    defs: Seq<(Seq<char>, DefView)>,
    left: nat,
)
    requires
        i <= n,
        resolved_fields(fields, i, defs, left) is Err,
    ensures
        resolved_fields(fields, n, defs, left) == resolved_fields(fields, i, defs, left),
    decreases n,
{
    if i < n {
        lemma_errors_stay(fields, i, (n - 1) as nat, defs, left);
    }
}

fn resolve_fields(fields: &Vec<String>, defs: &[(String, IrStructDef)], left: usize) -> (r: Result<
    Vec<(String, TypeInfo)>,
    IrError,
>)
    ensures
        match r {
            Ok(v) => resolved_fields(views(fields@), fields@.len(), defs_view(defs@), left as nat)
                == Ok::<Seq<(Seq<char>, TypeView)>, IrError>(fields_view(v@, v@.len())),
            Err(e) => resolved_fields(views(fields@), fields@.len(), defs_view(defs@), left as nat)
                == Err::<Seq<(Seq<char>, TypeView)>, IrError>(e),
        },
    decreases left, 1int, fields@.len(),
{
    let ghost d = defs_view(defs@);
    let ghost f = views(fields@);
    let mut r: Vec<(String, TypeInfo)> = Vec::new();
    let mut i: usize = 0;
    while i < fields.len()
        invariant
            d == defs_view(defs@),
            f == views(fields@),
            i <= fields@.len(),
            r@.len() == i,
            resolved_fields(f, i as nat, d, left as nat) == Ok::<
                Seq<(Seq<char>, TypeView)>,
                IrError,
            >(fields_view(r@, r@.len())),
        decreases fields@.len() - i,
    {
        assert(f[i as int] == fields@[i as int]@);
        let ghost before = r@;
        match resolve(fields[i].as_str(), defs, left) {
            Ok(ty) => {
                r.push((make_field_name(i), ty));
                proof {
                    lemma_fields_prefix(before, r@, i as nat);
                }
            },
            Err(e) => {
                proof {
                    lemma_errors_stay(f, (i + 1) as nat, f.len(), d, left as nat);
                }
                return Err(e);
            },
        }
        i += 1;
    }
    Ok(r)
}

fn resolve(type_str: &str, defs: &[(String, IrStructDef)], left: usize) -> (r: Result<
    TypeInfo,
    IrError,
>)
    ensures
        type_result(r) == resolved(type_str@, defs_view(defs@), left as nat),
    decreases left, 0int, type_str@.len(),
{
    proof {
        reveal_with_fuel(type_view, 2);
    }
    let t = trim_end(trim(type_str), CharSet::Is('*'));
    if same(t, "void") {
        Ok(TypeInfo::Void)
    } else if same(t, "i1") {
        Ok(TypeInfo::Bool)
    } else if same(t, "i8") {
        Ok(TypeInfo::SignedInt(8))
    } else if same(t, "i16") {
        Ok(TypeInfo::SignedInt(16))
    } else if same(t, "i32") {
        Ok(TypeInfo::SignedInt(32))
    } else if same(t, "i64") {
        Ok(TypeInfo::SignedInt(64))
    } else if same(t, "i128") {
        Ok(TypeInfo::SignedInt(128))
    } else if same(t, "ptr") {
        Ok(TypeInfo::Pointer(Box::new(TypeInfo::UnsignedInt(8))))
    } else if starts_with(t, "[") {
        match read_array_parts(t) {
            Some((count, elem)) => match read_usize(count) {
                Some(n) => {
                    proof {
                        lemma_array_parts(t@);
                        lemma_trim_len(type_str@, CharSet::Space);
                        lemma_trim_len(trim_text(type_str@), CharSet::Is('*'));
                    }
                    match resolve(elem, defs, left) {
                        Ok(TypeInfo::SignedInt(8)) => Ok(TypeInfo::ByteArray(n)),
                        Ok(TypeInfo::UnsignedInt(8)) => Ok(TypeInfo::ByteArray(n)),
                        Ok(_) => Ok(opaque_type(t)),
                        Err(e) => Err(e),
                    }
                },
                None => Ok(opaque_type(t)),
            },
            None => Ok(opaque_type(t)),
        }
    } else if starts_with(t, "%") {
        let name = trim_set(trim_start(t, CharSet::Is('%')), CharSet::Is('"'));
        match find_def(defs, t) {
            Some(def) => {
                if left == 0 {
                    return Err(IrError::EndlessStruct);
                }
                let size_bytes = match measure_struct(def, defs, left - 1) {
                    Ok(s) => s,
                    Err(e) => {
                        return Err(e);
                    },
                };
                match resolve_fields(&def.fields, defs, left - 1) {
                    Ok(fields) => Ok(TypeInfo::Struct { name: owned(name), size_bytes, fields }),
                    Err(e) => Err(e),
                }
            },
            None => Ok(opaque_type(name)),
        }
    } else {
        Ok(opaque_type(t))
    }
}

/// The type that IR text denotes, or why it has no layout.
pub fn resolve_ir_type(type_str: &str, defs: &[(String, IrStructDef)]) -> (r: Result<
    TypeInfo,
    IrError,
>)
    ensures
        type_result(r) == resolved(type_str@, defs_view(defs@), defs@.len()),
{
    resolve(type_str, defs, defs.len())
}

/// The type that IR text denotes.
pub fn parse_ir_type_resolved(type_str: &str, defs: &[(String, IrStructDef)]) -> (r: TypeInfo)
    requires
        resolved(type_str@, defs_view(defs@), defs@.len()) is Ok,
    ensures
        resolved(type_str@, defs_view(defs@), defs@.len()) == Ok::<TypeView, IrError>(r@),
{
    match resolve(type_str, defs, defs.len()) {
        Ok(t) => t,
        Err(_) => TypeInfo::Void,
    }
}

} // verus!
