//! Setup and postconditions of one pointer parameter of an adversarial
//! specification.

use vstd::prelude::*;

use crate::constraints::{Annotation, ClassConstructor, TypeInfo};
use crate::text::{
    dec, group_append, group_views, join, joined, lemma_append_assoc, lemma_append_nothing,
    lemma_mentions_inside, lemma_mentions_more, mentions, nil, only_if, opt_view, owned, put, put2,
    put3, put4, put5, put7, put_dec, same, views,
};
use crate::types::{alias_text, alias_type, pointee_text, pointee_to_saw, saw_text, type_to_saw};

verus! {

/// Whether the memory behind a parameter survives the call.
#[derive(Debug, Clone, Copy, PartialEq, Eq, Structural)]
pub enum HavocBehavior {
    /// The memory is unchanged after the call.
    Preserved,
    /// The memory holds any value after the call.
    Havoced,
}

/// The width in bits of a data member; a member that is neither an integer
/// nor a truth value counts as a machine word.
pub open spec fn member_bits(ty: &TypeInfo) -> u32 {
    match ty {
        TypeInfo::SignedInt(w) => *w,
        TypeInfo::UnsignedInt(w) => *w,
        TypeInfo::Bool => 1,
        _ => 64,
    }
}

pub fn field_width(ty: &TypeInfo) -> (r: u32)
    ensures
        r == member_bits(ty),
{
    match ty {
        TypeInfo::SignedInt(w) => *w,
        TypeInfo::UnsignedInt(w) => *w,
        TypeInfo::Bool => 1,
        _ => 64,
    }
}

/// The least multiple of 8 that is not below `n`.
pub open spec fn round_up8(n: nat) -> nat {
    (n + 7) / 8 * 8
}

/// The bits that an object occupies before padding: the pointer to its
/// virtual table and its data members, each in whole bytes.
pub open spec fn class_bits(fields: Seq<(String, TypeInfo, String)>) -> nat
    decreases fields.len(),
{
    if fields.len() == 0 {
        64
    } else {
        let w = member_bits(&fields.last().1) as nat;
        class_bits(fields.drop_last()) + if w < 8 {
            8
        } else {
            round_up8(w)
        }
    }
}

/// The bytes that fill an object up to a multiple of 8 bytes.
pub open spec fn padding_bytes(fields: Seq<(String, TypeInfo, String)>) -> nat {
    let bytes = (class_bits(fields) + 7) / 8;
    (round_up8(bytes) - bytes) as nat
}

proof fn lemma_class_bits_grow(fields: Seq<(String, TypeInfo, String)>, i: int)
    requires
        0 <= i <= fields.len(),
    ensures
        class_bits(fields.take(i)) <= class_bits(fields),
    decreases fields.len() - i,
{
    if i == fields.len() {
        assert(fields.take(i) =~= fields);
    } else {
        lemma_class_bits_grow(fields, i + 1);
        assert(fields.take(i + 1).drop_last() =~= fields.take(i));
    }
}

/// The bytes that fill an object up to a multiple of 8 bytes.
pub fn trailing_padding_bytes(fields: &[(String, TypeInfo, String)]) -> (r: u32)
    requires
        class_bits(fields@) <= u32::MAX,
    ensures
        r == padding_bytes(fields@),
{
    let mut bits: u32 = 64;
    let mut i: usize = 0;
    while i < fields.len()
        invariant
            class_bits(fields@) <= u32::MAX,
            i <= fields@.len(),
            bits == class_bits(fields@.take(i as int)),
        decreases fields@.len() - i,
    {
        proof {
            assert(fields@.take(i + 1).drop_last() =~= fields@.take(i as int));
            lemma_class_bits_grow(fields@, i + 1);
        }
        let w: u32 = field_width(&fields[i].1);
        let storage: u64 = if w < 8 {
            8
        } else {
            (w as u64 + 7) / 8 * 8
        };
        bits = (bits as u64 + storage) as u32;
        i += 1;
    }
    assert(fields@.take(fields@.len() as int) =~= fields@);
    let bytes: u64 = (bits as u64 + 7) / 8;
    ((bytes + 7) / 8 * 8 - bytes) as u32
}

/// Does an object with the given data members fit into 32 bits?
pub fn fits_layout(fields: &[(String, TypeInfo, String)]) -> (r: bool)
    ensures
        r == (class_bits(fields@) <= u32::MAX),
{
    let mut bits: u64 = 64;
    let mut i: usize = 0;
    while i < fields.len()
        invariant
            i <= fields@.len(),
            bits == class_bits(fields@.take(i as int)),
            bits <= u32::MAX,
        decreases fields@.len() - i,
    {
        proof {
            assert(fields@.take(i + 1).drop_last() =~= fields@.take(i as int));
            lemma_class_bits_grow(fields@, i + 1);
        }
        let w: u32 = field_width(&fields[i].1);
        let storage: u64 = if w < 8 {
            8
        } else {
            (w as u64 + 7) / 8 * 8
        };
        bits += storage;
        if bits > u32::MAX as u64 {
            return false;
        }
        i += 1;
    }
    assert(fields@.take(fields@.len() as int) =~= fields@);
    true
}

/// The types of the data members, one per line.
pub open spec fn member_types_item(f: (String, TypeInfo, String)) -> Seq<char> {
    "        , llvm_int "@ + dec(member_bits(&f.1) as nat) + "\n"@
}

fn put_member_types_item(out: &mut String, f: &(String, TypeInfo, String))
    ensures
        final(out)@ == old(out)@ + member_types_item(*f),
{
    broadcast use {group_append, group_views};
    put(out, "        , llvm_int ");
    put_dec(out, field_width(&f.1) as u128);
    put(out, "\n");
}

/// The types of the data members, one per line.
pub open spec fn member_types(v: Seq<(String, TypeInfo, String)>) -> Seq<char>
    decreases v.len(),
{
    if v.len() == 0 {
        nil()
    } else {
        member_types(v.drop_last()) + member_types_item(v.last())
    }
}

/// The types of the data members, one per line.
pub fn put_member_types(out: &mut String, v: &[(String, TypeInfo, String)])
    ensures
        final(out)@ == old(out)@ + member_types(v@),
{
    broadcast use lemma_append_nothing;
    let mut i: usize = 0;
    assert(member_types(v@.take(0)) =~= nil());
    while i < v.len()
        invariant
            i <= v@.len(),
            out@ == old(out)@ + member_types(v@.take(i as int)),
        decreases v@.len() - i,
    {
        proof {
            assert(v@.take(i + 1).drop_last() =~= v@.take(i as int));
            lemma_append_assoc(old(out)@, member_types(v@.take(i as int)), member_types_item(v@[i as int]));
        }
        put_member_types_item(out, &v[i]);
        i += 1;
    }
    assert(v@.take(v@.len() as int) =~= v@);
}

/// A fresh variable for each data member, before or after the call.
pub open spec fn member_vars_item(f: (String, TypeInfo, String), when: Seq<char>) -> Seq<char> {
    "    this_"@ + f.0@ + when + " <- llvm_fresh_var \"this_"@ + f.0@ + when
        + "\" (llvm_int "@ + dec(member_bits(&f.1) as nat) + ");\n"@
}

fn put_member_vars_item(out: &mut String, f: &(String, TypeInfo, String), when: &str)
    ensures
        final(out)@ == old(out)@ + member_vars_item(*f, when@),
{
    broadcast use {group_append, group_views};
    put7(
        out,
        "    this_",
        f.0.as_str(),
        when,
        " <- llvm_fresh_var \"this_",
        f.0.as_str(),
        when,
        "\" (llvm_int ",
    );
    put_dec(out, field_width(&f.1) as u128);
    put(out, ");\n");
}

/// A fresh variable for each data member, before or after the call.
pub open spec fn member_vars(v: Seq<(String, TypeInfo, String)>, when: Seq<char>) -> Seq<char>
    decreases v.len(),
{
    if v.len() == 0 {
        nil()
    } else {
        member_vars(v.drop_last(), when) + member_vars_item(v.last(), when)
    }
}

/// A fresh variable for each data member, before or after the call.
fn put_member_vars(out: &mut String, v: &[(String, TypeInfo, String)], when: &str)
    ensures
        final(out)@ == old(out)@ + member_vars(v@, when@),
{
    broadcast use lemma_append_nothing;
    let mut i: usize = 0;
    assert(member_vars(v@.take(0), when@) =~= nil());
    while i < v.len()
        invariant
            i <= v@.len(),
            out@ == old(out)@ + member_vars(v@.take(i as int), when@),
        decreases v@.len() - i,
    {
        proof {
            assert(v@.take(i + 1).drop_last() =~= v@.take(i as int));
            lemma_append_assoc(old(out)@, member_vars(v@.take(i as int), when@), member_vars_item(v@[i as int], when@));
        }
        put_member_vars_item(out, &v[i], when);
        i += 1;
    }
    assert(v@.take(v@.len() as int) =~= v@);
}

/// The variables of the data members as elements of a struct value.
pub open spec fn member_terms_item(f: (String, TypeInfo, String), when: Seq<char>) -> Seq<char> {
    "        , llvm_term this_"@ + f.0@ + when + "\n"@
}

fn put_member_terms_item(out: &mut String, f: &(String, TypeInfo, String), when: &str)
    ensures
        final(out)@ == old(out)@ + member_terms_item(*f, when@),
{
    broadcast use {group_append, group_views};
    put4(out, "        , llvm_term this_", f.0.as_str(), when, "\n");
}

/// The variables of the data members as elements of a struct value.
pub open spec fn member_terms(v: Seq<(String, TypeInfo, String)>, when: Seq<char>) -> Seq<char>
    decreases v.len(),
{
    if v.len() == 0 {
        nil()
    } else {
        member_terms(v.drop_last(), when) + member_terms_item(v.last(), when)
    }
}

/// The variables of the data members as elements of a struct value.
fn put_member_terms(out: &mut String, v: &[(String, TypeInfo, String)], when: &str)
    ensures
        final(out)@ == old(out)@ + member_terms(v@, when@),
{
    broadcast use lemma_append_nothing;
    let mut i: usize = 0;
    assert(member_terms(v@.take(0), when@) =~= nil());
    while i < v.len()
        invariant
            i <= v@.len(),
            out@ == old(out)@ + member_terms(v@.take(i as int), when@),
        decreases v@.len() - i,
    {
        proof {
            assert(v@.take(i + 1).drop_last() =~= v@.take(i as int));
            lemma_append_assoc(old(out)@, member_terms(v@.take(i as int), when@), member_terms_item(v@[i as int], when@));
        }
        put_member_terms_item(out, &v[i], when);
        i += 1;
    }
    assert(v@.take(v@.len() as int) =~= v@);
}

/// The setup of a `this` whose class layout is known: an object with a
/// pointer to its virtual table and a fresh value for each data member.
pub open spec fn this_setup(layout: &ClassConstructor) -> Seq<char> {
    let fields = layout.layout_fields@;
    let pad = padding_bytes(fields);
    "\n    // Parameter: this (mutable → full-class HAVOC)\n"@
        + "    this_ptr <- llvm_alloc (llvm_packed_struct_type\n"@
        + "        [ llvm_pointer (llvm_int 64)  // vptr\n"@ + member_types(fields) + only_if(
        pad > 0,
        "        , llvm_array "@ + dec(pad) + " (llvm_int 8)\n"@,
    ) + "        ]);\n"@ + "    this_vptr_pre <- llvm_alloc_readonly_aligned 8 (llvm_int 64);\n"@
        + member_vars(fields, "_pre"@) + only_if(
        pad > 0,
        "    this_pad_pre <- llvm_fresh_var \"this_pad_pre\" (llvm_array "@ + dec(pad)
            + " (llvm_int 8));\n"@,
    ) + "    llvm_points_to this_ptr (llvm_packed_struct_value\n"@
        + "        [ this_vptr_pre  // vptr (any pointer)\n"@ + member_terms(fields, "_pre"@)
        + only_if(pad > 0, "        , llvm_term this_pad_pre\n"@) + "        ]);\n"@
}

/// The postconditions of such a `this`: each data member holds any value,
/// and the pointer to the virtual table is kept.
pub open spec fn this_post(layout: &ClassConstructor) -> Seq<char> {
    let fields = layout.layout_fields@;
    let pad = padding_bytes(fields);
    "    // this: HAVOCED — data members may have changed\n"@ + member_vars(fields, "_post"@)
        + only_if(
        pad > 0,
        "    this_pad_post <- llvm_fresh_var \"this_pad_post\" (llvm_array "@ + dec(pad)
            + " (llvm_int 8));\n"@,
    ) + "    llvm_points_to this_ptr (llvm_packed_struct_value\n"@
        + "        [ this_vptr_pre  // vptr preserved\n"@ + member_terms(fields, "_post"@)
        + only_if(pad > 0, "        , llvm_term this_pad_post\n"@) + "        ]);\n"@
}

/// Emits setup and postconditions of a mutable `this` whose class layout
/// is known. The struct type is anonymous: optimisation passes drop the
/// names of struct types.
pub fn emit_this_full_class_havoc(
    layout: &ClassConstructor,
    setup: &mut String,
    postconds: &mut String,
)
    requires
        class_bits(layout.layout_fields@) <= u32::MAX,
    ensures
        final(setup)@ == old(setup)@ + this_setup(layout),
        final(postconds)@ == old(postconds)@ + this_post(layout),
{
    broadcast use {group_append, group_views};
    let fields = layout.layout_fields.as_slice();
    let pad: u32 = trailing_padding_bytes(fields);
    put(setup, "\n    // Parameter: this (mutable → full-class HAVOC)\n");
    put(setup, "    this_ptr <- llvm_alloc (llvm_packed_struct_type\n");
    put(setup, "        [ llvm_pointer (llvm_int 64)  // vptr\n");
    put_member_types(setup, fields);
    if pad > 0 {
        put(setup, "        , llvm_array ");
        put_dec(setup, pad as u128);
        put(setup, " (llvm_int 8)\n");
    }
    put(setup, "        ]);\n");
    put(setup, "    this_vptr_pre <- llvm_alloc_readonly_aligned 8 (llvm_int 64);\n");
    put_member_vars(setup, fields, "_pre");
    if pad > 0 {
        put(setup, "    this_pad_pre <- llvm_fresh_var \"this_pad_pre\" (llvm_array ");
        put_dec(setup, pad as u128);
        put(setup, " (llvm_int 8));\n");
    }
    put(setup, "    llvm_points_to this_ptr (llvm_packed_struct_value\n");
    put(setup, "        [ this_vptr_pre  // vptr (any pointer)\n");
    put_member_terms(setup, fields, "_pre");
    if pad > 0 {
        put(setup, "        , llvm_term this_pad_pre\n");
    }
    put(setup, "        ]);\n");

    put(postconds, "    // this: HAVOCED — data members may have changed\n");
    put_member_vars(postconds, fields, "_post");
    if pad > 0 {
        put(postconds, "    this_pad_post <- llvm_fresh_var \"this_pad_post\" (llvm_array ");
        put_dec(postconds, pad as u128);
        put(postconds, " (llvm_int 8));\n");
    }
    put(postconds, "    llvm_points_to this_ptr (llvm_packed_struct_value\n");
    put(postconds, "        [ this_vptr_pre  // vptr preserved\n");
    put_member_terms(postconds, fields, "_post");
    if pad > 0 {
        put(postconds, "        , llvm_term this_pad_post\n");
    }
    put(postconds, "        ]);\n");
}

/// What the annotations from position `i` on say of a parameter.
pub open spec fn label_from(annotations: Seq<Annotation>, i: int, preserved: bool) -> Seq<char>
    decreases annotations.len() - i,
{
    if i < 0 || i >= annotations.len() {
        if preserved {
            "const → preserved"@
        } else {
            "mutable → HAVOCED"@
        }
    } else {
        match annotations[i] {
            Annotation::InReads(n) => if n == 0 {
                "_In_ → preserved"@
            } else {
                "_In_reads_("@ + dec(n as nat) + ") → preserved"@
            },
            Annotation::OutWrites(n) => if n == 0 {
                "_Out_ → HAVOCED"@
            } else {
                "_Out_writes_("@ + dec(n as nat) + ") → HAVOCED"@
            },
            Annotation::Inout => "_Inout_ → HAVOCED"@,
            _ => label_from(annotations, i + 1, preserved),
        }
    }
}

/// The first annotation that speaks of reading or writing, or else whether
/// the parameter is preserved.
pub open spec fn label(annotations: Seq<Annotation>, preserved: bool) -> Seq<char> {
    label_from(annotations, 0, preserved)
}

/// The label of a parameter in the comments of a specification.
pub fn annotation_label(annotations: &[Annotation], is_preserved: bool) -> (r: String)
    ensures
        r@ == label(annotations@, is_preserved),
{
    broadcast use {group_append, group_views};
    let mut i: usize = 0;
    while i < annotations.len()
        invariant
            i <= annotations@.len(),
            label(annotations@, is_preserved) == label_from(annotations@, i as int, is_preserved),
        decreases annotations@.len() - i,
    {
        let mut r = String::new();
        match &annotations[i] {
            Annotation::InReads(n) => {
                if *n == 0 {
                    return owned("_In_ → preserved");
                }
                put(&mut r, "_In_reads_(");
                put_dec(&mut r, *n as u128);
                put(&mut r, ") → preserved");
                return r;
            },
            Annotation::OutWrites(n) => {
                if *n == 0 {
                    return owned("_Out_ → HAVOCED");
                }
                put(&mut r, "_Out_writes_(");
                put_dec(&mut r, *n as u128);
                put(&mut r, ") → HAVOCED");
                return r;
            },
            Annotation::Inout => {
                return owned("_Inout_ → HAVOCED");
            },
            _ => {},
        }
        i += 1;
    }
    if is_preserved {
        owned("const → preserved")
    } else {
        owned("mutable → HAVOCED")
    }
}

/// The size of the first annotated buffer from position `i` on.
pub open spec fn buffer_from(annotations: Seq<Annotation>, i: int) -> Option<usize>
    decreases annotations.len() - i,
{
    if i < 0 || i >= annotations.len() {
        None
    } else {
        match annotations[i] {
            Annotation::InReads(n) => if n > 0 {
                Some(n)
            } else {
                buffer_from(annotations, i + 1)
            },
            Annotation::OutWrites(n) => if n > 0 {
                Some(n)
            } else {
                buffer_from(annotations, i + 1)
            },
            _ => buffer_from(annotations, i + 1),
        }
    }
}

fn buffer_size(annotations: &[Annotation]) -> (r: Option<usize>)
    ensures
        r == buffer_from(annotations@, 0),
{
    let mut i: usize = 0;
    while i < annotations.len()
        invariant
            i <= annotations@.len(),
            buffer_from(annotations@, 0) == buffer_from(annotations@, i as int),
        decreases annotations@.len() - i,
    {
        match &annotations[i] {
            Annotation::InReads(n) => {
                if *n > 0 {
                    return Some(*n);
                }
            },
            Annotation::OutWrites(n) => {
                if *n > 0 {
                    return Some(*n);
                }
            },
            _ => {},
        }
        i += 1;
    }
    None
}

/// Does an annotation say that the callee writes a buffer?
pub open spec fn writes(annotations: Seq<Annotation>) -> bool {
    exists|i: int| 0 <= i < annotations.len() && #[trigger] annotations[i] is OutWrites
}

/// Does an annotation say that the callee reads a buffer?
pub open spec fn reads(annotations: Seq<Annotation>) -> bool {
    exists|i: int| 0 <= i < annotations.len() && #[trigger] annotations[i] is InReads
}

pub fn has_out_writes(annotations: &[Annotation]) -> (r: bool)
    ensures
        r == writes(annotations@),
{
    let mut i: usize = 0;
    while i < annotations.len()
        invariant
            i <= annotations@.len(),
            forall|k: int| 0 <= k < i ==> !(#[trigger] annotations@[k] is OutWrites),
        decreases annotations@.len() - i,
    {
        if let Annotation::OutWrites(_) = &annotations[i] {
            return true;
        }
        i += 1;
    }
    false
}

pub fn has_in_reads(annotations: &[Annotation]) -> (r: bool)
    ensures
        r == reads(annotations@),
{
    let mut i: usize = 0;
    while i < annotations.len()
        invariant
            i <= annotations@.len(),
            forall|k: int| 0 <= k < i ==> !(#[trigger] annotations@[k] is InReads),
        decreases annotations@.len() - i,
    {
        if let Annotation::InReads(_) = &annotations[i] {
            return true;
        }
        i += 1;
    }
    false
}

pub open spec fn alloc_kind(preserved: bool) -> Seq<char> {
    if preserved {
        "llvm_alloc_readonly"@
    } else {
        "llvm_alloc"@
    }
}

/// Is the parameter a `this` of unknown layout?
pub open spec fn bare_this(name: Seq<char>, inner_ty: &TypeInfo) -> bool {
    name == "this"@ && (inner_ty matches TypeInfo::Opaque { size_bytes, .. } && *size_bytes == 0)
}

/// The setup of a pointer parameter.
pub open spec fn param_setup_text(
    name: Seq<char>,
    inner_ty: &TypeInfo,
    behavior: HavocBehavior,
    annotations: Seq<Annotation>,
) -> Seq<char> {
    let preserved = behavior == HavocBehavior::Preserved;
    let alloc = alloc_kind(preserved);
    let ann = label(annotations, preserved);
    if bare_this(name, inner_ty) {
        let ty = saw_text(inner_ty@);
        "\n    // Parameter: "@ + name + " ("@ + ann + ")\n"@ + "    "@ + name + "_ptr <- "@
            + alloc + " ("@ + ty + ");\n"@
    } else if let Some(n) = buffer_from(annotations, 0) {
        sized_setup(name, inner_ty, n, alloc, ann)
    } else if let TypeInfo::Struct { name: struct_name, fields, .. } = inner_ty {
        if fields@.len() > 0 {
            struct_setup(name, struct_name@, fields@, preserved, alloc, ann)
        } else {
            opaque_setup(name, inner_ty, preserved, alloc, ann)
        }
    } else {
        opaque_setup(name, inner_ty, preserved, alloc, ann)
    }
}

/// The postconditions of a pointer parameter.
pub open spec fn param_post_text(
    name: Seq<char>,
    inner_ty: &TypeInfo,
    behavior: HavocBehavior,
    annotations: Seq<Annotation>,
    cryptol_post: Option<Seq<char>>,
) -> Seq<char> {
    let preserved = behavior == HavocBehavior::Preserved;
    let ann = label(annotations, preserved);
    if bare_this(name, inner_ty) {
        nil()
    } else if let Some(n) = buffer_from(annotations, 0) {
        sized_post(name, inner_ty, n, preserved)
    } else if let TypeInfo::Struct { name: struct_name, fields, .. } = inner_ty {
        if fields@.len() > 0 {
            struct_post(name, struct_name@, fields@, preserved, ann)
        } else {
            opaque_post(name, inner_ty, preserved, writes(annotations), ann, cryptol_post)
        }
    } else {
        opaque_post(name, inner_ty, preserved, writes(annotations), ann, cryptol_post)
    }
}

/// Emits setup and postconditions of a pointer parameter: a buffer of the
/// annotated size, a struct field by field, or a pointee as a whole.
///
/// Where `cryptol_post_expr` is given, a pointee that the callee only
/// writes holds the value of that expression after the call.
pub fn emit_adversarial_param(
    name: &str,
    inner_ty: &TypeInfo,
    behavior: HavocBehavior,
    annotations: &[Annotation],
    setup: &mut String,
    postconds: &mut String,
    cryptol_post_expr: Option<&str>,
)
    ensures
        final(setup)@ == old(setup)@ + param_setup_text(name@, inner_ty, behavior, annotations@),
        final(postconds)@ == old(postconds)@ + param_post_text(
            name@,
            inner_ty,
            behavior,
            annotations@,
            opt_view(cryptol_post_expr),
        ),
{
    broadcast use {group_append, group_views};
    let is_preserved = behavior == HavocBehavior::Preserved;
    let is_write_only = has_out_writes(annotations);
    let alloc = if is_preserved {
        "llvm_alloc_readonly"
    } else {
        "llvm_alloc"
    };
    let ann_label = annotation_label(annotations, is_preserved);
    let ann = ann_label.as_str();

    if let TypeInfo::Opaque { size_bytes, .. } = inner_ty {
        if *size_bytes == 0 && same(name, "this") {
            let saw_type = type_to_saw(inner_ty);
            let ty = saw_type.as_str();
            put5(setup, "\n    // Parameter: ", name, " (", ann, ")\n");
            put7(setup, "    ", name, "_ptr <- ", alloc, " (", ty, ");\n");
            return;
        }
    }
    if let Some(n) = buffer_size(annotations) {
        emit_sized_buffer(name, inner_ty, n, is_preserved, alloc, ann, setup, postconds);
        return;
    }
    if let TypeInfo::Struct { name: struct_name, fields, .. } = inner_ty {
        if fields.len() > 0 {
            emit_struct_decomposed(
                name,
                struct_name.as_str(),
                fields.as_slice(),
                is_preserved,
                alloc,
                ann,
                setup,
                postconds,
            );
            return;
        }
    }
    emit_opaque_pointer(
        name,
        inner_ty,
        is_preserved,
        is_write_only,
        alloc,
        ann,
        setup,
        postconds,
        cryptol_post_expr,
    );
}

pub open spec fn opaque_setup(
    name: Seq<char>,
    inner_ty: &TypeInfo,
    preserved: bool,
    alloc: Seq<char>,
    ann: Seq<char>,
) -> Seq<char> {
    let ty = pointee_text(inner_ty@);
    "\n    // Parameter: "@ + name + " ("@ + ann + ")\n"@ + "    "@ + name + "_ptr <- "@
        + alloc + " ("@ + ty + ");\n"@ + only_if(
        preserved,
        "    "@ + name + "_val <- llvm_fresh_var \""@ + name + "\" ("@ + ty + ");\n"@
            + "    llvm_points_to "@ + name + "_ptr (llvm_term "@ + name + "_val);\n"@,
    )
}

pub open spec fn opaque_post(
    name: Seq<char>,
    inner_ty: &TypeInfo,
    preserved: bool,
    write_only: bool,
    ann: Seq<char>,
    cryptol_post: Option<Seq<char>>,
) -> Seq<char> {
    let ty = pointee_text(inner_ty@);
    if preserved {
        "    // "@ + name + ": "@ + ann + " → memory unchanged\n"@ + "    llvm_points_to "@
            + name + "_ptr (llvm_term "@ + name + "_val);\n"@
    } else if write_only && cryptol_post is Some {
        let expr = cryptol_post->0;
        "    // "@ + name + ": "@ + ann + " → value defined by Cryptol spec\n"@
            + "    llvm_points_to "@ + name + "_ptr (llvm_term {{ "@ + expr + " }});\n"@
    } else {
        "    // "@ + name + ": "@ + ann + " → solver chooses ANY final value\n"@ + "    "@
            + name + "_after <- llvm_fresh_var \""@ + name + "_after\" ("@ + ty + ");\n"@
            + "    llvm_points_to "@ + name + "_ptr (llvm_term "@ + name + "_after);\n"@
    }
}

fn emit_opaque_pointer(
    name: &str,
    inner_ty: &TypeInfo,
    is_preserved: bool,
    is_write_only: bool,
    alloc: &str,
    ann: &str,
    setup: &mut String,
    postconds: &mut String,
    cryptol_post_expr: Option<&str>,
)
    ensures
        final(setup)@ == old(setup)@ + opaque_setup(name@, inner_ty, is_preserved, alloc@, ann@),
        final(postconds)@ == old(postconds)@ + opaque_post(
            name@,
            inner_ty,
            is_preserved,
            is_write_only,
            ann@,
            opt_view(cryptol_post_expr),
        ),
{
    broadcast use {group_append, group_views};
    let saw_type = pointee_to_saw(inner_ty);
    let ty = saw_type.as_str();
    put5(setup, "\n    // Parameter: ", name, " (", ann, ")\n");
    put7(setup, "    ", name, "_ptr <- ", alloc, " (", ty, ");\n");
    if is_preserved {
        put7(setup, "    ", name, "_val <- llvm_fresh_var \"", name, "\" (", ty, ");\n");
        put5(setup, "    llvm_points_to ", name, "_ptr (llvm_term ", name, "_val);\n");
        put5(postconds, "    // ", name, ": ", ann, " → memory unchanged\n");
        put5(postconds, "    llvm_points_to ", name, "_ptr (llvm_term ", name, "_val);\n");
        return;
    }
    if is_write_only {
        if let Some(expr) = cryptol_post_expr {
            put5(postconds, "    // ", name, ": ", ann, " → value defined by Cryptol spec\n");
            put5(postconds, "    llvm_points_to ", name, "_ptr (llvm_term {{ ", expr, " }});\n");
            return;
        }
    }
    put5(postconds, "    // ", name, ": ", ann, " → solver chooses ANY final value\n");
    put7(postconds, "    ", name, "_after <- llvm_fresh_var \"", name, "_after\" (", ty, ");\n");
    put5(postconds, "    llvm_points_to ", name, "_ptr (llvm_term ", name, "_after);\n");
}

/// The type of a buffer of `n` elements behind a pointer.
pub open spec fn buffer_text(inner_ty: &TypeInfo, n: usize) -> Seq<char> {
    let elem = match inner_ty {
        TypeInfo::Pointer(e) => pointee_text((**e)@),
        _ => pointee_text(inner_ty@),
    };
    "llvm_array "@ + dec(n as nat) + " ("@ + elem + ")"@
}

pub open spec fn sized_setup(
    name: Seq<char>,
    inner_ty: &TypeInfo,
    n: usize,
    alloc: Seq<char>,
    ann: Seq<char>,
) -> Seq<char> {
    let ty = buffer_text(inner_ty, n);
    "\n    // Parameter: "@ + name + " ("@ + ann + ", buffer["@ + dec(n as nat) + "])\n"@
        + "    "@ + name + "_ptr <- "@ + alloc + " ("@ + ty + ");\n"@ + "    "@ + name
        + "_val <- llvm_fresh_var \""@ + name + "\" ("@ + ty + ");\n"@ + "    llvm_points_to "@
        + name + "_ptr (llvm_term "@ + name + "_val);\n"@
}

pub open spec fn sized_post(
    name: Seq<char>,
    inner_ty: &TypeInfo,
    n: usize,
    preserved: bool,
) -> Seq<char> {
    let ty = buffer_text(inner_ty, n);
    if preserved {
        "    // "@ + name + ": _In_reads_("@ + dec(n as nat) + ") → buffer preserved\n"@
            + "    llvm_points_to "@ + name + "_ptr (llvm_term "@ + name + "_val);\n"@
    } else {
        "    // "@ + name + ": _Out_writes_("@ + dec(n as nat) + ") → buffer HAVOCED (any "@
            + dec(n as nat) + " elements)\n"@ + "    "@ + name + "_after <- llvm_fresh_var \""@
            + name + "_after\" ("@ + ty + ");\n"@ + "    llvm_points_to "@ + name
            + "_ptr (llvm_term "@ + name + "_after);\n"@
    }
}

fn emit_sized_buffer(
    name: &str,
    inner_ty: &TypeInfo,
    n: usize,
    is_preserved: bool,
    alloc: &str,
    ann: &str,
    setup: &mut String,
    postconds: &mut String,
)
    ensures
        final(setup)@ == old(setup)@ + sized_setup(name@, inner_ty, n, alloc@, ann@),
        final(postconds)@ == old(postconds)@ + sized_post(name@, inner_ty, n, is_preserved),
{
    broadcast use {group_append, group_views};
    let elem = match inner_ty {
        TypeInfo::Pointer(e) => pointee_to_saw(e),
        _ => pointee_to_saw(inner_ty),
    };
    let mut buf_type = String::new();
    put(&mut buf_type, "llvm_array ");
    put_dec(&mut buf_type, n as u128);
    put3(&mut buf_type, " (", elem.as_str(), ")");
    let ty = buf_type.as_str();
    put5(setup, "\n    // Parameter: ", name, " (", ann, ", buffer[");
    put_dec(setup, n as u128);
    put(setup, "])\n");
    put7(setup, "    ", name, "_ptr <- ", alloc, " (", ty, ");\n");
    put7(setup, "    ", name, "_val <- llvm_fresh_var \"", name, "\" (", ty, ");\n");
    put5(setup, "    llvm_points_to ", name, "_ptr (llvm_term ", name, "_val);\n");
    if is_preserved {
        put3(postconds, "    // ", name, ": _In_reads_(");
        put_dec(postconds, n as u128);
        put(postconds, ") → buffer preserved\n");
        put5(postconds, "    llvm_points_to ", name, "_ptr (llvm_term ", name, "_val);\n");
    } else {
        put3(postconds, "    // ", name, ": _Out_writes_(");
        put_dec(postconds, n as u128);
        put(postconds, ") → buffer HAVOCED (any ");
        put_dec(postconds, n as u128);
        put(postconds, " elements)\n");
        put7(
            postconds,
            "    ",
            name,
            "_after <- llvm_fresh_var \"",
            name,
            "_after\" (",
            ty,
            ");\n",
        );
        put5(postconds, "    llvm_points_to ", name, "_ptr (llvm_term ", name, "_after);\n");
    }
}

/// The variable that stands for a field of a struct parameter.
pub open spec fn field_var(param: Seq<char>, field: Seq<char>) -> Seq<char> {
    param + "_"@ + field
}

fn field_variable(param: &str, field: &str) -> (r: String)
    ensures
        r@ == field_var(param@, field@),
{
    broadcast use {group_append, group_views};
    let mut r = String::new();
    put3(&mut r, param, "_", field);
    r
}

/// The setup of the fields of a struct parameter.
pub open spec fn field_setups_item(f: (String, TypeInfo), param: Seq<char>, alloc: Seq<char>) -> Seq<char> {
    let var = field_var(param, f.0@);
    match f.1 {
        TypeInfo::Pointer(pointee) => {
            let ty = pointee_text((*pointee)@);
            "    "@ + var + "_ptr <- "@ + alloc + " ("@ + ty + ");\n"@ + "    "@ + var
                + "_val <- llvm_fresh_var \""@ + var + "\" ("@ + ty + ");\n"@
                + "    llvm_points_to "@ + var + "_ptr (llvm_term "@ + var + "_val);\n"@
        },
        _ => "    "@ + var + " <- llvm_fresh_var \""@ + var + "\" ("@ + saw_text(f.1@) + ");\n"@,
    }
}

fn put_field_setups_item(out: &mut String, f: &(String, TypeInfo), param: &str, alloc: &str)
    ensures
        final(out)@ == old(out)@ + field_setups_item(*f, param@, alloc@),
{
    broadcast use {group_append, group_views};
    let v0 = field_variable(param, f.0.as_str());
    let var = v0.as_str();
    match &f.1 {
        TypeInfo::Pointer(pointee) => {
            let t = pointee_to_saw(pointee);
            let ty = t.as_str();
            put7(out, "    ", var, "_ptr <- ", alloc, " (", ty, ");\n");
            put7(out, "    ", var, "_val <- llvm_fresh_var \"", var, "\" (", ty, ");\n");
            put5(out, "    llvm_points_to ", var, "_ptr (llvm_term ", var, "_val);\n");
        },
        _ => {
            let t = type_to_saw(&f.1);
            let ty = t.as_str();
            put7(out, "    ", var, " <- llvm_fresh_var \"", var, "\" (", ty, ");\n");
        },
    }
}

/// The setup of the fields of a struct parameter.
pub open spec fn field_setups(v: Seq<(String, TypeInfo)>, param: Seq<char>, alloc: Seq<char>) -> Seq<char>
    decreases v.len(),
{
    if v.len() == 0 {
        nil()
    } else {
        field_setups(v.drop_last(), param, alloc) + field_setups_item(v.last(), param, alloc)
    }
}

/// The setup of the fields of a struct parameter.
fn put_field_setups(out: &mut String, v: &[(String, TypeInfo)], param: &str, alloc: &str)
    ensures
        final(out)@ == old(out)@ + field_setups(v@, param@, alloc@),
{
    broadcast use lemma_append_nothing;
    let mut i: usize = 0;
    assert(field_setups(v@.take(0), param@, alloc@) =~= nil());
    while i < v.len()
        invariant
            i <= v@.len(),
            out@ == old(out)@ + field_setups(v@.take(i as int), param@, alloc@),
        decreases v@.len() - i,
    {
        proof {
            assert(v@.take(i + 1).drop_last() =~= v@.take(i as int));
            lemma_append_assoc(old(out)@, field_setups(v@.take(i as int), param@, alloc@), field_setups_item(v@[i as int], param@, alloc@));
        }
        put_field_setups_item(out, &v[i], param, alloc);
        i += 1;
    }
    assert(v@.take(v@.len() as int) =~= v@);
}

/// The fields of a struct parameter as elements of a struct value.
pub open spec fn field_terms_item(f: (String, TypeInfo), param: Seq<char>) -> Seq<Seq<char>> {
    let var = field_var(param, f.0@);
    match f.1 {
        TypeInfo::Pointer(_) => seq![var + "_ptr"@],
        _ => seq!["llvm_term "@ + var],
    }
}

fn push_field_terms_item(out: &mut Vec<String>, f: &(String, TypeInfo), param: &str)
    ensures
        views(final(out)@) == views(old(out)@) + field_terms_item(*f, param@),
{
    broadcast use {group_append, group_views};
    let v0 = field_variable(param, f.0.as_str());
    let var = v0.as_str();
    let mut t = String::new();
    match &f.1 {
        TypeInfo::Pointer(_) => {
            put2(&mut t, var, "_ptr");
        },
        _ => {
            put2(&mut t, "llvm_term ", var);
        },
    }
    out.push(t);
}

/// The fields of a struct parameter as elements of a struct value.
pub open spec fn field_terms(v: Seq<(String, TypeInfo)>, param: Seq<char>) -> Seq<Seq<char>>
    decreases v.len(),
{
    if v.len() == 0 {
        Seq::empty()
    } else {
        field_terms(v.drop_last(), param) + field_terms_item(v.last(), param)
    }
}

/// The fields of a struct parameter as elements of a struct value.
fn push_field_terms(out: &mut Vec<String>, v: &[(String, TypeInfo)], param: &str)
    ensures
        views(final(out)@) == views(old(out)@) + field_terms(v@, param@),
{
    broadcast use lemma_append_nothing;
    let mut i: usize = 0;
    assert(field_terms(v@.take(0), param@) =~= Seq::<Seq<char>>::empty());
    while i < v.len()
        invariant
            i <= v@.len(),
            views(out@) == views(old(out)@) + field_terms(v@.take(i as int), param@),
        decreases v@.len() - i,
    {
        proof {
            assert(v@.take(i + 1).drop_last() =~= v@.take(i as int));
            lemma_append_assoc(views(old(out)@), field_terms(v@.take(i as int), param@), field_terms_item(v@[i as int], param@));
        }
        push_field_terms_item(out, &v[i], param);
        i += 1;
    }
    assert(v@.take(v@.len() as int) =~= v@);
}

/// What the pointer fields of a preserved struct point to is unchanged.
pub open spec fn kept_fields_item(f: (String, TypeInfo), param: Seq<char>) -> Seq<char> {
    let var = field_var(param, f.0@);
    match f.1 {
        TypeInfo::Pointer(_) => "    llvm_points_to "@ + var + "_ptr (llvm_term "@ + var + "_val);\n"@,
        _ => nil(),
    }
}

fn put_kept_fields_item(out: &mut String, f: &(String, TypeInfo), param: &str)
    ensures
        final(out)@ == old(out)@ + kept_fields_item(*f, param@),
{
    broadcast use {group_append, group_views};
    let v0 = field_variable(param, f.0.as_str());
    let var = v0.as_str();
    if let TypeInfo::Pointer(_) = &f.1 {
        put5(out, "    llvm_points_to ", var, "_ptr (llvm_term ", var, "_val);\n");
    }
}

/// What the pointer fields of a preserved struct point to is unchanged.
pub open spec fn kept_fields(v: Seq<(String, TypeInfo)>, param: Seq<char>) -> Seq<char>
    decreases v.len(),
{
    if v.len() == 0 {
        nil()
    } else {
        kept_fields(v.drop_last(), param) + kept_fields_item(v.last(), param)
    }
}

/// What the pointer fields of a preserved struct point to is unchanged.
fn put_kept_fields(out: &mut String, v: &[(String, TypeInfo)], param: &str)
    ensures
        final(out)@ == old(out)@ + kept_fields(v@, param@),
{
    broadcast use lemma_append_nothing;
    let mut i: usize = 0;
    assert(kept_fields(v@.take(0), param@) =~= nil());
    while i < v.len()
        invariant
            i <= v@.len(),
            out@ == old(out)@ + kept_fields(v@.take(i as int), param@),
        decreases v@.len() - i,
    {
        proof {
            assert(v@.take(i + 1).drop_last() =~= v@.take(i as int));
            lemma_append_assoc(old(out)@, kept_fields(v@.take(i as int), param@), kept_fields_item(v@[i as int], param@));
        }
        put_kept_fields_item(out, &v[i], param);
        i += 1;
    }
    assert(v@.take(v@.len() as int) =~= v@);
}

/// The fields of a havoced struct, and what they point to, hold any value.
pub open spec fn havoced_fields_item(f: (String, TypeInfo), param: Seq<char>) -> Seq<char> {
    let var = field_var(param, f.0@);
    match f.1 {
        TypeInfo::Pointer(pointee) => {
            let ty = pointee_text((*pointee)@);
            "    // "@ + var + ": pointer target → HAVOCED\n"@ + "    "@ + var
                + "_after <- llvm_fresh_var \""@ + var + "_after\" ("@ + ty + ");\n"@
                + "    llvm_points_to "@ + var + "_ptr (llvm_term "@ + var + "_after);\n"@
                + "    "@ + var + "_ptr_after <- llvm_alloc ("@ + ty + ");\n"@
        },
        _ => "    "@ + var + "_after <- llvm_fresh_var \""@ + var + "_after\" ("@
            + saw_text(f.1@) + ");\n"@,
    }
}

fn put_havoced_fields_item(out: &mut String, f: &(String, TypeInfo), param: &str)
    ensures
        final(out)@ == old(out)@ + havoced_fields_item(*f, param@),
{
    broadcast use {group_append, group_views};
    let v0 = field_variable(param, f.0.as_str());
    let var = v0.as_str();
    match &f.1 {
        TypeInfo::Pointer(pointee) => {
            let t = pointee_to_saw(pointee);
            let ty = t.as_str();
            put3(out, "    // ", var, ": pointer target → HAVOCED\n");
            put7(out, "    ", var, "_after <- llvm_fresh_var \"", var, "_after\" (", ty, ");\n");
            put5(out, "    llvm_points_to ", var, "_ptr (llvm_term ", var, "_after);\n");
            put5(out, "    ", var, "_ptr_after <- llvm_alloc (", ty, ");\n");
        },
        _ => {
            let t = type_to_saw(&f.1);
            let ty = t.as_str();
            put7(out, "    ", var, "_after <- llvm_fresh_var \"", var, "_after\" (", ty, ");\n");
        },
    }
}

/// The fields of a havoced struct, and what they point to, hold any value.
pub open spec fn havoced_fields(v: Seq<(String, TypeInfo)>, param: Seq<char>) -> Seq<char>
    decreases v.len(),
{
    if v.len() == 0 {
        nil()
    } else {
        havoced_fields(v.drop_last(), param) + havoced_fields_item(v.last(), param)
    }
}

/// The fields of a havoced struct, and what they point to, hold any value.
fn put_havoced_fields(out: &mut String, v: &[(String, TypeInfo)], param: &str)
    ensures
        final(out)@ == old(out)@ + havoced_fields(v@, param@),
{
    broadcast use lemma_append_nothing;
    let mut i: usize = 0;
    assert(havoced_fields(v@.take(0), param@) =~= nil());
    while i < v.len()
        invariant
            i <= v@.len(),
            out@ == old(out)@ + havoced_fields(v@.take(i as int), param@),
        decreases v@.len() - i,
    {
        proof {
            assert(v@.take(i + 1).drop_last() =~= v@.take(i as int));
            lemma_append_assoc(old(out)@, havoced_fields(v@.take(i as int), param@), havoced_fields_item(v@[i as int], param@));
        }
        put_havoced_fields_item(out, &v[i], param);
        i += 1;
    }
    assert(v@.take(v@.len() as int) =~= v@);
}

/// The fields of a havoced struct after the call.
pub open spec fn after_terms_item(f: (String, TypeInfo), param: Seq<char>) -> Seq<Seq<char>> {
    let var = field_var(param, f.0@);
    match f.1 {
        TypeInfo::Pointer(_) => seq![var + "_ptr_after"@],
        _ => seq!["llvm_term "@ + var + "_after"@],
    }
}

fn push_after_terms_item(out: &mut Vec<String>, f: &(String, TypeInfo), param: &str)
    ensures
        views(final(out)@) == views(old(out)@) + after_terms_item(*f, param@),
{
    broadcast use {group_append, group_views};
    let v0 = field_variable(param, f.0.as_str());
    let var = v0.as_str();
    let mut t = String::new();
    match &f.1 {
        TypeInfo::Pointer(_) => {
            put2(&mut t, var, "_ptr_after");
        },
        _ => {
            put3(&mut t, "llvm_term ", var, "_after");
        },
    }
    out.push(t);
}

/// The fields of a havoced struct after the call.
pub open spec fn after_terms(v: Seq<(String, TypeInfo)>, param: Seq<char>) -> Seq<Seq<char>>
    decreases v.len(),
{
    if v.len() == 0 {
        Seq::empty()
    } else {
        after_terms(v.drop_last(), param) + after_terms_item(v.last(), param)
    }
}

/// The fields of a havoced struct after the call.
fn push_after_terms(out: &mut Vec<String>, v: &[(String, TypeInfo)], param: &str)
    ensures
        views(final(out)@) == views(old(out)@) + after_terms(v@, param@),
{
    broadcast use lemma_append_nothing;
    let mut i: usize = 0;
    assert(after_terms(v@.take(0), param@) =~= Seq::<Seq<char>>::empty());
    while i < v.len()
        invariant
            i <= v@.len(),
            views(out@) == views(old(out)@) + after_terms(v@.take(i as int), param@),
        decreases v@.len() - i,
    {
        proof {
            assert(v@.take(i + 1).drop_last() =~= v@.take(i as int));
            lemma_append_assoc(views(old(out)@), after_terms(v@.take(i as int), param@), after_terms_item(v@[i as int], param@));
        }
        push_after_terms_item(out, &v[i], param);
        i += 1;
    }
    assert(v@.take(v@.len() as int) =~= v@);
}

/// A struct parameter points to a struct of the given elements.
pub open spec fn struct_value(param: Seq<char>, terms: Seq<Seq<char>>) -> Seq<char> {
    let elems = joined(terms, "\n        , "@);
    "    llvm_points_to "@ + param + "_ptr (llvm_struct_value\n        [ "@ + elems + " ]);\n"@
}

fn put_struct_value(out: &mut String, param: &str, terms: &Vec<String>)
    ensures
        final(out)@ == old(out)@ + struct_value(param@, views(terms@)),
{
    broadcast use {group_append, group_views};
    let elems = join(terms, "\n        , ");
    put5(
        out,
        "    llvm_points_to ",
        param,
        "_ptr (llvm_struct_value\n        [ ",
        elems.as_str(),
        " ]);\n",
    );
}

pub open spec fn struct_setup(
    param: Seq<char>,
    struct_name: Seq<char>,
    fields: Seq<(String, TypeInfo)>,
    preserved: bool,
    alloc: Seq<char>,
    ann: Seq<char>,
) -> Seq<char> {
    let ty = alias_text(struct_name);
    "\n    // Parameter: "@ + param + " → "@ + struct_name + " ("@ + ann + ")\n"@ + "    "@
        + param + "_ptr <- "@ + alloc + " ("@ + ty + ");\n"@
        + field_setups(fields, param, alloc_kind(preserved))
        + struct_value(param, field_terms(fields, param))
}

pub open spec fn struct_post(
    param: Seq<char>,
    struct_name: Seq<char>,
    fields: Seq<(String, TypeInfo)>,
    preserved: bool,
    ann: Seq<char>,
) -> Seq<char> {
    if preserved {
        "    // "@ + param + " ("@ + struct_name + "): "@ + ann
            + " → all fields preserved\n"@ + kept_fields(fields, param)
            + struct_value(param, field_terms(fields, param))
    } else {
        "    // "@ + param + " ("@ + struct_name + "): "@ + ann + " → ALL fields HAVOCED\n"@
            + havoced_fields(fields, param) + struct_value(param, after_terms(fields, param))
    }
}

/// Emits setup and postconditions of a struct parameter, field by field.
pub fn emit_struct_decomposed(
    param_name: &str,
    struct_name: &str,
    fields: &[(String, TypeInfo)],
    is_preserved: bool,
    alloc: &str,
    ann: &str,
    setup: &mut String,
    postconds: &mut String,
)
    ensures
        final(setup)@ == old(setup)@ + struct_setup(
            param_name@,
            struct_name@,
            fields@,
            is_preserved,
            alloc@,
            ann@,
        ),
        final(postconds)@ == old(postconds)@ + struct_post(
            param_name@,
            struct_name@,
            fields@,
            is_preserved,
            ann@,
        ),
{
    broadcast use {group_append, group_views};
    let param = param_name;
    let alias = alias_type(struct_name);
    let ty = alias.as_str();
    let nested = if is_preserved {
        "llvm_alloc_readonly"
    } else {
        "llvm_alloc"
    };
    let mut pre_terms: Vec<String> = Vec::new();
    push_field_terms(&mut pre_terms, fields, param);
    put7(setup, "\n    // Parameter: ", param, " → ", struct_name, " (", ann, ")\n");
    put7(setup, "    ", param, "_ptr <- ", alloc, " (", ty, ");\n");
    put_field_setups(setup, fields, param, nested);
    put_struct_value(setup, param, &pre_terms);
    if is_preserved {
        put7(
            postconds,
            "    // ",
            param,
            " (",
            struct_name,
            "): ",
            ann,
            " → all fields preserved\n",
        );
        put_kept_fields(postconds, fields, param);
        put_struct_value(postconds, param, &pre_terms);
    } else {
        let mut post_terms: Vec<String> = Vec::new();
        push_after_terms(&mut post_terms, fields, param);
        put7(postconds, "    // ", param, " (", struct_name, "): ", ann, " → ALL fields HAVOCED\n");
        put_havoced_fields(postconds, fields, param);
        put_struct_value(postconds, param, &post_terms);
    }
}

// ---------------------------------------------------------------------
// Laws of pointer parameters
// ---------------------------------------------------------------------

/// Is the pointee a struct that is modelled field by field?
pub open spec fn by_fields(inner_ty: &TypeInfo, annotations: Seq<Annotation>) -> bool {
    buffer_from(annotations, 0) is None && (inner_ty matches TypeInfo::Struct { fields, .. }
        && fields@.len() > 0)
}

/// The type of the pointee.
pub open spec fn pointee_type(
    name: Seq<char>,
    inner_ty: &TypeInfo,
    annotations: Seq<Annotation>,
) -> Seq<char> {
    if bare_this(name, inner_ty) {
        saw_text(inner_ty@)
    } else if let Some(n) = buffer_from(annotations, 0) {
        buffer_text(inner_ty, n)
    } else if by_fields(inner_ty, annotations) {
        alias_text(inner_ty->Struct_name@)
    } else {
        pointee_text(inner_ty@)
    }
}

/// The pointee of a preserved parameter is allocated read-only, and that
/// of any other one is not; where an annotation gives the size of a
/// buffer, it is a buffer of that size.
pub proof fn law_pointee_is_allocated(
    name: Seq<char>,
    inner_ty: &TypeInfo,
    behavior: HavocBehavior,
    annotations: Seq<Annotation>,
)
    ensures
        mentions(
            param_setup_text(name, inner_ty, behavior, annotations),
            "    "@ + name + "_ptr <- "@ + alloc_kind(behavior == HavocBehavior::Preserved)
                + " ("@ + pointee_type(name, inner_ty, annotations) + ");\n"@,
        ),
        buffer_from(annotations, 0) matches Some(n) ==> bare_this(name, inner_ty) || pointee_type(
            name,
            inner_ty,
            annotations,
        ) == buffer_text(inner_ty, n),
{
    broadcast use {group_append, group_views};

    let preserved = behavior == HavocBehavior::Preserved;
    let alloc = alloc_kind(preserved);
    let ann = label(annotations, preserved);
    let ty = pointee_type(name, inner_ty, annotations);
    let line = "    "@ + name + "_ptr <- "@ + alloc + " ("@ + ty + ");\n"@;
    let text = param_setup_text(name, inner_ty, behavior, annotations);
    if bare_this(name, inner_ty) {
        let head = "\n    // Parameter: "@ + name + " ("@ + ann + ")\n"@;
        assert(text == head + line + nil());
        lemma_mentions_inside(head, line, nil());
    } else if let Some(n) = buffer_from(annotations, 0) {
        let head = "\n    // Parameter: "@ + name + " ("@ + ann + ", buffer["@ + dec(n as nat) + "])\n"@;
        let tail = "    "@ + name + "_val <- llvm_fresh_var \""@ + name + "\" ("@ + ty + ");\n"@
            + "    llvm_points_to "@ + name + "_ptr (llvm_term "@ + name + "_val);\n"@;
        assert(text == head + line + tail);
        lemma_mentions_inside(head, line, tail);
    } else if by_fields(inner_ty, annotations) {
        let fields = inner_ty->Struct_fields@;
        let struct_name = inner_ty->Struct_name@;
        let head = "\n    // Parameter: "@ + name + " → "@ + struct_name + " ("@ + ann + ")\n"@;
        let tail = field_setups(fields, name, alloc) + struct_value(name, field_terms(fields, name));
        assert(text == head + line + tail);
        lemma_mentions_inside(head, line, tail);
    } else {
        let head = "\n    // Parameter: "@ + name + " ("@ + ann + ")\n"@;
        let tail = only_if(
            preserved,
            "    "@ + name + "_val <- llvm_fresh_var \""@ + name + "\" ("@ + ty + ");\n"@
                + "    llvm_points_to "@ + name + "_ptr (llvm_term "@ + name + "_val);\n"@,
        );
        assert(text == opaque_setup(name, inner_ty, preserved, alloc, ann));
        assert(text == head + line + tail);
        lemma_mentions_inside(head, line, tail);
    }
}

/// What a preserved parameter points to, as the specification says it.
pub open spec fn kept_value(
    name: Seq<char>,
    inner_ty: &TypeInfo,
    annotations: Seq<Annotation>,
) -> Seq<char> {
    if by_fields(inner_ty, annotations) {
        struct_value(name, field_terms(inner_ty->Struct_fields@, name))
    } else {
        "    llvm_points_to "@ + name + "_ptr (llvm_term "@ + name + "_val);\n"@
    }
}

/// A preserved parameter points after the call to what it pointed to
/// before.
pub proof fn law_preserved_is_unchanged(
    name: Seq<char>,
    inner_ty: &TypeInfo,
    annotations: Seq<Annotation>,
    cryptol_post: Option<Seq<char>>,
)
    requires
        !bare_this(name, inner_ty),
    ensures
        mentions(
            param_setup_text(name, inner_ty, HavocBehavior::Preserved, annotations),
            kept_value(name, inner_ty, annotations),
        ),
        mentions(
            param_post_text(name, inner_ty, HavocBehavior::Preserved, annotations, cryptol_post),
            kept_value(name, inner_ty, annotations),
        ),
{
    broadcast use {group_append, group_views};

    let alloc = alloc_kind(true);
    let ann = label(annotations, true);
    let ty = pointee_type(name, inner_ty, annotations);
    let line = kept_value(name, inner_ty, annotations);
    let setup = param_setup_text(name, inner_ty, HavocBehavior::Preserved, annotations);
    let post = param_post_text(
        name,
        inner_ty,
        HavocBehavior::Preserved,
        annotations,
        cryptol_post,
    );
    if let Some(n) = buffer_from(annotations, 0) {
        let a = "\n    // Parameter: "@ + name + " ("@ + ann + ", buffer["@ + dec(n as nat)
            + "])\n"@ + "    "@ + name + "_ptr <- "@ + alloc + " ("@ + ty + ");\n"@ + "    "@
            + name + "_val <- llvm_fresh_var \""@ + name + "\" ("@ + ty + ");\n"@;
        assert(setup == a + line + nil());
        lemma_mentions_inside(a, line, nil());
        let b = "    // "@ + name + ": _In_reads_("@ + dec(n as nat) + ") → buffer preserved\n"@;
        assert(post == b + line + nil());
        lemma_mentions_inside(b, line, nil());
    } else if by_fields(inner_ty, annotations) {
        let fields = inner_ty->Struct_fields@;
        let struct_name = inner_ty->Struct_name@;
        let a = "\n    // Parameter: "@ + name + " → "@ + struct_name + " ("@ + ann + ")\n"@
            + "    "@ + name + "_ptr <- "@ + alloc + " ("@ + ty + ");\n"@
            + field_setups(fields, name, alloc);
        assert(setup == a + line + nil());
        lemma_mentions_inside(a, line, nil());
        let b = "    // "@ + name + " ("@ + struct_name + "): "@ + ann
            + " → all fields preserved\n"@ + kept_fields(fields, name);
        assert(post == b + line + nil());
        lemma_mentions_inside(b, line, nil());
    } else {
        let a = "\n    // Parameter: "@ + name + " ("@ + ann + ")\n"@ + "    "@ + name + "_ptr <- "@
            + alloc + " ("@ + ty + ");\n"@ + "    "@ + name + "_val <- llvm_fresh_var \""@
            + name + "\" ("@ + ty + ");\n"@;
        assert(setup == opaque_setup(name, inner_ty, true, alloc, ann));
        assert(setup == a + line + nil());
        lemma_mentions_inside(a, line, nil());
        let b = "    // "@ + name + ": "@ + ann + " → memory unchanged\n"@;
        assert(post == b + line + nil());
        lemma_mentions_inside(b, line, nil());
    }
}

proof fn lemma_each_field_is_havoced(fields: Seq<(String, TypeInfo)>, param: Seq<char>, i: int)
    requires
        0 <= i < fields.len(),
    ensures
        mentions(havoced_fields(fields, param), havoced_fields_item(fields[i], param)),
    decreases fields.len(),
{
    broadcast use {group_append, group_views};

    let rest = havoced_fields(fields.drop_last(), param);
    let last = havoced_fields_item(fields.last(), param);
    if i < fields.len() - 1 {
        lemma_each_field_is_havoced(fields.drop_last(), param, i);
        assert(fields.drop_last()[i] == fields[i]);
        lemma_mentions_more(nil(), rest, last, havoced_fields_item(fields[i], param));
        assert(nil() + rest + last == rest + last);
    } else {
        lemma_mentions_inside(rest, last, nil());
        assert(rest + last + nil() == rest + last);
    }
}

/// A parameter that is not preserved points after the call to a fresh
/// value; a struct does so field by field. The one exception is a
/// parameter for which a Cryptol expression is given and which is only
/// written.
pub proof fn law_havoced_is_arbitrary(
    name: Seq<char>,
    inner_ty: &TypeInfo,
    annotations: Seq<Annotation>,
    cryptol_post: Option<Seq<char>>,
)
    requires
        !bare_this(name, inner_ty),
        cryptol_post is None || !writes(annotations),
    ensures
        ({
            let post = param_post_text(
                name,
                inner_ty,
                HavocBehavior::Havoced,
                annotations,
                cryptol_post,
            );
            if by_fields(inner_ty, annotations) {
                &&& forall|i: int|
                    0 <= i < inner_ty->Struct_fields@.len() ==> mentions(
                        post,
                        #[trigger] havoced_fields_item(inner_ty->Struct_fields@[i], name),
                    )
                &&& mentions(post, struct_value(name, after_terms(inner_ty->Struct_fields@, name)))
            } else {
                mentions(
                    post,
                    "    "@ + name + "_after <- llvm_fresh_var \""@ + name + "_after\" ("@
                        + pointee_type(name, inner_ty, annotations) + ");\n"@
                        + "    llvm_points_to "@ + name + "_ptr (llvm_term "@ + name
                        + "_after);\n"@,
                )
            }
        }),
{
    broadcast use {group_append, group_views};

    let ann = label(annotations, false);
    let ty = pointee_type(name, inner_ty, annotations);
    let post = param_post_text(name, inner_ty, HavocBehavior::Havoced, annotations, cryptol_post);
    let lines = "    "@ + name + "_after <- llvm_fresh_var \""@ + name + "_after\" ("@ + ty + ");\n"@
        + "    llvm_points_to "@ + name + "_ptr (llvm_term "@ + name + "_after);\n"@;
    if let Some(n) = buffer_from(annotations, 0) {
        let a = "    // "@ + name + ": _Out_writes_("@ + dec(n as nat) + ") → buffer HAVOCED (any "@
            + dec(n as nat) + " elements)\n"@;
        assert(post == a + lines + nil());
        lemma_mentions_inside(a, lines, nil());
    } else if by_fields(inner_ty, annotations) {
        let fields = inner_ty->Struct_fields@;
        let struct_name = inner_ty->Struct_name@;
        let a = "    // "@ + name + " ("@ + struct_name + "): "@ + ann + " → ALL fields HAVOCED\n"@;
        let items = havoced_fields(fields, name);
        let value = struct_value(name, after_terms(fields, name));
        assert(post == a + items + value);
        assert forall|i: int| 0 <= i < fields.len() implies mentions(
            post,
            #[trigger] havoced_fields_item(fields[i], name),
        ) by {
            lemma_each_field_is_havoced(fields, name, i);
            lemma_mentions_more(a, items, value, havoced_fields_item(fields[i], name));
        }
        assert(post == (a + items) + value + nil());
        lemma_mentions_inside(a + items, value, nil());
    } else {
        let a = "    // "@ + name + ": "@ + ann + " → solver chooses ANY final value\n"@;
        assert(post == opaque_post(name, inner_ty, false, writes(annotations), ann, cryptol_post));
        assert(post == a + lines + nil());
        lemma_mentions_inside(a, lines, nil());
    }
}

} // verus!
