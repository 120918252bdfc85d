//! Adapters between the types of a Cryptol model and the types of the
//! compiled function.

use vstd::prelude::*;

use crate::constraints::{type_view, TypeInfo, TypeView};
use crate::text::{
    dec, group_append, group_views, join, joined, lemma_append_assoc, lemma_append_nothing, nil,
    owned, put, put2, put3, put_dec, views,
};

verus! {

/// Is the type a truth value, or a pointer to one?
pub open spec fn bool_like(ty: TypeView) -> bool {
    match ty {
        TypeView::Bool => true,
        TypeView::Pointer(inner) => *inner is Bool,
        _ => false,
    }
}

/// Is the type a truth value, or a pointer to one? Both are one bit wide
/// at the call and a `Bit` in Cryptol.
pub fn is_bool_like(ty: &TypeInfo) -> (r: bool)
    ensures
        r == bool_like(ty@),
{
    proof {
        reveal_with_fuel(type_view, 2);
    }
    match ty {
        TypeInfo::Bool => true,
        TypeInfo::Pointer(inner) => match **inner {
            TypeInfo::Bool => true,
            _ => false,
        },
        _ => false,
    }
}

/// An argument of the Cryptol function.
pub open spec fn arg_text(name: Seq<char>, ty: TypeView) -> Seq<char> {
    if bool_like(ty) {
        "("@ + name + " ! 0)"@
    } else {
        name
    }
}

/// An argument of the Cryptol function: the bit of a truth value, any
/// other value as it is.
pub fn cryptol_arg_for(name: &str, ty: &TypeInfo) -> (r: String)
    ensures
        r@ == arg_text(name@, ty@),
{
    broadcast use {group_append, group_views};
    if is_bool_like(ty) {
        let mut r = String::new();
        put3(&mut r, "(", name, " ! 0)");
        r
    } else {
        owned(name)
    }
}

/// The result of the Cryptol function as the compiled function returns it.
pub open spec fn result_text(call: Seq<char>, ty: TypeView) -> Seq<char> {
    if bool_like(ty) {
        "["@ + call + "] : [1]"@
    } else {
        call
    }
}

/// The result of the Cryptol function as the compiled function returns it.
pub fn cryptol_return_for(call: &str, ty: &TypeInfo) -> (r: String)
    ensures
        r@ == result_text(call@, ty@),
{
    broadcast use {group_append, group_views};
    if is_bool_like(ty) {
        let mut r = String::new();
        put3(&mut r, "[", call, "] : [1]");
        r
    } else {
        owned(call)
    }
}

/// A value of the given width as a Cryptol expression.
pub open spec fn literal_text(value: nat, bits: nat) -> Seq<char> {
    if bits == 1 {
        "(("@ + dec(value) + " : [1]) ! 0)"@
    } else {
        "("@ + dec(value) + " : ["@ + dec(bits) + "])"@
    }
}

/// A value of the given width as a Cryptol expression.
pub fn cryptol_literal_for_bits(value: u64, bits: u32) -> (r: String)
    ensures
        r@ == literal_text(value as nat, bits as nat),
{
    broadcast use {group_append, group_views};
    let mut r = String::new();
    if bits == 1 {
        put(&mut r, "((");
        put_dec(&mut r, value as u128);
        put(&mut r, " : [1]) ! 0)");
    } else {
        put(&mut r, "(");
        put_dec(&mut r, value as u128);
        put(&mut r, " : [");
        put_dec(&mut r, bits as u128);
        put(&mut r, "])");
    }
    r
}

#[derive(Debug, Clone, Copy, PartialEq, Eq, Structural)]
pub enum Endianness {
    Little,
    Big,
}

/// A field of a packed integer.
#[derive(Debug, Clone, Copy, PartialEq, Eq, Structural)]
pub struct PackedField {
    /// The position of its lowest bit.
    pub offset_bits: u32,
    pub width: u32,
}

/// A field of a result buffer.
#[derive(Debug, Clone, Copy, PartialEq, Eq, Structural)]
pub struct ByteField {
    pub byte_offset: usize,
    /// The width in bits.
    pub width: u32,
}

/// Bytes of a result buffer that the function leaves as they were.
#[derive(Debug, Clone, Copy, PartialEq, Eq, Structural)]
pub struct PreservedRange {
    pub start: usize,
    pub len: usize,
}

/// How a parameter is adapted.
#[derive(Debug, Clone, Copy, PartialEq, Eq, Structural)]
pub enum AbiParamBridge {
    /// The widths are equal.
    Identity,
    /// One bit as a `Bit`.
    BitExtract,
    /// The model is narrower: the leading bits are dropped.
    Truncate { llvm_bits: u32, cry_bits: u32 },
    /// The model is wider: leading zeros are added.
    ZeroExtend { llvm_bits: u32, cry_bits: u32 },
}

/// How a result is adapted.
#[derive(Debug, PartialEq, Eq)]
pub enum AbiReturnBridge {
    Identity,
    /// A `Bit` as one bit.
    BitPack,
    /// The model is narrower: leading zeros are added.
    ZeroExtend { cry_bits: u32, llvm_bits: u32 },
    /// The model is wider: the leading bits are dropped.
    Truncate { cry_bits: u32, llvm_bits: u32 },
    /// A tuple packed into one integer.
    PackInt { fields: Vec<PackedField>, total_bits: u32, endian: Endianness },
    /// A tuple as a struct value.
    StructValue { field_bits: Vec<u32> },
    /// A record in a result buffer, parts of which are left as they were.
    StructBytes { fields: Vec<ByteField>, total_bytes: usize, preserved: Vec<PreservedRange> },
    /// The discriminants of the model mapped to those of the compiled
    /// enumeration, and then adapted in width.
    VariantRemap {
        variants: Vec<(u64, u64)>,
        abi_bits: u32,
        inner: Option<Box<AbiReturnBridge>>,
    },
}

/// A truncation does not widen.
pub open spec fn param_bridge_ok(b: AbiParamBridge) -> bool {
    b matches AbiParamBridge::Truncate { llvm_bits, cry_bits } ==> cry_bits <= llvm_bits
}

/// A parameter as the model takes it.
pub open spec fn param_wrapped(b: AbiParamBridge, name: Seq<char>) -> Seq<char> {
    match b {
        AbiParamBridge::Identity => name,
        AbiParamBridge::BitExtract => "("@ + name + " ! 0)"@,
        AbiParamBridge::Truncate { llvm_bits, cry_bits } => {
            let d = (llvm_bits - cry_bits) as nat;
            "drop`{"@ + dec(d) + "} "@ + name
        },
        AbiParamBridge::ZeroExtend { .. } => "zext "@ + name,
    }
}

impl AbiParamBridge {
    /// The parameter as the model takes it.
    pub fn wrap(&self, name: &str) -> (r: String)
        requires
            param_bridge_ok(*self),
        ensures
            r@ == param_wrapped(*self, name@),
    {
        broadcast use {group_append, group_views};
        let mut r = String::new();
        match self {
            AbiParamBridge::Identity => {
                put(&mut r, name);
            },
            AbiParamBridge::BitExtract => {
                put3(&mut r, "(", name, " ! 0)");
            },
            AbiParamBridge::Truncate { llvm_bits, cry_bits } => {
                let d: u32 = *llvm_bits - *cry_bits;
                put(&mut r, "drop`{");
                put_dec(&mut r, d as u128);
                put2(&mut r, "} ", name);
            },
            AbiParamBridge::ZeroExtend { .. } => {
                put2(&mut r, "zext ", name);
            },
        }
        r
    }
}

/// Does field `a` come before field `b`? Little-endian packing begins with
/// the lowest field, big-endian packing with the highest; of two fields at
/// one place the first one comes first.
pub open spec fn field_before(fields: Seq<PackedField>, endian: Endianness, a: int, b: int) -> bool {
    let x = fields[a].offset_bits;
    let y = fields[b].offset_bits;
    match endian {
        Endianness::Little => x < y || (x == y && a < b),
        Endianness::Big => x > y || (x == y && a < b),
    }
}

/// Are these the first `n` fields, each once, in the order of packing?
pub open spec fn packing_order(
    order: Seq<int>,
    fields: Seq<PackedField>,
    endian: Endianness,
    n: int,
) -> bool {
    &&& order.len() == n
    &&& forall|i: int| 0 <= i < order.len() ==> 0 <= #[trigger] order[i] < n
    &&& forall|i: int, j: int|
        0 <= i < j < order.len() ==> field_before(
            fields,
            endian,
            #[trigger] order[i],
            #[trigger] order[j],
        )
}

/// A field moved to its place.
pub open spec fn packed_part(
    expr: Seq<char>,
    fields: Seq<PackedField>,
    total_bits: nat,
    k: int,
) -> Seq<char> {
    if fields[k].offset_bits == 0 {
        "(zext`{"@ + dec(total_bits) + "} ("@ + expr + ")."@ + dec(k as nat) + ")"@
    } else {
        "((zext`{"@ + dec(total_bits) + "} ("@ + expr + ")."@ + dec(k as nat) + ") << "@
            + dec(fields[k].offset_bits as nat) + ")"@
    }
}

pub open spec fn packed_parts(
    expr: Seq<char>,
    fields: Seq<PackedField>,
    total_bits: nat,
    order: Seq<int>,
) -> Seq<Seq<char>> {
    Seq::new(order.len(), |i: int| packed_part(expr, fields, total_bits, order[i]))
}

/// Is the text that of the fields packed into an integer?
pub open spec fn packs(
    r: Seq<char>,
    expr: Seq<char>,
    fields: Seq<PackedField>,
    total_bits: nat,
    endian: Endianness,
) -> bool {
    if fields.len() == 0 {
        r == "(0 : ["@ + dec(total_bits) + "])"@
    } else {
        exists|order: Seq<int>| #[trigger]
            packing_order(order, fields, endian, fields.len() as int) && r == joined(
                packed_parts(expr, fields, total_bits, order),
                " || "@,
            )
    }
}

/// The order of packing holds every field: no place is lost.
pub proof fn law_packing_order_is_complete(
    order: Seq<int>,
    fields: Seq<PackedField>,
    endian: Endianness,
    k: int,
)
    requires
        packing_order(order, fields, endian, fields.len() as int),
        0 <= k < fields.len(),
    ensures
        order.contains(k),
{
    let n = fields.len();
    assert(order.no_duplicates()) by {
        assert forall|i: int, j: int|
            0 <= i < order.len() && 0 <= j < order.len() && i != j implies order[i] != order[j] by {
            if i < j {
                assert(field_before(fields, endian, order[i], order[j]));
            } else {
                assert(field_before(fields, endian, order[j], order[i]));
            }
        }
    }
    let all = Set::<int>::range(0, n as int);
    order.unique_seq_to_set();
    vstd::set_lib::range_set_properties::<int>(0, n as int);
    assert(order.to_set().subset_of(all)) by {
        assert forall|x: int| order.to_set().contains(x) implies all.contains(x) by {
            let i = choose|i: int| 0 <= i < order.len() && order[i] == x;
            assert(0 <= order[i] < n);
        }
    }
    vstd::set_lib::lemma_subset_equality(order.to_set(), all);
    assert(all.contains(k));
}

/// In two orders of packing that agree up to a place, the field of the one
/// at that place does not come before that of the other.
proof fn lemma_not_earlier(
    a: Seq<int>,
    b: Seq<int>,
    fields: Seq<PackedField>,
    endian: Endianness,
    i: int,
)
    requires
        packing_order(a, fields, endian, fields.len() as int),
        packing_order(b, fields, endian, fields.len() as int),
        0 <= i < fields.len(),
        forall|k: int| 0 <= k < i ==> #[trigger] a[k] == b[k],
    ensures
        !field_before(fields, endian, a[i], b[i]),
{
    law_packing_order_is_complete(b, fields, endian, a[i]);
    let k = choose|k: int| 0 <= k < b.len() && b[k] == a[i];
    if k < i {
        assert(a[k] == b[k]);
        assert(field_before(fields, endian, a[k], a[i]));
    } else if k > i {
        assert(field_before(fields, endian, b[i], b[k]));
    }
}

proof fn lemma_same_order(
    a: Seq<int>,
    b: Seq<int>,
    fields: Seq<PackedField>,
    endian: Endianness,
    n: int,
)
    requires
        packing_order(a, fields, endian, fields.len() as int),
        packing_order(b, fields, endian, fields.len() as int),
        0 <= n <= fields.len(),
    ensures
        forall|k: int| 0 <= k < n ==> #[trigger] a[k] == b[k],
    decreases n,
{
    if n > 0 {
        lemma_same_order(a, b, fields, endian, n - 1);
        lemma_not_earlier(a, b, fields, endian, n - 1);
        lemma_not_earlier(b, a, fields, endian, n - 1);
    }
}

/// There is one order of packing only.
pub proof fn law_packing_order_is_unique(
    a: Seq<int>,
    b: Seq<int>,
    fields: Seq<PackedField>,
    endian: Endianness,
)
    requires
        packing_order(a, fields, endian, fields.len() as int),
        packing_order(b, fields, endian, fields.len() as int),
    ensures
        a == b,
{
    lemma_same_order(a, b, fields, endian, fields.len() as int);
    assert(a =~= b);
}

fn field_precedes(fields: &Vec<PackedField>, endian: Endianness, a: usize, b: usize) -> (r: bool)
    requires
        a < fields@.len(),
        b < fields@.len(),
    ensures
        r == field_before(fields@, endian, a as int, b as int),
{
    let x: u32 = fields[a].offset_bits;
    let y: u32 = fields[b].offset_bits;
    match endian {
        Endianness::Little => x < y || (x == y && a < b),
        Endianness::Big => x > y || (x == y && a < b),
    }
}

pub open spec fn indices(v: Seq<usize>) -> Seq<int> {
    Seq::new(v.len(), |i: int| v[i] as int)
}

fn sort_fields(fields: &Vec<PackedField>, endian: Endianness) -> (order: Vec<usize>)
    ensures
        packing_order(indices(order@), fields@, endian, fields@.len() as int),
{
    let mut order: Vec<usize> = Vec::new();
    let mut n: usize = 0;
    while n < fields.len()
        invariant
            n <= fields@.len(),
            packing_order(indices(order@), fields@, endian, n as int),
        decreases fields@.len() - n,
    {
        let ghost o = indices(order@);
        let mut p: usize = 0;
        assert forall|i: int| 0 <= i < order@.len() implies #[trigger] order@[i] < n by {
            assert(o[i] == order@[i]);
        }
        while p < order.len() && field_precedes(fields, endian, order[p], n)
            invariant
                n < fields@.len(),
                o == indices(order@),
                packing_order(o, fields@, endian, n as int),
                forall|i: int| 0 <= i < order@.len() ==> #[trigger] order@[i] < n,
                p <= order@.len(),
                forall|i: int|
                    0 <= i < p ==> field_before(fields@, endian, #[trigger] o[i], n as int),
            decreases order@.len() - p,
        {
            assert(order@[p as int] == o[p as int]);
            p += 1;
        }
        order.insert(p, n);
        proof {
            let w = o.insert(p as int, n as int);
            assert(indices(order@) =~= w);
            assert forall|i: int, j: int| 0 <= i < j < w.len() implies field_before(
                fields@,
                endian,
                #[trigger] w[i],
                #[trigger] w[j],
            ) by {
                let a = if i < p { i } else { i - 1 };
                let b = if j < p { j } else { j - 1 };
                if i != p && j != p {
                    assert(w[i] == o[a] && w[j] == o[b]);
                } else if i == p {
                    assert(w[j] == o[b]);
                    assert(!field_before(fields@, endian, o[p as int], n as int));
                    if b > p {
                        assert(field_before(fields@, endian, o[p as int], o[b]));
                    }
                } else {
                    assert(w[i] == o[a]);
                }
            }
            assert forall|i: int| 0 <= i < w.len() implies 0 <= #[trigger] w[i] < n + 1 by {
                let a = if i < p { i } else { i - 1 };
                if i != p {
                    assert(w[i] == o[a]);
                }
            }
        }
        n += 1;
    }
    order
}

fn put_packed_part(out: &mut String, expr: &str, fields: &Vec<PackedField>, total_bits: u32, k: usize)
    requires
        k < fields@.len(),
    ensures
        final(out)@ == old(out)@ + packed_part(expr@, fields@, total_bits as nat, k as int),
{
    broadcast use {group_append, group_views};
    let shift: u32 = fields[k].offset_bits;
    if shift == 0 {
        put(out, "(zext`{");
        put_dec(out, total_bits as u128);
        put3(out, "} (", expr, ").");
        put_dec(out, k as u128);
        put(out, ")");
    } else {
        put(out, "((zext`{");
        put_dec(out, total_bits as u128);
        put3(out, "} (", expr, ").");
        put_dec(out, k as u128);
        put(out, ") << ");
        put_dec(out, shift as u128);
        put(out, ")");
    }
}

/// A tuple packed into an integer: each field extended, shifted to its
/// place, and combined with the others.
fn wrap_pack_int(
    expr: &str,
    fields: &Vec<PackedField>,
    total_bits: u32,
    endian: Endianness,
) -> (r: String)
    ensures
        packs(r@, expr@, fields@, total_bits as nat, endian),
{
    broadcast use {group_append, group_views};
    let mut r = String::new();
    if fields.len() == 0 {
        put(&mut r, "(0 : [");
        put_dec(&mut r, total_bits as u128);
        put(&mut r, "])");
        return r;
    }
    let order = sort_fields(fields, endian);
    let ghost o = indices(order@);
    let ghost parts = packed_parts(expr@, fields@, total_bits as nat, o);
    let mut list: Vec<String> = Vec::new();
    let mut i: usize = 0;
    while i < order.len()
        invariant
            o == indices(order@),
            packing_order(o, fields@, endian, fields@.len() as int),
            parts == packed_parts(expr@, fields@, total_bits as nat, o),
            i <= order@.len(),
            list@.len() == i,
            forall|k: int| 0 <= k < i ==> (#[trigger] list@[k])@ == parts[k],
        decreases order@.len() - i,
    {
        assert(o[i as int] == order@[i as int]);
        let mut part = String::new();
        put_packed_part(&mut part, expr, fields, total_bits, order[i]);
        list.push(part);
        i += 1;
    }
    assert(views(list@) =~= parts);
    join(&list, " || ")
}

/// Field `i` of a tuple as a struct element: one bit as a vector of one.
pub open spec fn tuple_field(expr: Seq<char>, bits: u32, i: nat) -> Seq<char> {
    if bits == 1 {
        "[("@ + expr + ")."@ + dec(i) + "] : [1]"@
    } else {
        "("@ + expr + ")."@ + dec(i)
    }
}

pub open spec fn tuple_fields(expr: Seq<char>, bits: Seq<u32>) -> Seq<Seq<char>> {
    Seq::new(bits.len(), |i: int| tuple_field(expr, bits[i], i as nat))
}

pub open spec fn term_fields(expr: Seq<char>, bits: Seq<u32>) -> Seq<Seq<char>> {
    Seq::new(
        bits.len(),
        |i: int| "llvm_term {{ "@ + tuple_field(expr, bits[i], i as nat) + " }}"@,
    )
}

fn put_tuple_field(out: &mut String, expr: &str, bits: u32, i: usize)
    ensures
        final(out)@ == old(out)@ + tuple_field(expr@, bits, i as nat),
{
    broadcast use {group_append, group_views};
    if bits == 1 {
        put3(out, "[(", expr, ").");
        put_dec(out, i as u128);
        put(out, "] : [1]");
    } else {
        put3(out, "(", expr, ").");
        put_dec(out, i as u128);
    }
}

fn wrap_struct_value(expr: &str, field_bits: &Vec<u32>) -> (r: String)
    ensures
        r@ == joined(tuple_fields(expr@, field_bits@), ", "@),
{
    broadcast use {group_append, group_views};
    let mut list: Vec<String> = Vec::new();
    let mut i: usize = 0;
    while i < field_bits.len()
        invariant
            i <= field_bits@.len(),
            list@.len() == i,
            forall|k: int|
                0 <= k < i ==> (#[trigger] list@[k])@ == tuple_field(
                    expr@,
                    field_bits@[k],
                    k as nat,
                ),
        decreases field_bits@.len() - i,
    {
        let mut s = String::new();
        put_tuple_field(&mut s, expr, field_bits[i], i);
        list.push(s);
        i += 1;
    }
    assert(views(list@) =~= tuple_fields(expr@, field_bits@));
    join(&list, ", ")
}

/// The statement that a struct value is returned.
pub open spec fn struct_return(call: Seq<char>, bits: Seq<u32>) -> Seq<char> {
    "    llvm_return (llvm_struct_value ["@ + joined(term_fields(call, bits), ", "@) + "]);\n"@
}

fn emit_struct_value_return(cry_call: &str, field_bits: &Vec<u32>) -> (r: String)
    ensures
        r@ == struct_return(cry_call@, field_bits@),
{
    broadcast use {group_append, group_views};
    let mut list: Vec<String> = Vec::new();
    let mut i: usize = 0;
    while i < field_bits.len()
        invariant
            i <= field_bits@.len(),
            list@.len() == i,
            forall|k: int|
                0 <= k < i ==> (#[trigger] list@[k])@ == term_fields(cry_call@, field_bits@)[k],
        decreases field_bits@.len() - i,
    {
        let mut s = String::new();
        put(&mut s, "llvm_term {{ ");
        put_tuple_field(&mut s, cry_call, field_bits[i], i);
        put(&mut s, " }}");
        list.push(s);
        i += 1;
    }
    assert(views(list@) =~= term_fields(cry_call@, field_bits@));
    let mut r = String::new();
    put3(&mut r, "    llvm_return (llvm_struct_value [", join(&list, ", ").as_str(), "]);\n");
    r
}

/// Each field of a result buffer at its offset.
pub open spec fn byte_fields_item(f: ByteField, call: Seq<char>) -> Seq<char> {
    let width = ((f.width + 7) / 8) as nat;
    "    llvm_points_to (llvm_elem result_ptr "@ + dec(f.byte_offset as nat)
        + ") (llvm_term {{ slice_field ("@ + call + ") "@ + dec(f.byte_offset as nat) + " "@
        + dec(width) + " }});\n"@
}

fn put_byte_fields_item(out: &mut String, f: &ByteField, call: &str)
    ensures
        final(out)@ == old(out)@ + byte_fields_item(*f, call@),
{
    broadcast use {group_append, group_views};
    let width: u64 = (f.width as u64 + 7) / 8;
    put(out, "    llvm_points_to (llvm_elem result_ptr ");
    put_dec(out, f.byte_offset as u128);
    put3(out, ") (llvm_term {{ slice_field (", call, ") ");
    put_dec(out, f.byte_offset as u128);
    put(out, " ");
    put_dec(out, width as u128);
    put(out, " }});\n");
}

/// Each field of a result buffer at its offset.
pub open spec fn byte_fields(v: Seq<ByteField>, call: Seq<char>) -> Seq<char>
    decreases v.len(),
{
    if v.len() == 0 {
        nil()
    } else {
        byte_fields(v.drop_last(), call) + byte_fields_item(v.last(), call)
    }
}

/// Each field of a result buffer at its offset.
fn put_byte_fields(out: &mut String, v: &[ByteField], call: &str)
    ensures
        final(out)@ == old(out)@ + byte_fields(v@, call@),
{
    broadcast use lemma_append_nothing;
    let mut i: usize = 0;
    assert(byte_fields(v@.take(0), call@) =~= nil());
    while i < v.len()
        invariant
            i <= v@.len(),
            out@ == old(out)@ + byte_fields(v@.take(i as int), call@),
        decreases v@.len() - i,
    {
        proof {
            assert(v@.take(i + 1).drop_last() =~= v@.take(i as int));
            lemma_append_assoc(old(out)@, byte_fields(v@.take(i as int), call@), byte_fields_item(v@[i as int], call@));
        }
        put_byte_fields_item(out, &v[i], call);
        i += 1;
    }
    assert(v@.take(v@.len() as int) =~= v@);
}

/// Do the preserved ranges end within the address space?
pub open spec fn ranges_fit(v: Seq<PreservedRange>) -> bool {
    forall|i: int| 0 <= i < v.len() ==> (#[trigger] v[i]).start + v[i].len <= usize::MAX
}

/// Each preserved range keeps the bytes that the buffer held before the call.
pub open spec fn preserved_ranges_item(p: PreservedRange) -> Seq<char> {
    "    // bytes ["@ + dec(p.start as nat) + ".."@ + dec((p.start + p.len) as nat)
        + ") preserved from prestate\n"@
        + "    llvm_points_to_at_type (llvm_field result_ptr \""@ + dec(p.start as nat)
        + "\") (llvm_array_type "@ + dec(p.len as nat)
        + " (llvm_int 8)) (llvm_term preBytes);\n"@
}

fn put_preserved_ranges_item(out: &mut String, p: &PreservedRange)
    requires
        p.start + p.len <= usize::MAX,
    ensures
        final(out)@ == old(out)@ + preserved_ranges_item(*p),
{
    broadcast use {group_append, group_views};
    let end: usize = p.start + p.len;
    put(out, "    // bytes [");
    put_dec(out, p.start as u128);
    put(out, "..");
    put_dec(out, end as u128);
    put(out, ") preserved from prestate\n");
    put(out, "    llvm_points_to_at_type (llvm_field result_ptr \"");
    put_dec(out, p.start as u128);
    put(out, "\") (llvm_array_type ");
    put_dec(out, p.len as u128);
    put(out, " (llvm_int 8)) (llvm_term preBytes);\n");
}

/// Each preserved range keeps the bytes that the buffer held before the call.
pub open spec fn preserved_ranges(v: Seq<PreservedRange>) -> Seq<char>
    decreases v.len(),
{
    if v.len() == 0 {
        nil()
    } else {
        preserved_ranges(v.drop_last()) + preserved_ranges_item(v.last())
    }
}

/// Each preserved range keeps the bytes that the buffer held before the call.
fn put_preserved_ranges(out: &mut String, v: &[PreservedRange])
    requires
        ranges_fit(v@),
    ensures
        final(out)@ == old(out)@ + preserved_ranges(v@),
{
    broadcast use lemma_append_nothing;
    let mut i: usize = 0;
    assert(preserved_ranges(v@.take(0)) =~= nil());
    while i < v.len()
        invariant
            ranges_fit(v@),
            i <= v@.len(),
            out@ == old(out)@ + preserved_ranges(v@.take(i as int)),
        decreases v@.len() - i,
    {
        proof {
            assert(v@.take(i + 1).drop_last() =~= v@.take(i as int));
            lemma_append_assoc(old(out)@, preserved_ranges(v@.take(i as int)), preserved_ranges_item(v@[i as int]));
        }
        put_preserved_ranges_item(out, &v[i]);
        i += 1;
    }
    assert(v@.take(v@.len() as int) =~= v@);
}

/// The statement of what a result buffer holds after the call.
pub open spec fn bytes_return(
    call: Seq<char>,
    fields: Seq<ByteField>,
    preserved: Seq<PreservedRange>,
) -> Seq<char> {
    if preserved.len() == 0 {
        "    llvm_points_to result_ptr (llvm_term {{ "@ + call + " }});\n"@
    } else {
        byte_fields(fields, call) + preserved_ranges(preserved)
    }
}

fn emit_struct_bytes_return(
    cry_call: &str,
    fields: &Vec<ByteField>,
    preserved: &Vec<PreservedRange>,
) -> (r: String)
    requires
        ranges_fit(preserved@),
    ensures
        r@ == bytes_return(cry_call@, fields@, preserved@),
{
    broadcast use {group_append, group_views};
    let mut r = String::new();
    if preserved.len() == 0 {
        put3(&mut r, "    llvm_points_to result_ptr (llvm_term {{ ", cry_call, " }});\n");
    } else {
        put_byte_fields(&mut r, fields.as_slice(), cry_call);
        put_preserved_ranges(&mut r, preserved.as_slice());
    }
    r
}

/// The chain of cases over the first `n` variants, with the last variant
/// as the remaining case.
pub open spec fn remap_chain(
    expr: Seq<char>,
    variants: Seq<(u64, u64)>,
    bits: nat,
    n: int,
) -> Seq<char>
    decreases n,
{
    if n <= 0 {
        "("@ + dec(variants.last().1 as nat) + " : ["@ + dec(bits) + "])"@
    } else {
        let v = variants[n - 1];
        "if ("@ + expr + ") == ("@ + dec(v.0 as nat) + " : ["@ + dec(bits) + "]) then ("@
            + dec(v.1 as nat) + " : ["@ + dec(bits) + "]) else ("@
            + remap_chain(expr, variants, bits, n - 1) + ")"@
    }
}

/// The discriminant of the compiled enumeration for that of the model.
pub open spec fn remap_text(expr: Seq<char>, variants: Seq<(u64, u64)>, bits: nat) -> Seq<char> {
    if variants.len() == 2 {
        "if ("@ + expr + ") == ("@ + dec(variants[0].0 as nat) + " : ["@ + dec(bits)
            + "]) then ("@ + dec(variants[0].1 as nat) + " : ["@ + dec(bits) + "]) else ("@
            + dec(variants[1].1 as nat) + " : ["@ + dec(bits) + "])"@
    } else {
        remap_chain(expr, variants, bits, variants.len() - 1)
    }
}

fn remap(expr: &str, variants: &Vec<(u64, u64)>, abi_bits: u32) -> (r: String)
    requires
        variants@.len() > 0,
    ensures
        r@ == remap_text(expr@, variants@, abi_bits as nat),
{
    broadcast use {group_append, group_views};
    let mut r = String::new();
    if variants.len() == 2 {
        let (cry0, abi0) = variants[0];
        let (_, abi1) = variants[1];
        put3(&mut r, "if (", expr, ") == (");
        put_dec(&mut r, cry0 as u128);
        put(&mut r, " : [");
        put_dec(&mut r, abi_bits as u128);
        put(&mut r, "]) then (");
        put_dec(&mut r, abi0 as u128);
        put(&mut r, " : [");
        put_dec(&mut r, abi_bits as u128);
        put(&mut r, "]) else (");
        put_dec(&mut r, abi1 as u128);
        put(&mut r, " : [");
        put_dec(&mut r, abi_bits as u128);
        put(&mut r, "])");
        return r;
    }
    let last: usize = variants.len() - 1;
    let rest: u64 = variants[last].1;
    put(&mut r, "(");
    put_dec(&mut r, rest as u128);
    put(&mut r, " : [");
    put_dec(&mut r, abi_bits as u128);
    put(&mut r, "])");
    let mut n: usize = 0;
    while n < last
        invariant
            last == variants@.len() - 1,
            n <= last,
            r@ == remap_chain(expr@, variants@, abi_bits as nat, n as int),
        decreases last - n,
    {
        let (cry, abi) = variants[n];
        let mut s = String::new();
        put3(&mut s, "if (", expr, ") == (");
        put_dec(&mut s, cry as u128);
        put(&mut s, " : [");
        put_dec(&mut s, abi_bits as u128);
        put(&mut s, "]) then (");
        put_dec(&mut s, abi as u128);
        put(&mut s, " : [");
        put_dec(&mut s, abi_bits as u128);
        put3(&mut s, "]) else (", r.as_str(), ")");
        r = s;
        n += 1;
    }
    r
}

/// Can the result be adapted? A truncation does not widen, a mapping of
/// variants has one, and preserved ranges end within the address space.
pub open spec fn return_bridge_ok(b: AbiReturnBridge) -> bool
    decreases b,
{
    match b {
        AbiReturnBridge::Truncate { cry_bits, llvm_bits } => llvm_bits <= cry_bits,
        AbiReturnBridge::StructBytes { preserved, .. } => ranges_fit(preserved@),
        AbiReturnBridge::VariantRemap { variants, inner, .. } => variants@.len() > 0
            && match inner {
            Some(i) => return_bridge_ok(*i),
            None => true,
        },
        _ => true,
    }
}

/// Is `r` the Cryptol expression `expr` as the compiled function returns
/// it?
pub open spec fn return_wraps(b: AbiReturnBridge, expr: Seq<char>, r: Seq<char>) -> bool
    decreases b,
{
    match b {
        AbiReturnBridge::Identity => r == expr,
        AbiReturnBridge::BitPack => r == "["@ + expr + "] : [1]"@,
        AbiReturnBridge::ZeroExtend { llvm_bits, .. } => r
            == "zext`{"@ + dec(llvm_bits as nat) + "} ("@ + expr + ")"@,
        AbiReturnBridge::Truncate { cry_bits, llvm_bits } => {
            let d = (cry_bits - llvm_bits) as nat;
            r == "drop`{"@ + dec(d) + "} ("@ + expr + ")"@
        },
        AbiReturnBridge::PackInt { fields, total_bits, endian } => packs(
            r,
            expr,
            fields@,
            total_bits as nat,
            endian,
        ),
        AbiReturnBridge::StructValue { field_bits } => r == joined(
            tuple_fields(expr, field_bits@),
            ", "@,
        ),
        AbiReturnBridge::StructBytes { .. } => r == expr,
        AbiReturnBridge::VariantRemap { variants, abi_bits, inner } => {
            let mapped = remap_text(expr, variants@, abi_bits as nat);
            match inner {
                Some(i) => return_wraps(*i, mapped, r),
                None => r == mapped,
            }
        },
    }
}

/// Is `r` the statement of what the compiled function returns?
pub open spec fn saw_return_is(b: AbiReturnBridge, call: Seq<char>, r: Seq<char>) -> bool {
    match b {
        AbiReturnBridge::StructValue { field_bits } => r == struct_return(call, field_bits@),
        AbiReturnBridge::StructBytes { fields, preserved, .. } => r == bytes_return(
            call,
            fields@,
            preserved@,
        ),
        _ => exists|w: Seq<char>| #[trigger]
            return_wraps(b, call, w) && r == "    llvm_return (llvm_term {{ "@ + w + " }});\n"@,
    }
}

/// The expression that a bridge returns is fixed: there are no two of them.
pub proof fn law_wrapped_return_is_fixed(
    b: AbiReturnBridge,
    expr: Seq<char>,
    r: Seq<char>,
    s: Seq<char>,
)
    requires
        return_wraps(b, expr, r),
        return_wraps(b, expr, s),
    ensures
        r == s,
    decreases b,
{
    match b {
        AbiReturnBridge::PackInt { fields, total_bits, endian } => {
            let v = fields@;
            let t = total_bits as nat;
            if v.len() > 0 {
                let x = choose|order: Seq<int>| #[trigger]
                    packing_order(order, v, endian, v.len() as int) && r == joined(
                        packed_parts(expr, v, t, order),
                        " || "@,
                    );
                let y = choose|order: Seq<int>| #[trigger]
                    packing_order(order, v, endian, v.len() as int) && s == joined(
                        packed_parts(expr, v, t, order),
                        " || "@,
                    );
                law_packing_order_is_unique(x, y, v, endian);
            }
        },
        AbiReturnBridge::VariantRemap { variants, abi_bits, inner } => {
            if let Some(i) = inner {
                law_wrapped_return_is_fixed(
                    *i,
                    remap_text(expr, variants@, abi_bits as nat),
                    r,
                    s,
                );
            }
        },
        _ => {},
    }
}

/// The statement of what the compiled function returns is fixed: there are
/// no two of them.
pub proof fn law_saw_return_is_fixed(
    b: AbiReturnBridge,
    call: Seq<char>,
    r: Seq<char>,
    s: Seq<char>,
)
    requires
        saw_return_is(b, call, r),
        saw_return_is(b, call, s),
    ensures
        r == s,
{
    match b {
        AbiReturnBridge::StructValue { .. } => {},
        AbiReturnBridge::StructBytes { .. } => {},
        _ => {
            let x = choose|w: Seq<char>| #[trigger]
                return_wraps(b, call, w) && r == "    llvm_return (llvm_term {{ "@ + w + " }});\n"@;
            let y = choose|w: Seq<char>| #[trigger]
                return_wraps(b, call, w) && s == "    llvm_return (llvm_term {{ "@ + w + " }});\n"@;
            law_wrapped_return_is_fixed(b, call, x, y);
        },
    }
}

impl AbiReturnBridge {
    /// The Cryptol expression as the compiled function returns it.
    pub fn wrap(&self, expr: &str) -> (r: String)
        requires
            return_bridge_ok(*self),
        ensures
            return_wraps(*self, expr@, r@),
        decreases self,
    {
        broadcast use {group_append, group_views};
        let mut r = String::new();
        match self {
            AbiReturnBridge::Identity => owned(expr),
            AbiReturnBridge::BitPack => {
                put3(&mut r, "[", expr, "] : [1]");
                r
            },
            AbiReturnBridge::ZeroExtend { llvm_bits, .. } => {
                put(&mut r, "zext`{");
                put_dec(&mut r, *llvm_bits as u128);
                put3(&mut r, "} (", expr, ")");
                r
            },
            AbiReturnBridge::Truncate { cry_bits, llvm_bits } => {
                let d: u32 = *cry_bits - *llvm_bits;
                put(&mut r, "drop`{");
                put_dec(&mut r, d as u128);
                put3(&mut r, "} (", expr, ")");
                r
            },
            AbiReturnBridge::PackInt { fields, total_bits, endian } => wrap_pack_int(
                expr,
                fields,
                *total_bits,
                *endian,
            ),
            AbiReturnBridge::StructValue { field_bits } => wrap_struct_value(expr, field_bits),
            AbiReturnBridge::StructBytes { .. } => owned(expr),
            AbiReturnBridge::VariantRemap { variants, abi_bits, inner } => {
                let mapped = remap(expr, variants, *abi_bits);
                match inner {
                    Some(i) => i.wrap(mapped.as_str()),
                    None => mapped,
                }
            },
        }
    }

    /// The statement of what the compiled function returns.
    pub fn emit_saw_return(&self, cry_call: &str) -> (r: String)
        requires
            return_bridge_ok(*self),
        ensures
            saw_return_is(*self, cry_call@, r@),
    {
        broadcast use {group_append, group_views};
        match self {
            AbiReturnBridge::StructValue { field_bits } => emit_struct_value_return(
                cry_call,
                field_bits,
            ),
            AbiReturnBridge::StructBytes { fields, preserved, .. } => emit_struct_bytes_return(
                cry_call,
                fields,
                preserved,
            ),
            _ => {
                let w = self.wrap(cry_call);
                let mut r = String::new();
                put3(&mut r, "    llvm_return (llvm_term {{ ", w.as_str(), " }});\n");
                r
            },
        }
    }
}

/// The adapter of a parameter of the given widths.
pub open spec fn param_bridge_of(llvm_bits: u32, cry_bits: u32) -> AbiParamBridge {
    if llvm_bits == cry_bits {
        if llvm_bits == 1 {
            AbiParamBridge::BitExtract
        } else {
            AbiParamBridge::Identity
        }
    } else if llvm_bits > cry_bits {
        AbiParamBridge::Truncate { llvm_bits, cry_bits }
    } else {
        AbiParamBridge::ZeroExtend { llvm_bits, cry_bits }
    }
}

/// The adapter of a parameter of the given widths.
pub fn param_bridge(llvm_bits: u32, cry_bits: u32) -> (r: AbiParamBridge)
    ensures
        r == param_bridge_of(llvm_bits, cry_bits),
        param_bridge_ok(r),
{
    if llvm_bits == cry_bits {
        if llvm_bits == 1 {
            AbiParamBridge::BitExtract
        } else {
            AbiParamBridge::Identity
        }
    } else if llvm_bits > cry_bits {
        AbiParamBridge::Truncate { llvm_bits, cry_bits }
    } else {
        AbiParamBridge::ZeroExtend { llvm_bits, cry_bits }
    }
}

/// The adapter of a scalar result of the given widths.
pub open spec fn return_bridge_of(cry_bits: u32, llvm_bits: u32) -> AbiReturnBridge {
    if cry_bits == llvm_bits {
        if llvm_bits == 1 {
            AbiReturnBridge::BitPack
        } else {
            AbiReturnBridge::Identity
        }
    } else if cry_bits > llvm_bits {
        AbiReturnBridge::Truncate { cry_bits, llvm_bits }
    } else {
        AbiReturnBridge::ZeroExtend { cry_bits, llvm_bits }
    }
}

/// The adapter of a scalar result of the given widths.
pub fn return_bridge(cry_bits: u32, llvm_bits: u32) -> (r: AbiReturnBridge)
    ensures
        r == return_bridge_of(cry_bits, llvm_bits),
        return_bridge_ok(r),
{
    if cry_bits == llvm_bits {
        if llvm_bits == 1 {
            AbiReturnBridge::BitPack
        } else {
            AbiReturnBridge::Identity
        }
    } else if cry_bits > llvm_bits {
        AbiReturnBridge::Truncate { cry_bits, llvm_bits }
    } else {
        AbiReturnBridge::ZeroExtend { cry_bits, llvm_bits }
    }
}

/// A parameter that narrows on its way into the model widens back on its
/// way out, and the other way round; one that passes unchanged does so both
/// ways.
pub proof fn law_bridges_mirror(llvm_bits: u32, cry_bits: u32)
    ensures
        param_bridge_of(llvm_bits, cry_bits) is Truncate <==> return_bridge_of(
            cry_bits,
            llvm_bits,
        ) is ZeroExtend,
        param_bridge_of(llvm_bits, cry_bits) is ZeroExtend <==> return_bridge_of(
            cry_bits,
            llvm_bits,
        ) is Truncate,
        param_bridge_of(llvm_bits, cry_bits) is Identity <==> return_bridge_of(
            cry_bits,
            llvm_bits,
        ) is Identity,
        param_bridge_of(llvm_bits, cry_bits) is BitExtract <==> return_bridge_of(
            cry_bits,
            llvm_bits,
        ) is BitPack,
{
}

} // verus!
