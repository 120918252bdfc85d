//! Mapping between three vocabularies of types: SAW over LLVM
//! (`llvm_int 32`), SAW over MIR (`mir_u32`) and the text of LLVM IR
//! (`i32`).

use vstd::prelude::*;

use crate::constraints::{type_view, FunctionInfo, ParamInfo, TypeInfo, TypeView};
use crate::text::{
    CharSet, after_prefix, contains, dec, group_append, group_views, mentions, opt_string, owned,
    put, put2, put3, put_dec, replace, replaced, same, starts, starts_with, strip_prefix, trim_end,
    trim_start, trimmed_end, trimmed_start, views,
};

verus! {

/// The alias of a struct that is known by name only.
pub open spec fn alias_text(name: Seq<char>) -> Seq<char> {
    "llvm_alias \""@ + name + "\""@
}

/// A flat array of bytes.
pub open spec fn bytes_text(n: nat) -> Seq<char> {
    "llvm_array "@ + dec(n) + " (llvm_int 8)"@
}

/// The SAW type of a type of the analysed program.
pub open spec fn saw_text(ty: TypeView) -> Seq<char>
    decreases ty,
{
    match ty {
        TypeView::Void => "// void"@,
        TypeView::Bool => "llvm_int 1"@,
        TypeView::SignedInt(bits) => "llvm_int "@ + dec(bits as nat),
        TypeView::UnsignedInt(bits) => "llvm_int "@ + dec(bits as nat),
        TypeView::Float(bits) => if bits == 32 {
            "llvm_float"@
        } else {
            "llvm_double"@
        },
        TypeView::Pointer(inner) => match *inner {
            TypeView::Void => "llvm_pointer (llvm_int 8)"@,
            _ => "llvm_pointer ("@ + saw_text(*inner) + ")"@,
        },
        TypeView::Struct { name, size, .. } => match size {
            Some(n) => bytes_text(n as nat),
            None => alias_text(name),
        },
        TypeView::Enum { bits, .. } => "llvm_int "@ + dec(bits as nat),
        TypeView::Opaque { name, size } => if size > 0 {
            bytes_text(size as nat)
        } else {
            alias_text(name)
        },
        TypeView::ByteArray(n) => bytes_text(n as nat),
        TypeView::Option(_) => alias_text("Option"@),
        TypeView::Result(_, _) => alias_text("Result"@),
    }
}

/// The SAW type of what a pointer points to: an untyped pointer points to
/// a byte.
pub open spec fn pointee_text(ty: TypeView) -> Seq<char> {
    match ty {
        TypeView::Void => "llvm_int 8"@,
        _ => saw_text(ty),
    }
}

fn bytes_type(n: usize) -> (r: String)
    ensures
        r@ == bytes_text(n as nat),
{
    broadcast use {group_append, group_views};
    let mut r = String::new();
    put(&mut r, "llvm_array ");
    put_dec(&mut r, n as u128);
    put(&mut r, " (llvm_int 8)");
    r
}

/// The alias of a struct that is known by name only.
pub fn alias_type(name: &str) -> (r: String)
    ensures
        r@ == alias_text(name@),
{
    broadcast use {group_append, group_views};
    let mut r = String::new();
    put3(&mut r, "llvm_alias \"", name, "\"");
    r
}

fn int_type(bits: u32) -> (r: String)
    ensures
        r@ == "llvm_int "@ + dec(bits as nat),
{
    broadcast use {group_append, group_views};
    let mut r = String::new();
    put(&mut r, "llvm_int ");
    put_dec(&mut r, bits as u128);
    r
}

/// The SAW type of a type of the analysed program.
pub fn type_to_saw(ty: &TypeInfo) -> (r: String)
    ensures
        r@ == saw_text(ty@),
    decreases ty,
{
    broadcast use {group_append, group_views};
    proof {
        reveal_with_fuel(type_view, 2);
    }
    match ty {
        TypeInfo::Void => owned("// void"),
        TypeInfo::Bool => owned("llvm_int 1"),
        TypeInfo::SignedInt(bits) => int_type(*bits),
        TypeInfo::UnsignedInt(bits) => int_type(*bits),
        TypeInfo::Float(bits) => if *bits == 32 {
            owned("llvm_float")
        } else {
            owned("llvm_double")
        },
        TypeInfo::Pointer(inner) => match **inner {
            TypeInfo::Void => owned("llvm_pointer (llvm_int 8)"),
            _ => {
                let t = type_to_saw(inner);
                let mut r = String::new();
                put3(&mut r, "llvm_pointer (", t.as_str(), ")");
                r
            },
        },
        TypeInfo::Struct { name, size_bytes, .. } => match size_bytes {
            Some(n) => bytes_type(*n),
            None => alias_type(name.as_str()),
        },
        TypeInfo::Enum { discriminant_bits, .. } => int_type(*discriminant_bits),
        TypeInfo::Opaque { name, size_bytes } => if *size_bytes > 0 {
            bytes_type(*size_bytes)
        } else {
            alias_type(name.as_str())
        },
        TypeInfo::ByteArray(n) => bytes_type(*n),
        TypeInfo::Option(_) => alias_type("Option"),
        TypeInfo::Result(_, _) => alias_type("Result"),
    }
}

/// The SAW type of what a pointer points to.
pub fn pointee_to_saw(ty: &TypeInfo) -> (r: String)
    ensures
        r@ == pointee_text(ty@),
{
    match ty {
        TypeInfo::Void => owned("llvm_int 8"),
        _ => type_to_saw(ty),
    }
}

/// The MIR form of a SAW type over LLVM.
pub open spec fn mir_text(llvm_type: Seq<char>) -> Seq<char> {
    if starts(llvm_type, "llvm_int "@) {
        "mir_u"@ + after_prefix(llvm_type, "llvm_int "@)->0
    } else if starts(llvm_type, "llvm_array "@) {
        replaced(
            replaced(llvm_type, "llvm_array"@, "mir_array"@),
            "llvm_int"@,
            "mir_u"@,
        )
    } else if starts(llvm_type, "llvm_alias "@) {
        let name = trimmed_end(
            trimmed_start(after_prefix(llvm_type, "llvm_alias "@)->0, CharSet::Is('"')),
            CharSet::Is('"'),
        );
        "mir_find_adt m \""@ + name + "\""@
    } else {
        llvm_type
    }
}

/// The MIR form of a SAW type over LLVM; a type without one stays as it is.
pub fn mir_saw_type(llvm_type: &str) -> (r: String)
    ensures
        r@ == mir_text(llvm_type@),
{
    broadcast use {group_append, group_views};
    let mut r = String::new();
    if let Some(bits) = strip_prefix(llvm_type, "llvm_int ") {
        put2(&mut r, "mir_u", bits);
        r
    } else if starts_with(llvm_type, "llvm_array ") {
        proof {
            reveal_strlit("llvm_array");
            reveal_strlit("llvm_int");
        }
        let a = replace(llvm_type, "llvm_array", "mir_array");
        replace(a.as_str(), "llvm_int", "mir_u")
    } else if let Some(rest) = strip_prefix(llvm_type, "llvm_alias ") {
        let name = trim_end(trim_start(rest, CharSet::Is('"')), CharSet::Is('"'));
        put3(&mut r, "mir_find_adt m \"", name, "\"");
        r
    } else {
        owned(llvm_type)
    }
}

/// The Cryptol type for a SAW integer type; any other type as it is.
pub open spec fn cryptol_text(saw_type: Seq<char>) -> Seq<char> {
    match after_prefix(saw_type, "llvm_int "@) {
        Some(bits) => "["@ + bits + "]"@,
        None => saw_type,
    }
}

/// The Cryptol type for a SAW integer type; any other type as it is.
pub fn cryptol_type_for_saw(saw_type: &str) -> (r: String)
    ensures
        r@ == cryptol_text(saw_type@),
{
    broadcast use {group_append, group_views};
    let mut r = String::new();
    if let Some(bits) = strip_prefix(saw_type, "llvm_int ") {
        put3(&mut r, "[", bits, "]");
        r
    } else {
        owned(saw_type)
    }
}

pub open spec fn byte_vector_ir(n: nat) -> Seq<char> {
    "["@ + dec(n) + " x i8]"@
}

pub open spec fn int_ir(bits: nat) -> Seq<char> {
    "i"@ + dec(bits)
}

/// The LLVM IR text of a type. An opaque type of at most 8 bytes is an
/// integer, a larger one an array of bytes; a type without a size is `i32`.
pub open spec fn ir_text(ty: TypeView) -> Seq<char> {
    match ty {
        TypeView::Void => "void"@,
        TypeView::Bool => "i1"@,
        TypeView::SignedInt(bits) => int_ir(bits as nat),
        TypeView::UnsignedInt(bits) => int_ir(bits as nat),
        TypeView::Pointer(_) => "ptr"@,
        TypeView::Struct { size: Some(n), .. } => byte_vector_ir(n as nat),
        TypeView::ByteArray(n) => byte_vector_ir(n as nat),
        TypeView::Enum { bits, .. } => int_ir(bits as nat),
        TypeView::Opaque { size, .. } => if size > 8 {
            byte_vector_ir(size as nat)
        } else if size > 0 {
            int_ir((size * 8) as nat)
        } else {
            "i32"@
        },
        _ => "i32"@,
    }
}

fn byte_vector(n: usize) -> (r: String)
    ensures
        r@ == byte_vector_ir(n as nat),
{
    broadcast use {group_append, group_views};
    let mut r = String::new();
    put(&mut r, "[");
    put_dec(&mut r, n as u128);
    put(&mut r, " x i8]");
    r
}

fn int_ir_type(bits: u32) -> (r: String)
    ensures
        r@ == int_ir(bits as nat),
{
    broadcast use {group_append, group_views};
    let mut r = String::new();
    put(&mut r, "i");
    put_dec(&mut r, bits as u128);
    r
}

/// The LLVM IR text of a type.
pub fn type_to_llvm_ir(ty: &TypeInfo) -> (r: String)
    ensures
        r@ == ir_text(ty@),
{
    match ty {
        TypeInfo::Void => owned("void"),
        TypeInfo::Bool => owned("i1"),
        TypeInfo::SignedInt(bits) => int_ir_type(*bits),
        TypeInfo::UnsignedInt(bits) => int_ir_type(*bits),
        TypeInfo::Pointer(_) => owned("ptr"),
        TypeInfo::Struct { size_bytes, .. } => match size_bytes {
            Some(n) => byte_vector(*n),
            None => owned("i32"),
        },
        TypeInfo::ByteArray(n) => byte_vector(*n),
        TypeInfo::Enum { discriminant_bits, .. } => int_ir_type(*discriminant_bits),
        TypeInfo::Opaque { size_bytes, .. } => if *size_bytes > 8 {
            byte_vector(*size_bytes)
        } else if *size_bytes > 0 {
            int_ir_type((*size_bytes * 8) as u32)
        } else {
            owned("i32")
        },
        _ => owned("i32"),
    }
}

/// Does the name denote an aggregate: a template instance or a qualified
/// name?
pub open spec fn aggregate_name(name: Seq<char>) -> bool {
    mentions(name, "<"@) || mentions(name, "::"@)
}

/// Does the name of an opaque type denote an aggregate?
pub fn looks_like_aggregate_name(name: &str) -> (r: bool)
    ensures
        r == aggregate_name(name@),
{
    contains(name, "<") || contains(name, "::")
}

/// The IR type of the hidden buffer through which a type is returned;
/// `None` where it is returned directly. Structs, opaque types of more than
/// 8 bytes and opaque types with an aggregate's name are returned through
/// a buffer, of 16 bytes where the size is not known.
pub open spec fn sret_ir(ty: TypeView) -> Option<Seq<char>> {
    match ty {
        TypeView::Struct { size: Some(n), .. } => Some(byte_vector_ir(n as nat)),
        TypeView::Struct { size: None, .. } => Some("[16 x i8]"@),
        TypeView::Opaque { size, name } => if size > 8 {
            Some(byte_vector_ir(size as nat))
        } else if size == 0 && aggregate_name(name) {
            Some("[16 x i8]"@)
        } else {
            None
        },
        _ => None,
    }
}

/// The IR type of the hidden buffer through which a type is returned.
pub fn sret_inner_ir_type(ty: &TypeInfo) -> (r: Option<String>)
    ensures
        opt_string(r) == sret_ir(ty@),
{
    match ty {
        TypeInfo::Struct { size_bytes, .. } => match size_bytes {
            Some(n) => Some(byte_vector(*n)),
            None => Some(owned("[16 x i8]")),
        },
        TypeInfo::Opaque { size_bytes, name } => if *size_bytes > 8 {
            Some(byte_vector(*size_bytes))
        } else if *size_bytes == 0 && looks_like_aggregate_name(name.as_str()) {
            Some(owned("[16 x i8]"))
        } else {
            None
        },
        _ => None,
    }
}

/// The IR text of the parameters of a stub: a type and `%arg` with the
/// position of the parameter.
pub open spec fn param_pieces(v: Seq<ParamInfo>) -> Seq<Seq<char>> {
    Seq::new(v.len(), |i: int| ir_text(v[i].ty@) + " %arg"@ + dec(i as nat))
}

/// The IR text of the parameters of a method's stub.
pub fn method_param_ir_pieces(func: &FunctionInfo) -> (r: Vec<String>)
    ensures
        views(r@) == param_pieces(func.params@),
{
    broadcast use {group_append, group_views};
    let mut r: Vec<String> = Vec::new();
    let mut i: usize = 0;
    while i < func.params.len()
        invariant
            i <= func.params@.len(),
            r@.len() == i,
            forall|k: int|
                0 <= k < i ==> #[trigger] r@[k]@ == ir_text(func.params@[k].ty@) + " %arg"@ + dec(
                    k as nat,
                ),
        decreases func.params@.len() - i,
    {
        let mut s = type_to_llvm_ir(&func.params[i].ty);
        put(&mut s, " %arg");
        put_dec(&mut s, i as u128);
        r.push(s);
        i += 1;
    }
    assert(views(r@) =~= param_pieces(func.params@));
    r
}

/// A return instruction of the given type.
pub open spec fn default_return_text(ir_type: Seq<char>) -> Seq<char> {
    if ir_type == "void"@ {
        "ret void"@
    } else if ir_type == "i1"@ {
        "ret i1 false"@
    } else {
        "ret "@ + ir_type + " 0"@
    }
}

/// A return instruction of the given type. An override replaces the body
/// it stands in, so the value is never observed.
pub fn ir_default_return(ir_type: &str) -> (r: String)
    ensures
        r@ == default_return_text(ir_type@),
{
    broadcast use {group_append, group_views};
    if same(ir_type, "void") {
        owned("ret void")
    } else if same(ir_type, "i1") {
        owned("ret i1 false")
    } else {
        let mut r = String::new();
        put3(&mut r, "ret ", ir_type, " 0");
        r
    }
}

} // verus!
