//! How the types of the analysed program are written: the width of an integer
//! is the same in SAW, in MIR, in Cryptol and in LLVM IR.

use vstd::prelude::*;

use crate::constraints::TypeView;
use crate::text::{dec, lemma_parsed_dec, mentions, starts};
use crate::types::{cryptol_text, ir_text, mir_text, pointee_text, saw_text, sret_ir};

verus! {

/// An integer has the width of its type in every notation, whatever its sign;
/// a truth value is one bit.
pub proof fn law_integer_width_is_kept(bits: u32)
    ensures
        saw_text(TypeView::SignedInt(bits)) == "llvm_int "@ + dec(bits as nat),
        saw_text(TypeView::UnsignedInt(bits)) == saw_text(TypeView::SignedInt(bits)),
        saw_text(TypeView::Bool) == "llvm_int "@ + dec(1nat),
        ir_text(TypeView::SignedInt(bits)) == "i"@ + dec(bits as nat),
        ir_text(TypeView::UnsignedInt(bits)) == ir_text(TypeView::SignedInt(bits)),
        ir_text(TypeView::Bool) == "i"@ + dec(1nat),
        cryptol_text(saw_text(TypeView::SignedInt(bits))) == "["@ + dec(bits as nat) + "]"@,
        mir_text(saw_text(TypeView::SignedInt(bits))) == "mir_u"@ + dec(bits as nat),
        forall|other: u32| #[trigger]
            saw_text(TypeView::SignedInt(other)) == saw_text(TypeView::SignedInt(bits)) ==> other
                == bits,
{
    reveal_strlit("llvm_int ");
    reveal_strlit("llvm_int 1");
    reveal_strlit("i");
    reveal_strlit("i1");
    reveal_with_fuel(dec, 2);
    let p = "llvm_int "@;
    let s = saw_text(TypeView::SignedInt(bits));
    assert(("llvm_int "@ + dec(1nat)) =~= "llvm_int 1"@);
    assert(("i"@ + dec(1nat)) =~= "i1"@);
    assert(s.take(p.len() as int) =~= p);
    assert(s.skip(p.len() as int) =~= dec(bits as nat));
    assert(starts(s, p));
    assert forall|other: u32| #[trigger]
        saw_text(TypeView::SignedInt(other)) == s implies other == bits by {
        let t = saw_text(TypeView::SignedInt(other));
        assert(t.skip(p.len() as int) =~= dec(other as nat));
        lemma_parsed_dec(bits as nat, u32::MAX as nat);
        lemma_parsed_dec(other as nat, u32::MAX as nat);
    }
}

/// A pointer is to the type of what it points to, an untyped one to bytes. An
/// enumeration is an integer. A struct or an opaque type of known size is as
/// many bytes, and so is an array of bytes; one of unknown size goes by name.
pub proof fn law_aggregates_are_bytes_or_names(
    ty: TypeView,
    name: Seq<char>,
    n: usize,
    fields: Seq<(Seq<char>, TypeView)>,
)
    ensures
        ty is Void ==> saw_text(TypeView::Pointer(Box::new(ty))) == "llvm_pointer (llvm_int 8)"@,
        !(ty is Void) ==> saw_text(TypeView::Pointer(Box::new(ty))) == "llvm_pointer ("@ + saw_text(ty) + ")"@,
        ir_text(TypeView::Pointer(Box::new(ty))) == "ptr"@,
        pointee_text(TypeView::Void) == "llvm_int 8"@,
        !(ty is Void) ==> pointee_text(ty) == saw_text(ty),
        ty matches TypeView::Enum { bits, .. } ==> saw_text(ty) == saw_text(
            TypeView::UnsignedInt(bits),
        ) && ir_text(ty) == ir_text(TypeView::UnsignedInt(bits)),
        saw_text(TypeView::ByteArray(n)) == "llvm_array "@ + dec(n as nat) + " (llvm_int 8)"@,
        saw_text(TypeView::Struct { name, size: Some(n), fields }) == saw_text(
            TypeView::ByteArray(n),
        ),
        saw_text(TypeView::Struct { name, size: None, fields }) == "llvm_alias \""@ + name + "\""@,
        saw_text(TypeView::Opaque { name, size: 0 }) == "llvm_alias \""@ + name + "\""@,
        n > 0 ==> saw_text(TypeView::Opaque { name, size: n }) == saw_text(TypeView::ByteArray(n)),
        ir_text(TypeView::ByteArray(n)) == "["@ + dec(n as nat) + " x i8]"@,
        ir_text(TypeView::Struct { name, size: Some(n), fields }) == ir_text(
            TypeView::ByteArray(n),
        ),
        n > 8 ==> ir_text(TypeView::Opaque { name, size: n }) == ir_text(TypeView::ByteArray(n)),
        0 < n <= 8 ==> ir_text(TypeView::Opaque { name, size: n }) == "i"@ + dec(8 * n as nat),
        saw_text(TypeView::Void) == "// void"@,
        ir_text(TypeView::Void) == "void"@,
        saw_text(TypeView::Float(32)) == "llvm_float"@,
        saw_text(TypeView::Float(64)) == "llvm_double"@,
{
    reveal_with_fuel(saw_text, 2);
}

/// An aggregate is returned through memory of its own size exactly when it is
/// a struct, is larger than 8 bytes, or has no size and the name of one; then
/// of 16 bytes where its size is not known.
pub proof fn law_returned_through_memory(
    ty: TypeView,
    name: Seq<char>,
    n: usize,
    fields: Seq<(Seq<char>, TypeView)>,
)
    ensures
        sret_ir(TypeView::Struct { name, size: Some(n), fields }) == Some(ir_text(TypeView::ByteArray(n))),
        sret_ir(TypeView::Struct { name, size: None, fields }) == Some(
            ir_text(TypeView::ByteArray(16)),
        ),
        sret_ir(TypeView::Opaque { name, size: n }) is Some <==> n > 8 || (n == 0 && (mentions(
            name,
            "<"@,
        ) || mentions(name, "::"@))),
        n > 8 ==> sret_ir(TypeView::Opaque { name, size: n }) == Some(ir_text(TypeView::ByteArray(n))),
        !(ty is Struct) && !(ty is Opaque) ==> sret_ir(ty) is None,
{
    reveal_strlit("[");
    reveal_strlit(" x i8]");
    reveal_strlit("[16 x i8]");
    reveal_with_fuel(dec, 3);
    assert(("["@ + dec(16nat) + " x i8]"@) =~= "[16 x i8]"@);
}

} // verus!
