//! Constants shared by the specification emitters.

use vstd::prelude::*;

use crate::text::same;

verus! {

/// The SAW type of a function that returns nothing. The comment prefix
/// keeps it harmless where it ends up in a script.
pub const VOID_SAW_TYPE: &'static str = "// void";

/// Does the SAW type stand for a function without a return value?
pub open spec fn void_saw_type(saw_type: Seq<char>) -> bool {
    saw_type == "// void"@
}

/// Does the SAW type stand for a function without a return value?
pub fn is_void_saw_type(saw_type: &str) -> (r: bool)
    ensures
        r == void_saw_type(saw_type@),
{
    same(saw_type, VOID_SAW_TYPE)
}

} // verus!
