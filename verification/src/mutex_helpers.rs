//! Helpers of the mutex base class of the MSVC runtime, by mangled name.

use vstd::prelude::*;

use crate::text::{contains, mentions};

verus! {

/// Does the mangled name belong to `std::_Mutex_base`? The mangling holds
/// the class and its namespace in this form for every member.
pub fn is_msvc_mutex_helper(mangled: &str) -> (r: bool)
    ensures
        r == mentions(mangled@, "_Mutex_base@std"@),
{
    contains(mangled, "_Mutex_base@std")
}

} // verus!
