//! Functions of the C runtime whose result or return is known.

use vstd::prelude::*;

use crate::text::{contains, mentions, same};

verus! {

/// Is the symbol a mutex primitive that always succeeds in a sequential
/// program? Trying a lock may fail, so that primitive is not one.
pub open spec fn mutex_primitive(symbol: Seq<char>) -> bool {
    ||| symbol == "_Mtx_lock"@
    ||| symbol == "_Mtx_unlock"@
    ||| symbol == "_Mtx_init"@
    ||| symbol == "_Mtx_destroy"@
    ||| symbol == "__gthread_mutex_lock"@
    ||| symbol == "__gthread_mutex_unlock"@
    ||| symbol == "pthread_mutex_lock"@
    ||| symbol == "pthread_mutex_unlock"@
    ||| symbol == "pthread_mutex_init"@
    ||| symbol == "pthread_mutex_destroy"@
    ||| symbol == "__gthrw_pthread_mutex_lock"@
    ||| symbol == "__gthrw_pthread_mutex_unlock"@
}

/// The success value of a mutex primitive; `None` for any other symbol.
pub fn success_sentinel(symbol: &str) -> (r: Option<i64>)
    ensures
        r == if mutex_primitive(symbol@) {
            Some(0i64)
        } else {
            None
        },
{
    if same(symbol, "_Mtx_lock") || same(symbol, "_Mtx_unlock") || same(symbol, "_Mtx_init")
        || same(symbol, "_Mtx_destroy") || same(symbol, "__gthread_mutex_lock") || same(
        symbol,
        "__gthread_mutex_unlock",
    ) || same(symbol, "pthread_mutex_lock") || same(symbol, "pthread_mutex_unlock") || same(
        symbol,
        "pthread_mutex_init",
    ) || same(symbol, "pthread_mutex_destroy") || same(symbol, "__gthrw_pthread_mutex_lock")
        || same(symbol, "__gthrw_pthread_mutex_unlock") {
        Some(0)
    } else {
        None
    }
}

/// Is the symbol a method of the mutex base class of the MSVC runtime?
pub open spec fn msvc_mutex_helper(symbol: Seq<char>) -> bool {
    mentions(symbol, "_Mutex_base@std"@)
}

/// Is the symbol a method of the mutex base class of the MSVC runtime? A
/// sequential proof abstracts such a method to one that does nothing.
pub fn is_msvc_mutex_helper(symbol: &str) -> (r: bool)
    ensures
        r == msvc_mutex_helper(symbol@),
{
    contains(symbol, "_Mutex_base@std")
}

/// What such a method returns, `true`; `None` for any other symbol.
pub fn msvc_mutex_noop_return(symbol: &str) -> (r: Option<i64>)
    ensures
        r == if msvc_mutex_helper(symbol@) {
            Some(1i64)
        } else {
            None
        },
{
    if is_msvc_mutex_helper(symbol) {
        Some(1)
    } else {
        None
    }
}

/// Is the symbol a helper that always throws and never returns?
pub open spec fn noreturn_throw(symbol: Seq<char>) -> bool {
    ||| mentions(symbol, "_Throw_Cpp_error"@)
    ||| mentions(symbol, "_CxxThrowException"@)
    ||| mentions(symbol, "_Xlength_error"@)
    ||| mentions(symbol, "_Xout_of_range"@)
    ||| mentions(symbol, "_Xbad_alloc"@)
    ||| mentions(symbol, "_Xinvalid_argument"@)
    ||| mentions(symbol, "_Xruntime_error"@)
    ||| mentions(symbol, "_Xoverflow_error"@)
    ||| mentions(symbol, "_Xbad_function_call"@)
    ||| mentions(symbol, "_Xbad_optional_access"@)
    ||| mentions(symbol, "__cxa_throw"@)
    ||| mentions(symbol, "__cxa_rethrow"@)
    ||| mentions(symbol, "__throw_"@)
}

/// Is the symbol a helper that always throws and never returns?
pub fn is_noreturn_throw(symbol: &str) -> (r: bool)
    ensures
        r == noreturn_throw(symbol@),
{
    contains(symbol, "_Throw_Cpp_error") || contains(symbol, "_CxxThrowException") || contains(
        symbol,
        "_Xlength_error",
    ) || contains(symbol, "_Xout_of_range") || contains(symbol, "_Xbad_alloc") || contains(
        symbol,
        "_Xinvalid_argument",
    ) || contains(symbol, "_Xruntime_error") || contains(symbol, "_Xoverflow_error") || contains(
        symbol,
        "_Xbad_function_call",
    ) || contains(symbol, "_Xbad_optional_access") || contains(symbol, "__cxa_throw") || contains(
        symbol,
        "__cxa_rethrow",
    ) || contains(symbol, "__throw_")
}

} // verus!
