//! The families of standard-library symbols that get an override.
//!
//! A symbol belongs to a family where its mangled name holds one of the
//! family's fragments; the MSVC mangling puts the class name in the middle.

use vstd::prelude::*;

use crate::text::{contains, is_upper, mentions, opt_view, same, to_chars};

verus! {

/// Is the symbol one of the family "std::vector methods"?
pub open spec fn vector_symbol(s: Seq<char>) -> bool {
    ||| mentions(s, "St6vector"@)
    ||| mentions(s, "NSt6vector"@)
    ||| mentions(s, "?$vector@"@)
}

fn is_vector_symbol(s: &str) -> (r: bool)
    ensures
        r == vector_symbol(s@),
{
    contains(s, "St6vector")
        || contains(s, "NSt6vector")
        || contains(s, "?$vector@")
}

/// Is the symbol one of the family "std::unique_ptr methods"?
pub open spec fn unique_ptr_symbol(s: Seq<char>) -> bool {
    ||| mentions(s, "St10unique_ptr"@)
    ||| mentions(s, "NSt10unique_ptr"@)
    ||| mentions(s, "?$unique_ptr@"@)
    ||| mentions(s, "St11make_uniqueI"@)
    ||| mentions(s, "St14make_unique_for"@)
    ||| mentions(s, "?$make_unique@"@)
}

fn is_unique_ptr_symbol(s: &str) -> (r: bool)
    ensures
        r == unique_ptr_symbol(s@),
{
    contains(s, "St10unique_ptr")
        || contains(s, "NSt10unique_ptr")
        || contains(s, "?$unique_ptr@")
        || contains(s, "St11make_uniqueI")
        || contains(s, "St14make_unique_for")
        || contains(s, "?$make_unique@")
}

/// Is the symbol one of the family "std::shared_ptr methods"?
pub open spec fn shared_ptr_symbol(s: Seq<char>) -> bool {
    ||| mentions(s, "St10shared_ptr"@)
    ||| mentions(s, "NSt10shared_ptr"@)
    ||| mentions(s, "?$shared_ptr@"@)
    ||| mentions(s, "St11make_sharedI"@)
    ||| mentions(s, "?$make_shared@"@)
}

fn is_shared_ptr_symbol(s: &str) -> (r: bool)
    ensures
        r == shared_ptr_symbol(s@),
{
    contains(s, "St10shared_ptr")
        || contains(s, "NSt10shared_ptr")
        || contains(s, "?$shared_ptr@")
        || contains(s, "St11make_sharedI")
        || contains(s, "?$make_shared@")
}

/// Is the symbol one of the family "std::basic_string methods"?
pub open spec fn string_symbol(s: Seq<char>) -> bool {
    ||| mentions(s, "Ss"@)
    ||| mentions(s, "NSs"@)
    ||| mentions(s, "NSbI"@)
    ||| mentions(s, "NKSs"@)
    ||| mentions(s, "NKSbI"@)
    ||| mentions(s, "St12basic_string"@)
    ||| mentions(s, "St7__cxx1112basic_string"@)
    ||| mentions(s, "?$basic_string@"@)
}

fn is_string_symbol(s: &str) -> (r: bool)
    ensures
        r == string_symbol(s@),
{
    contains(s, "Ss")
        || contains(s, "NSs")
        || contains(s, "NSbI")
        || contains(s, "NKSs")
        || contains(s, "NKSbI")
        || contains(s, "St12basic_string")
        || contains(s, "St7__cxx1112basic_string")
        || contains(s, "?$basic_string@")
}

/// Is the symbol one of the family "std::list / std::deque"?
pub open spec fn sequence_symbol(s: Seq<char>) -> bool {
    ||| mentions(s, "St4listI"@)
    ||| mentions(s, "NSt4list"@)
    ||| mentions(s, "St5dequeI"@)
    ||| mentions(s, "NSt5deque"@)
    ||| mentions(s, "?$list@"@)
    ||| mentions(s, "?$deque@"@)
}

fn is_sequence_symbol(s: &str) -> (r: bool)
    ensures
        r == sequence_symbol(s@),
{
    contains(s, "St4listI")
        || contains(s, "NSt4list")
        || contains(s, "St5dequeI")
        || contains(s, "NSt5deque")
        || contains(s, "?$list@")
        || contains(s, "?$deque@")
}

/// Is the symbol one of the family "std::map / std::set / std::unordered_*"?
pub open spec fn associative_symbol(s: Seq<char>) -> bool {
    ||| mentions(s, "St3mapI"@)
    ||| mentions(s, "NSt3map"@)
    ||| mentions(s, "St3setI"@)
    ||| mentions(s, "NSt3set"@)
    ||| mentions(s, "St13unordered_map"@)
    ||| mentions(s, "St13unordered_set"@)
    ||| mentions(s, "St8multimap"@)
    ||| mentions(s, "St8multiset"@)
    ||| mentions(s, "?$map@"@)
    ||| mentions(s, "?$set@"@)
    ||| mentions(s, "?$unordered_map@"@)
    ||| mentions(s, "?$unordered_set@"@)
}

fn is_associative_symbol(s: &str) -> (r: bool)
    ensures
        r == associative_symbol(s@),
{
    contains(s, "St3mapI")
        || contains(s, "NSt3map")
        || contains(s, "St3setI")
        || contains(s, "NSt3set")
        || contains(s, "St13unordered_map")
        || contains(s, "St13unordered_set")
        || contains(s, "St8multimap")
        || contains(s, "St8multiset")
        || contains(s, "?$map@")
        || contains(s, "?$set@")
        || contains(s, "?$unordered_map@")
        || contains(s, "?$unordered_set@")
}

/// The family of a symbol: the first one that it belongs to.
pub open spec fn family_text(s: Seq<char>) -> Option<Seq<char>> {
    if vector_symbol(s) {
        Some("std::vector methods"@)
    } else if unique_ptr_symbol(s) {
        Some("std::unique_ptr methods"@)
    } else if shared_ptr_symbol(s) {
        Some("std::shared_ptr methods"@)
    } else if string_symbol(s) {
        Some("std::basic_string methods"@)
    } else if sequence_symbol(s) {
        Some("std::list / std::deque"@)
    } else if associative_symbol(s) {
        Some("std::map / std::set / std::unordered_*"@)
    } else {
        None
    }
}

/// The family of a symbol.
pub fn family_for(mangled: &str) -> (r: Option<&'static str>)
    ensures
        opt_view(r) == family_text(mangled@),
{
    if is_vector_symbol(mangled) {
        Some("std::vector methods")
    } else if is_unique_ptr_symbol(mangled) {
        Some("std::unique_ptr methods")
    } else if is_shared_ptr_symbol(mangled) {
        Some("std::shared_ptr methods")
    } else if is_string_symbol(mangled) {
        Some("std::basic_string methods")
    } else if is_sequence_symbol(mangled) {
        Some("std::list / std::deque")
    } else if is_associative_symbol(mangled) {
        Some("std::map / std::set / std::unordered_*")
    } else {
        None
    }
}

/// Does a symbol belong to a family?
pub fn matches_uncached(mangled: &str) -> (r: bool)
    ensures
        r == (family_text(mangled@) is Some),
{
    family_for(mangled).is_some()
}

/// Does a symbol belong to a family, unless overrides of the standard
/// library are switched off?
pub fn matches(mangled: &str, disabled: bool) -> (r: bool)
    ensures
        r == (!disabled && family_text(mangled@) is Some),
{
    !disabled && matches_uncached(mangled)
}

/// The family of a symbol, unless overrides of the standard library are
/// switched off.
pub fn enabled_family_for(mangled: &str, disabled: bool) -> (r: Option<&'static str>)
    ensures
        opt_view(r) == if disabled {
            None
        } else {
            family_text(mangled@)
        },
{
    if disabled {
        None
    } else {
        family_for(mangled)
    }
}

/// Does the character equal the lower-case ASCII letter, whatever its case?
pub open spec fn letter(c: char, lower: char) -> bool {
    c == lower || (is_upper(c) && c as u32 + 32 == lower as u32)
}

/// Does the value of the switch's environment variable switch the
/// overrides off: `1`, or `true` in any case?
pub open spec fn switches_off(v: Seq<char>) -> bool {
    v == "1"@ || (v.len() == 4 && letter(v[0], 't') && letter(v[1], 'r') && letter(v[2], 'u')
        && letter(v[3], 'e'))
}

fn is_letter(c: char, lower: char) -> (r: bool)
    ensures
        r == letter(c, lower),
{
    c == lower || ('A' <= c && c <= 'Z' && c as u32 + 32 == lower as u32)
}

/// Does the value of the switch's environment variable, where it is set,
/// switch the overrides off?
pub fn disabled(value: Option<&str>) -> (r: bool)
    ensures
        r == (value is Some && switches_off(value->0@)),
{
    match value {
        Some(v) => {
            if same(v, "1") {
                return true;
            }
            let cs = to_chars(v);
            cs.len() == 4 && is_letter(cs[0], 't') && is_letter(cs[1], 'r') && is_letter(
                cs[2],
                'u',
            ) && is_letter(cs[3], 'e')
        },
        None => false,
    }
}

} // verus!
