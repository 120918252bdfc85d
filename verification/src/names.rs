//! Identifiers for file names, SAW variables and stub functions.

use vstd::prelude::*;
use vstd::utf8::*;

use crate::constraints::{InterfaceMethod, SpecConstraint};
use crate::mangle::{
    humanize, humanized, lemma_short_hash, safe_chars, sanitize_filename_chars, short_hash,
    short_hash_text,
};
use crate::text::{
    dec, ends, ends_with, group_append, group_views, put, put2, put3, put_dec, same, starts,
    starts_with, trim, trim_text,
};
use crate::unicode::{letter_or_digit, lower_case, to_lowercase};

verus! {

/// The last character boundary not behind byte `n`.
pub open spec fn boundary_before(b: Seq<u8>, n: int) -> int
    decreases n,
{
    if n <= 0 {
        0
    } else if is_char_boundary(b, n) {
        n
    } else {
        boundary_before(b, n - 1)
    }
}

/// The characters of `s` that lie within its first `n` bytes.
pub open spec fn first_bytes(s: Seq<char>, n: int) -> Seq<char> {
    let b = encode_utf8(s);
    decode_utf8(b.subrange(0, boundary_before(b, n)))
}

/// The identifier for a name: the readable form of a mangled symbol and a
/// hash of the symbol; any other name with its unsafe characters replaced,
/// cut to 120 bytes and marked with a hash where it is longer.
pub open spec fn sanitized(name: Seq<char>) -> Seq<char> {
    match humanized(name) {
        Some(human) => safe_chars(human) + "_"@ + short_hash_text(name),
        None => {
            let s = safe_chars(name);
            if encode_utf8(s).len() > 120 {
                first_bytes(s, 120) + "_"@ + short_hash_text(s)
            } else {
                s
            }
        },
    }
}

fn take_bytes(s: &str, n: usize) -> (r: &str)
    requires
        n <= encode_utf8(s@).len(),
    ensures
        r@ == first_bytes(s@, n as int),
{
    let ghost b = encode_utf8(s@);
    proof {
        encode_utf8_valid_utf8(s@);
        is_char_boundary_start_end_of_seq(b);
    }
    let mut k: usize = n;
    while k > 0 && !s.is_char_boundary(k)
        invariant
            b == encode_utf8(s@),
            k <= n <= b.len(),
            boundary_before(b, n as int) == boundary_before(b, k as int),
        decreases k,
    {
        k -= 1;
    }
    let r = s.split_at(k).0;
    proof {
        encode_utf8_decode_utf8(r@);
    }
    r
}

/// A name made fit for use as a file name or as a SAW identifier.
///
/// Where the cut of a long name would fall inside a character, that
/// character is left out whole.
pub fn sanitize_name(name: &str) -> (r: String)
    ensures
        r@ == sanitized(name@),
{
    broadcast use {group_append, group_views};
    match humanize(name) {
        Some(human) => {
            let mut r = sanitize_filename_chars(human.as_str());
            put2(&mut r, "_", short_hash(name).as_str());
            r
        },
        None => {
            let s = sanitize_filename_chars(name);
            if s.as_str().as_bytes().len() > 120 {
                let mut r = take_bytes(s.as_str(), 120).to_owned();
                put2(&mut r, "_", short_hash(s.as_str()).as_str());
                r
            } else {
                s
            }
        },
    }
}

/// A character of an identifier: a letter, a digit or an underscore.
pub open spec fn identifier_char(c: char) -> bool {
    letter_or_digit(c) || c == '_'
}

proof fn lemma_boundary_before(b: Seq<u8>, n: int)
    requires
        valid_utf8(b),
        0 <= n,
    ensures
        0 <= boundary_before(b, n) <= n,
        is_char_boundary(b, boundary_before(b, n)),
    decreases n,
{
    is_char_boundary_start_end_of_seq(b);
    if n > 0 && !is_char_boundary(b, n) {
        lemma_boundary_before(b, n - 1);
    }
}

proof fn lemma_first_bytes(s: Seq<char>, n: int)
    requires
        0 <= n <= encode_utf8(s).len(),
    ensures
        first_bytes(s, n).len() <= s.len(),
        first_bytes(s, n) == s.take(first_bytes(s, n).len() as int),
        encode_utf8(first_bytes(s, n)).len() <= n,
{
    let b = encode_utf8(s);
    encode_utf8_valid_utf8(s);
    encode_utf8_decode_utf8(s);
    lemma_boundary_before(b, n);
    let k = boundary_before(b, n);
    valid_utf8_split(b, k);
    decode_utf8_split(b, k);
    decode_utf8_encode_utf8(b.subrange(0, k));
    let t = decode_utf8(b.subrange(0, k));
    let rest = decode_utf8(b.subrange(k, b.len() as int));
    assert((t + rest).take(t.len() as int) =~= t);
}

/// An identifier holds letters, digits and underscores only.
pub proof fn law_identifier_chars(name: Seq<char>)
    ensures
        forall|i: int|
            0 <= i < sanitized(name).len() ==> identifier_char(#[trigger] sanitized(name)[i]),
{
    let id = sanitized(name);
    let s = safe_chars(name);
    lemma_short_hash(name);
    lemma_short_hash(s);
    reveal_strlit("_");
    if humanized(name) is None && encode_utf8(s).len() > 120 {
        lemma_first_bytes(s, 120);
    }
    assert forall|i: int| 0 <= i < id.len() implies identifier_char(#[trigger] id[i]) by {
        match humanized(name) {
            Some(human) => {
                let k = safe_chars(human).len();
                if i > k {
                    assert(id[i] == short_hash_text(name)[i - k - 1]);
                }
            },
            None => if encode_utf8(s).len() > 120 {
                let k = first_bytes(s, 120).len();
                if i < k {
                    assert(id[i] == s.take(k as int)[i]);
                } else if i > k {
                    assert(id[i] == short_hash_text(s)[i - k - 1]);
                }
            },
        }
    }
}

proof fn lemma_encoded_len(a: Seq<char>, b: Seq<char>)
    ensures
        encode_utf8(a + b).len() == encode_utf8(a).len() + encode_utf8(b).len(),
    decreases a.len(),
{
    if a.len() == 0 {
        assert(a + b =~= b);
    } else {
        lemma_encoded_len(a.drop_first(), b);
        assert((a + b).drop_first() =~= a.drop_first() + b);
    }
}

/// The identifier for a name that is no mangled symbol has at most 129
/// bytes: 120 of the name, an underscore, and a hash.
pub proof fn law_identifier_is_short(name: Seq<char>)
    requires
        humanized(name) is None,
    ensures
        encode_utf8(sanitized(name)).len() <= 129,
{
    let s = safe_chars(name);
    if encode_utf8(s).len() > 120 {
        let tail = "_"@ + short_hash_text(s);
        lemma_first_bytes(s, 120);
        lemma_short_hash(s);
        reveal_strlit("_");
        assert(is_ascii_chars(tail)) by {
            assert forall|i: int| 0 <= i < tail.len() implies #[trigger] tail[i] as u32 <= 127 by {
                if i > 0 {
                    assert(tail[i] == short_hash_text(s)[i - 1]);
                }
            }
        }
        is_ascii_chars_encode_utf8(tail);
        lemma_encoded_len(first_bytes(s, 120), tail);
        assert(sanitized(name) =~= first_bytes(s, 120) + tail);
    }
}

/// The name that identifies a specification: the mangled name where there
/// is one that differs from the plain name.
pub open spec fn spec_key(spec: &SpecConstraint) -> Seq<char> {
    match spec.mangled_name {
        Some(m) => if m@.len() > 0 && m@ != spec.function_name@ {
            m@
        } else {
            spec.function_name@
        },
        None => spec.function_name@,
    }
}

/// Where a function has no mangled name, an empty one, or one that is its
/// plain name, the plain name identifies it; otherwise the mangled name
/// does.
pub proof fn law_key_is_mangled_name(spec: SpecConstraint)
    ensures
        spec.mangled_name is None ==> spec_key(&spec) == spec.function_name@,
        spec.mangled_name matches Some(m) ==> spec_key(&spec) == if m@.len() == 0 {
            spec.function_name@
        } else {
            m@
        },
{
}

/// The identifier of a mangled symbol is longer than its readable form,
/// and ends with the hash of the symbol: two symbols have one identifier
/// only where they have one hash.
pub proof fn law_identifiers_differ_as_hashes(a: Seq<char>, b: Seq<char>)
    requires
        humanized(a) is Some,
        humanized(b) is Some,
    ensures
        sanitized(a).len() == humanized(a)->0.len() + 9,
        ends(sanitized(a), "_"@ + short_hash_text(a)),
        short_hash_text(a) != short_hash_text(b) ==> sanitized(a) != sanitized(b),
        humanized(a) == humanized(b) ==> (sanitized(a) == sanitized(b) <==> short_hash_text(a)
            == short_hash_text(b)),
{
    lemma_short_hash(a);
    lemma_short_hash(b);
    reveal_strlit("_");
    let x = sanitized(a);
    let y = sanitized(b);
    assert(x.subrange(x.len() - 8, x.len() as int) =~= short_hash_text(a));
    assert(y.subrange(y.len() - 8, y.len() as int) =~= short_hash_text(b));
    assert(x.subrange(x.len() - 9, x.len() as int) =~= "_"@ + short_hash_text(a));
}

/// Two overloads with readable symbols: neither has its plain name as its
/// identifier where that is the readable form of its symbol, and they have
/// one identifier only where their symbols have one hash.
pub proof fn law_overloads_differ_as_hashes(a: SpecConstraint, b: SpecConstraint)
    requires
        a.mangled_name matches Some(m) && m@.len() > 0 && humanized(m@) == Some(a.function_name@),
        b.mangled_name matches Some(m) && m@.len() > 0 && humanized(m@) == Some(b.function_name@),
        a.function_name@ == b.function_name@,
    ensures
        sanitized(spec_key(&a)) != a.function_name@,
        sanitized(spec_key(&a)) == sanitized(spec_key(&b)) <==> short_hash_text(
            a.mangled_name->0@,
        ) == short_hash_text(b.mangled_name->0@),
{
    law_key_is_mangled_name(a);
    law_key_is_mangled_name(b);
    law_identifiers_differ_as_hashes(a.mangled_name->0@, b.mangled_name->0@);
}

/// The identifier of a specification: for file names, override variables
/// and includes. Overloads have distinct mangled names.
pub fn spec_safe_id(spec: &SpecConstraint) -> (r: String)
    ensures
        r@ == sanitized(spec_key(spec)),
{
    if let Some(m) = &spec.mangled_name {
        if !m.as_str().is_empty() && !same(m.as_str(), spec.function_name.as_str()) {
            return sanitize_name(m.as_str());
        }
    }
    sanitize_name(spec.function_name.as_str())
}

/// The identifier of a class or a method in lower case.
pub open spec fn lower_id(name: Seq<char>) -> Seq<char> {
    lower_case(sanitized(name))
}

/// The identifier of a name in lower case.
pub fn sanitize_lower(name: &str) -> (r: String)
    ensures
        r@ == lower_id(name@),
{
    reveal(lower_case);
    to_lowercase(sanitize_name(name).as_str())
}

/// The symbol of the stub of a virtual method.
pub open spec fn stub_name(class_name: Seq<char>, method_name: Seq<char>) -> Seq<char> {
    lower_id(class_name) + "_"@ + lower_id(method_name) + "_stub"@
}

/// The symbol of the stub of a virtual method.
pub fn stub_function_name(method: &InterfaceMethod) -> (r: String)
    ensures
        r@ == stub_name(method.class_name@, method.method.name@),
{
    broadcast use {group_append, group_views};
    let mut r = sanitize_lower(method.class_name.as_str());
    let m = sanitize_lower(method.method.name.as_str());
    put3(&mut r, "_", m.as_str(), "_stub");
    r
}

/// The alignment, in bytes, of a byte buffer that stands for an object:
/// the largest alignment that a fundamental type asks for.
pub const OBJECT_BUFFER_ALIGN: u32 = 8;

/// Is the SAW type a flat array of bytes?
pub open spec fn byte_array_buffer(saw_type: Seq<char>) -> bool {
    let t = trim_text(saw_type);
    starts(t, "llvm_array "@) && ends(t, "(llvm_int 8)"@)
}

fn is_byte_array_buffer(saw_type: &str) -> (r: bool)
    ensures
        r == byte_array_buffer(saw_type@),
{
    let t = trim(saw_type);
    starts_with(t, "llvm_array ") && ends_with(t, "(llvm_int 8)")
}

/// The allocator for an object of the given type. SAW aligns a flat array
/// of bytes to one byte, so such a buffer is aligned explicitly; every
/// other type carries its own alignment.
pub open spec fn allocator(mutable: bool, saw_type: Seq<char>) -> Seq<char> {
    let base = if mutable {
        "llvm_alloc"@
    } else {
        "llvm_alloc_readonly"@
    };
    if byte_array_buffer(saw_type) {
        base + "_aligned "@ + dec(OBJECT_BUFFER_ALIGN as nat)
    } else {
        base
    }
}

/// The allocator for an object of the given type.
pub fn object_allocator(mutable: bool, saw_type: &str) -> (r: String)
    ensures
        r@ == allocator(mutable, saw_type@),
{
    broadcast use {group_append, group_views};
    let mut r = String::new();
    if mutable {
        put(&mut r, "llvm_alloc");
    } else {
        put(&mut r, "llvm_alloc_readonly");
    }
    if is_byte_array_buffer(saw_type) {
        put(&mut r, "_aligned ");
        put_dec(&mut r, OBJECT_BUFFER_ALIGN as u128);
    }
    r
}

} // verus!
