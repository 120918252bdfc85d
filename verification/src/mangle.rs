//! Readable identifiers from Rust v0 and Itanium mangled symbols.
//!
//! Both manglings write an identifier as its length in decimal followed by
//! that many bytes. [`humanize`] collects such segments and keeps those
//! that a reader recognises: `ReadyU32__Future__poll`.

use std::collections::hash_map::DefaultHasher;
use std::hash::Hasher;
use vstd::prelude::*;
use vstd::std_specs::hash::DefaultHasherAdditionalSpecFns;
use vstd::utf8::*;

use crate::text::{
    clone_list, group_append, group_views, is_digit, is_upper, join, joined, nil, opt_string, same,
    starts, starts_with, to_chars, views,
};
use crate::unicode::{is_alphanumeric, letter_or_digit};

verus! {

pub open spec fn digit_byte(b: u8) -> bool {
    48 <= b <= 57
}

/// The end of the run of digits that begins at `i`.
pub open spec fn digits_end(b: Seq<u8>, i: int) -> int
    decreases b.len() - i,
{
    if i < 0 || i >= b.len() {
        b.len() as int
    } else if digit_byte(b[i]) {
        digits_end(b, i + 1)
    } else {
        i
    }
}

/// The number that the digits from `i` up to `j` denote.
pub open spec fn byte_number(b: Seq<u8>, i: int, j: int) -> nat
    decreases j - i,
{
    if j <= i {
        0
    } else {
        10 * byte_number(b, i, j - 1) + (b[j - 1] - 48) as nat
    }
}

/// Where the segment ends whose length stands from `i` up to `j`: `None`
/// where the length is 0 or not a machine word, where fewer bytes are
/// left, or where the segment would end inside a character.
pub open spec fn segment_end(b: Seq<u8>, i: int, j: int) -> Option<int> {
    let n = byte_number(b, i, j);
    if 0 < n <= usize::MAX && j + n <= b.len() && is_char_boundary(b, j + n) {
        Some(j + n)
    } else {
        None
    }
}

/// The segment of the bytes from `j` up to `end`, where it begins with an
/// ASCII letter or an underscore.
pub open spec fn segment(b: Seq<u8>, j: int, end: int) -> Seq<Seq<char>> {
    if 65 <= b[j] <= 90 || 97 <= b[j] <= 122 || b[j] == 95 {
        seq![decode_utf8(b.subrange(j, end))]
    } else {
        Seq::empty()
    }
}

/// The position behind the first underscore from `i` on, or the end.
pub open spec fn after_mark(b: Seq<u8>, i: int) -> int
    decreases b.len() - i,
{
    if i < 0 || i >= b.len() {
        b.len() as int
    } else if b[i] == 95 {
        i + 1
    } else {
        after_mark(b, i + 1)
    }
}

pub proof fn lemma_digits_end(b: Seq<u8>, i: int)
    requires
        0 <= i <= b.len(),
    ensures
        i <= digits_end(b, i) <= b.len(),
        forall|k: int| i <= k < digits_end(b, i) ==> digit_byte(b[k]),
        i < b.len() && digit_byte(b[i]) ==> i < digits_end(b, i),
    decreases b.len() - i,
{
    if i < b.len() && digit_byte(b[i]) {
        lemma_digits_end(b, i + 1);
    }
}

pub proof fn lemma_after_mark(b: Seq<u8>, i: int)
    requires
        0 <= i <= b.len(),
    ensures
        i <= after_mark(b, i) <= b.len(),
    decreases b.len() - i,
{
    if i < b.len() && b[i] != 95 {
        lemma_after_mark(b, i + 1);
    }
}

/// The segments of a Rust v0 symbol from position `i` on. A `B` or an `s`
/// begins a back-reference or a disambiguator, which an underscore ends.
pub open spec fn v0_segments(b: Seq<u8>, i: int) -> Seq<Seq<char>>
    decreases b.len() - i,
{
    if i < 0 || i >= b.len() {
        Seq::empty()
    } else if digit_byte(b[i]) {
        proof {
            lemma_digits_end(b, i);
        }
        let j = digits_end(b, i);
        match segment_end(b, i, j) {
            Some(end) => segment(b, j, end) + v0_segments(b, end),
            None => v0_segments(b, j),
        }
    } else if b[i] == 66 || b[i] == 115 {
        proof {
            lemma_after_mark(b, i + 1);
        }
        v0_segments(b, after_mark(b, i + 1))
    } else {
        v0_segments(b, i + 1)
    }
}

/// The segments of an Itanium symbol from position `i` on.
pub open spec fn itanium_segments(b: Seq<u8>, i: int) -> Seq<Seq<char>>
    decreases b.len() - i,
{
    if i < 0 || i >= b.len() {
        Seq::empty()
    } else if digit_byte(b[i]) {
        proof {
            lemma_digits_end(b, i);
        }
        let j = digits_end(b, i);
        match segment_end(b, i, j) {
            Some(end) => segment(b, j, end) + itanium_segments(b, end),
            None => itanium_segments(b, j),
        }
    } else {
        itanium_segments(b, i + 1)
    }
}

pub open spec fn hex_digit(c: char) -> bool {
    is_digit(c) || 'a' <= c <= 'f' || 'A' <= c <= 'F'
}

/// Is the segment the hash that ends an Itanium symbol: an `h` and
/// hexadecimal digits?
pub open spec fn hash_segment(s: Seq<char>) -> bool {
    s.len() >= 2 && s[0] == 'h' && forall|i: int| 1 <= i < s.len() ==> hex_digit(#[trigger] s[i])
}

/// The segments that say something to a reader.
pub open spec fn telling(segs: Seq<Seq<char>>) -> Seq<Seq<char>> {
    segs.filter(|s: Seq<char>| s.len() > 0 && !hash_segment(s))
}

/// The segments that begin with an upper-case letter: types and traits.
pub open spec fn capitalised(segs: Seq<Seq<char>>) -> Seq<Seq<char>> {
    segs.filter(|s: Seq<char>| s.len() > 0 && is_upper(s[0]))
}

/// The segments that make up the readable name: the capitalised ones and
/// the last one; where none is capitalised, the last two.
pub open spec fn chosen(segs: Seq<Seq<char>>) -> Seq<Seq<char>> {
    let upper = capitalised(segs);
    if upper.len() > 0 {
        if upper.last() == segs.last() {
            upper
        } else {
            upper.push(segs.last())
        }
    } else if segs.len() >= 2 {
        segs.subrange(segs.len() - 2, segs.len() as int)
    } else {
        segs
    }
}

/// The readable form of a mangled symbol; `None` where the symbol is not
/// mangled or holds no segment that says something.
pub open spec fn humanized(name: Seq<char>) -> Option<Seq<char>> {
    let b = encode_utf8(name);
    if !starts(name, "_R"@) && !starts(name, "_Z"@) {
        None
    } else {
        let segs = telling(
            if starts(name, "_R"@) {
                v0_segments(b, 0)
            } else {
                itanium_segments(b, 0)
            },
        );
        if segs.len() == 0 {
            None
        } else if starts(name, "_RNC"@) {
            Some(joined(chosen(segs).push("closure"@), "__"@))
        } else {
            Some(joined(chosen(segs), "__"@))
        }
    }
}

/// Behind an ASCII byte of a text a character ends.
proof fn lemma_boundary_after_ascii(b: Seq<u8>, k: int)
    requires
        valid_utf8(b),
        0 <= k < b.len(),
        b[k] < 0x80,
    ensures
        is_char_boundary(b, k + 1),
    decreases b.len(),
{
    reveal_with_fuel(is_char_boundary, 3);
    let n = length_of_first_scalar(b);
    if k == 0 {
        assert(n == 1);
    } else if k < n {
        assert(is_continuation_byte(b[k]));
    } else {
        lemma_boundary_after_ascii(pop_first_scalar(b), k - n);
    }
}

/// A boundary of a text is a boundary of each beginning of the text that
/// ends at a boundary behind it.
proof fn lemma_boundary_of_prefix(b: Seq<u8>, j: int, end: int)
    requires
        valid_utf8(b),
        is_char_boundary(b, end),
        0 <= j < end <= b.len(),
        is_char_boundary(b, j),
    ensures
        valid_utf8(b.subrange(0, end)),
        is_char_boundary(b.subrange(0, end), j),
{
    valid_utf8_split(b, end);
    let p = b.subrange(0, end);
    assert(p[j] == b[j]);
    is_char_boundary_iff_not_is_continuation_byte(b, j);
    is_char_boundary_iff_not_is_continuation_byte(p, j);
}

/// The bytes of `name` from `j` up to `end` as a text.
fn byte_slice(name: &str, j: usize, end: usize) -> (r: String)
    requires
        0 < j < end <= encode_utf8(name@).len(),
        encode_utf8(name@)[j - 1] < 0x80,
        is_char_boundary(encode_utf8(name@), end as int),
    ensures
        r@ == decode_utf8(encode_utf8(name@).subrange(j as int, end as int)),
{
    let ghost b = encode_utf8(name@);
    proof {
        encode_utf8_valid_utf8(name@);
        lemma_boundary_after_ascii(b, j - 1);
        lemma_boundary_of_prefix(b, j as int, end as int);
    }
    let head = name.split_at(end).0;
    let tail = head.split_at(j).1;
    proof {
        assert(b.subrange(0, end as int).subrange(j as int, end as int) =~= b.subrange(
            j as int,
            end as int,
        ));
        encode_utf8_decode_utf8(tail@);
    }
    tail.to_owned()
}

fn find_digits_end(b: &[u8], i: usize) -> (j: usize)
    requires
        i <= b@.len(),
    ensures
        j == digits_end(b@, i as int),
        i <= j <= b@.len(),
{
    let mut j: usize = i;
    while j < b.len() && 48 <= b[j] && b[j] <= 57
        invariant
            i <= j <= b@.len(),
            digits_end(b@, i as int) == digits_end(b@, j as int),
        decreases b@.len() - j,
    {
        j += 1;
    }
    j
}

proof fn lemma_byte_number_grows(b: Seq<u8>, i: int, k: int, j: int)
    requires
        i <= k <= j,
    ensures
        byte_number(b, i, k) <= byte_number(b, i, j),
    decreases j - k,
{
    if k < j {
        lemma_byte_number_grows(b, i, k, j - 1);
    }
}

/// The number that the digits from `i` up to `j` denote; 0 where it is not
/// a machine word.
fn declared_length(b: &[u8], i: usize, j: usize) -> (n: usize)
    requires
        i <= j <= b@.len(),
        forall|k: int| i <= k < j ==> digit_byte(#[trigger] b@[k]),
    ensures
        n == if byte_number(b@, i as int, j as int) <= usize::MAX {
            byte_number(b@, i as int, j as int)
        } else {
            0
        },
{
    let mut n: usize = 0;
    let mut k: usize = i;
    while k < j
        invariant
            i <= k <= j <= b@.len(),
            forall|k: int| i <= k < j ==> digit_byte(#[trigger] b@[k]),
            n == byte_number(b@, i as int, k as int),
        decreases j - k,
    {
        assert(digit_byte(b@[k as int]));
        let d: usize = (b[k] - 48) as usize;
        proof {
            lemma_byte_number_grows(b@, i as int, k + 1, j as int);
            assert(byte_number(b@, i as int, k + 1) == 10 * n + d);
        }
        if n > (usize::MAX - d) / 10 {
            return 0;
        }
        n = 10 * n + d;
        k += 1;
    }
    n
}

/// Where the segment ends whose length stands from `i` up to `j`.
fn find_segment_end(name: &str, b: &[u8], i: usize, j: usize) -> (r: Option<usize>)
    requires
        b@ == encode_utf8(name@),
        i < j <= b@.len(),
        forall|k: int| i <= k < j ==> digit_byte(#[trigger] b@[k]),
    ensures
        match r {
            Some(end) => segment_end(b@, i as int, j as int) == Some(end as int) && j < end
                <= b@.len(),
            None => segment_end(b@, i as int, j as int) is None,
        },
{
    let n: usize = declared_length(b, i, j);
    if n == 0 || n > b.len() - j {
        return None;
    }
    if name.is_char_boundary(j + n) {
        Some(j + n)
    } else {
        None
    }
}

/// Appends the segment from `j` up to `end` where it begins with a letter
/// or an underscore.
fn push_segment(segs: &mut Vec<String>, name: &str, b: &[u8], j: usize, end: usize)
    requires
        b@ == encode_utf8(name@),
        0 < j < end <= b@.len(),
        digit_byte(b@[j - 1]),
        is_char_boundary(b@, end as int),
    ensures
        views(final(segs)@) == views(old(segs)@) + segment(b@, j as int, end as int),
{
    broadcast use {group_append, group_views};
    let c = b[j];
    if (65 <= c && c <= 90) || (97 <= c && c <= 122) || c == 95 {
        segs.push(byte_slice(name, j, end));
        assert(views(segs@) =~= views(old(segs)@) + segment(b@, j as int, end as int));
    }
}

fn extract_v0_segments(name: &str) -> (segs: Vec<String>)
    ensures
        views(segs@) == v0_segments(encode_utf8(name@), 0),
{
    broadcast use {group_append, group_views};
    let b = name.as_bytes();
    let mut i: usize = 0;
    let mut segs: Vec<String> = Vec::new();
    while i < b.len()
        invariant
            b@ == encode_utf8(name@),
            i <= b@.len(),
            views(segs@) + v0_segments(b@, i as int) == v0_segments(b@, 0),
        decreases b@.len() - i,
    {
        let c = b[i];
        if 48 <= c && c <= 57 {
            proof {
                lemma_digits_end(b@, i as int);
            }
            let j: usize = find_digits_end(b, i);
            match find_segment_end(name, b, i, j) {
                Some(end) => {
                    push_segment(&mut segs, name, b, j, end);
                    i = end;
                },
                None => {
                    i = j;
                },
            }
        } else if c == 66 || c == 115 {
            let mut k: usize = i + 1;
            while k < b.len() && b[k] != 95
                invariant
                    i < k <= b@.len(),
                    after_mark(b@, i + 1) == after_mark(b@, k as int),
                decreases b@.len() - k,
            {
                k += 1;
            }
            if k < b.len() {
                k += 1;
            }
            i = k;
        } else {
            i += 1;
        }
    }
    segs
}

fn extract_itanium_segments(name: &str) -> (segs: Vec<String>)
    ensures
        views(segs@) == itanium_segments(encode_utf8(name@), 0),
{
    broadcast use {group_append, group_views};
    let b = name.as_bytes();
    let mut i: usize = 0;
    let mut segs: Vec<String> = Vec::new();
    while i < b.len()
        invariant
            b@ == encode_utf8(name@),
            i <= b@.len(),
            views(segs@) + itanium_segments(b@, i as int) == itanium_segments(b@, 0),
        decreases b@.len() - i,
    {
        if !(48 <= b[i] && b[i] <= 57) {
            i += 1;
        } else {
            proof {
                lemma_digits_end(b@, i as int);
            }
            let j: usize = find_digits_end(b, i);
            match find_segment_end(name, b, i, j) {
                Some(end) => {
                    push_segment(&mut segs, name, b, j, end);
                    i = end;
                },
                None => {
                    i = j;
                },
            }
        }
    }
    segs
}

fn is_itanium_hash(s: &str) -> (r: bool)
    ensures
        r == hash_segment(s@),
{
    let cs = to_chars(s);
    if cs.len() < 2 || cs[0] != 'h' {
        return false;
    }
    let mut i: usize = 1;
    while i < cs.len()
        invariant
            cs@ == s@,
            1 <= i <= cs@.len(),
            forall|k: int| 1 <= k < i ==> hex_digit(#[trigger] cs@[k]),
        decreases cs@.len() - i,
    {
        let c = cs[i];
        if !(('0' <= c && c <= '9') || ('a' <= c && c <= 'f') || ('A' <= c && c <= 'F')) {
            assert(!hex_digit(s@[i as int]));
            return false;
        }
        i += 1;
    }
    true
}

fn keep_telling(segs: &Vec<String>) -> (r: Vec<String>)
    ensures
        views(r@) == telling(views(segs@)),
{
    broadcast use {group_append, group_views};
    let ghost w = views(segs@);
    let mut r: Vec<String> = Vec::new();
    let mut i: usize = 0;
    proof {
        reveal(Seq::filter);
        assert(w.take(0).len() == 0);
    }
    while i < segs.len()
        invariant
            w == views(segs@),
            i <= segs@.len(),
            views(r@) == telling(w.take(i as int)),
        decreases segs@.len() - i,
    {
        proof {
            reveal(Seq::filter);
            assert(w.take(i + 1).drop_last() =~= w.take(i as int));
        }
        if segs[i].as_str().unicode_len() > 0 && !is_itanium_hash(segs[i].as_str()) {
            r.push(segs[i].clone());
        }
        i += 1;
    }
    assert(w.take(w.len() as int) =~= w);
    r
}

fn keep_capitalised(segs: &Vec<String>) -> (r: Vec<String>)
    ensures
        views(r@) == capitalised(views(segs@)),
{
    broadcast use {group_append, group_views};
    let ghost w = views(segs@);
    let mut r: Vec<String> = Vec::new();
    let mut i: usize = 0;
    proof {
        reveal(Seq::filter);
        assert(w.take(0).len() == 0);
    }
    while i < segs.len()
        invariant
            w == views(segs@),
            i <= segs@.len(),
            views(r@) == capitalised(w.take(i as int)),
        decreases segs@.len() - i,
    {
        proof {
            reveal(Seq::filter);
            assert(w.take(i + 1).drop_last() =~= w.take(i as int));
        }
        let s = segs[i].as_str();
        if s.unicode_len() > 0 {
            let c = s.get_char(0);
            if 'A' <= c && c <= 'Z' {
                r.push(segs[i].clone());
            }
        }
        i += 1;
    }
    assert(w.take(w.len() as int) =~= w);
    r
}

fn choose_segments(segs: &Vec<String>) -> (r: Vec<String>)
    requires
        segs@.len() > 0,
    ensures
        views(r@) == chosen(views(segs@)),
{
    broadcast use {group_append, group_views};
    let n: usize = segs.len();
    let mut upper = keep_capitalised(segs);
    if upper.len() > 0 {
        let m: usize = upper.len();
        let last_is_last = same(upper[m - 1].as_str(), segs[n - 1].as_str());
        assert(views(upper@).last() == upper@[m - 1]@);
        if !last_is_last {
            upper.push(segs[n - 1].clone());
        }
        upper
    } else if n >= 2 {
        let mut r: Vec<String> = Vec::new();
        r.push(segs[n - 2].clone());
        r.push(segs[n - 1].clone());
        assert(views(r@) =~= views(segs@).subrange(n - 2, n as int));
        r
    } else {
        clone_list(segs)
    }
}

/// The readable form of a mangled symbol.
///
/// `None` where `name` begins neither with `_R` nor with `_Z`, or where no
/// segment of it says something.
pub fn humanize(name: &str) -> (r: Option<String>)
    ensures
        opt_string(r) == humanized(name@),
{
    broadcast use {group_append, group_views};
    let is_v0 = starts_with(name, "_R");
    if !is_v0 && !starts_with(name, "_Z") {
        return None;
    }
    let all = if is_v0 {
        extract_v0_segments(name)
    } else {
        extract_itanium_segments(name)
    };
    let segs = keep_telling(&all);
    if segs.len() == 0 {
        return None;
    }
    let mut parts = choose_segments(&segs);
    if starts_with(name, "_RNC") {
        parts.push("closure".to_owned());
    }
    Some(join(&parts, "__"))
}

/// The character itself where it is a letter, a digit or an underscore, an
/// underscore otherwise.
pub open spec fn safe_char(c: char) -> char {
    if letter_or_digit(c) || c == '_' {
        c
    } else {
        '_'
    }
}

/// The text with every unsafe character replaced by an underscore.
pub open spec fn safe_chars(name: Seq<char>) -> Seq<char> {
    name.map_values(|c: char| safe_char(c))
}

/// Replaces every character that is neither alphanumeric nor an underscore
/// by an underscore. The length is not bounded.
pub fn sanitize_filename_chars(name: &str) -> (r: String)
    ensures
        r@ == safe_chars(name@),
{
    broadcast use {group_append, group_views};
    let cs = to_chars(name);
    let mut r = String::new();
    let mut i: usize = 0;
    while i < cs.len()
        invariant
            cs@ == name@,
            i <= cs@.len(),
            r@ == safe_chars(name@.take(i as int)),
        decreases cs@.len() - i,
    {
        let c = cs[i];
        if is_alphanumeric(c) || c == '_' {
            r.push(c);
        } else {
            r.push('_');
        }
        i += 1;
        proof {
            assert(r@ =~= safe_chars(name@.take(i as int)));
        }
    }
    assert(name@.take(name@.len() as int) =~= name@);
    r
}

/// The lower-case hexadecimal digit `d`.
pub open spec fn hex_char(d: nat) -> char {
    if d < 10 {
        (48 + d) as char
    } else {
        (87 + d) as char
    }
}

/// The last `k` hexadecimal digits of `n`.
pub open spec fn hex_digits(n: nat, k: nat) -> Seq<char>
    decreases k,
{
    if k == 0 {
        nil()
    } else {
        hex_digits(n / 16, (k - 1) as nat).push(hex_char(n % 16))
    }
}

fn put_hex(out: &mut String, n: u64, k: u32)
    ensures
        final(out)@ == old(out)@ + hex_digits(n as nat, k as nat),
    decreases k,
{
    broadcast use {group_append, group_views};
    if k > 0 {
        put_hex(out, n / 16, k - 1);
        let d: u8 = (n % 16) as u8;
        out.push(
            if d < 10 {
                (48u8 + d) as char
            } else {
                (87u8 + d) as char
            },
        );
    }
}

/// The hash of a name: the default hasher fed with the bytes of the name
/// and the terminator `0xff`.
pub open spec fn name_hash(name: Seq<char>) -> u64 {
    DefaultHasher::spec_finish(seq![encode_utf8(name), seq![0xffu8]])
}

/// The first eight of the sixteen hexadecimal digits of the hash.
pub open spec fn short_hash_text(name: Seq<char>) -> Seq<char> {
    hex_digits(name_hash(name) as nat, 16).take(8)
}

proof fn lemma_hex_len(n: nat, k: nat)
    ensures
        hex_digits(n, k).len() == k,
    decreases k,
{
    if k > 0 {
        lemma_hex_len(n / 16, (k - 1) as nat);
    }
}

/// A digit, or one of the letters of hexadecimal numbers.
pub open spec fn is_hex(c: char) -> bool {
    is_digit(c) || 'a' <= c <= 'f'
}

proof fn lemma_hex_chars(n: nat, k: nat)
    ensures
        forall|i: int| 0 <= i < hex_digits(n, k).len() ==> is_hex(#[trigger] hex_digits(n, k)[i]),
    decreases k,
{
    if k > 0 {
        let rest = hex_digits(n / 16, (k - 1) as nat);
        lemma_hex_chars(n / 16, (k - 1) as nat);
        assert(is_hex(hex_char(n % 16)));
        assert forall|i: int| 0 <= i < hex_digits(n, k).len() implies is_hex(
            #[trigger] hex_digits(n, k)[i],
        ) by {
            if i < rest.len() {
                assert(hex_digits(n, k)[i] == rest[i]);
            }
        }
    }
}

/// A short hash is eight hexadecimal digits.
pub proof fn lemma_short_hash(name: Seq<char>)
    ensures
        short_hash_text(name).len() == 8,
        forall|i: int|
            0 <= i < short_hash_text(name).len() ==> is_hex(#[trigger] short_hash_text(name)[i]),
{
    lemma_hex_len(name_hash(name) as nat, 16);
    lemma_hex_chars(name_hash(name) as nat, 16);
}

/// A short hash of a name, for file names that must not collide.
pub fn short_hash(name: &str) -> (r: String)
    ensures
        r@ == short_hash_text(name@),
        r@.len() == 8,
{
    broadcast use {group_append, group_views};
    let mut h = DefaultHasher::new();
    h.write(name.as_bytes());
    let end: [u8; 1] = [0xff];
    h.write(&end);
    proof {
        assert(end@ =~= seq![0xffu8]);
        assert(h@ =~= seq![encode_utf8(name@), seq![0xffu8]]);
        lemma_hex_len(name_hash(name@) as nat, 16);
    }
    let mut full = String::new();
    put_hex(&mut full, h.finish(), 16);
    full.as_str().substring_char(0, 8).to_owned()
}

} // verus!
