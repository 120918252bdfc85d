//! Text as sequences of characters.
//!
//! Every emitter and every parser of this crate is specified over
//! `Seq<char>`, the view of `str` and `String`. This module holds the
//! vocabulary: concatenation, searching, trimming, splitting, joining, and
//! decimal numerals.

use vstd::prelude::*;

verus! {

/// `String::push` appends the given character to the end of the string.
pub assume_specification[ String::push ](s: &mut String, c: char)
    ensures
        final(s)@ == old(s)@.push(c),
;

// ---------------------------------------------------------------------
// Concatenation
// ---------------------------------------------------------------------

/// Appending is associative: a compound right operand can be appended
/// piece by piece.
pub broadcast proof fn lemma_append_assoc<A>(a: Seq<A>, b: Seq<A>, c: Seq<A>)
    ensures
        #[trigger] (a + (b + c)) == (a + b) + c,
{
    assert(a + (b + c) =~= (a + b) + c);
}

/// The empty sequence is neutral on the right.
pub broadcast proof fn lemma_append_nothing<A>(a: Seq<A>)
    ensures
        #[trigger] (a + Seq::<A>::empty()) == a,
{
    assert(a + Seq::<A>::empty() =~= a);
}

/// The empty sequence is neutral on the left.
pub broadcast proof fn lemma_nothing_append<A>(a: Seq<A>)
    ensures
        #[trigger] (Seq::<A>::empty() + a) == a,
{
    assert(Seq::<A>::empty() + a =~= a);
}

/// Appending a one-element sequence is pushing its element.
pub broadcast proof fn lemma_append_push<A>(a: Seq<A>, b: Seq<A>, x: A)
    ensures
        #[trigger] (a + b.push(x)) == (a + b).push(x),
{
    assert(a + b.push(x) =~= (a + b).push(x));
}

pub broadcast group group_append {
    lemma_append_assoc,
    lemma_append_nothing,
    lemma_nothing_append,
    lemma_append_push,
}

/// The empty text.
pub open spec fn nil() -> Seq<char> {
    Seq::empty()
}

/// `yes` when the condition holds, the empty text otherwise.
pub open spec fn only_if(c: bool, yes: Seq<char>) -> Seq<char> {
    if c {
        yes
    } else {
        nil()
    }
}

pub fn put(out: &mut String, a: &str)
    ensures
        final(out)@ == old(out)@ + a@,
{
    out.append(a);
}

pub fn put2(out: &mut String, a: &str, b: &str)
    ensures
        final(out)@ == old(out)@ + a@ + b@,
{
    out.append(a);
    out.append(b);
}

pub fn put3(out: &mut String, a: &str, b: &str, c: &str)
    ensures
        final(out)@ == old(out)@ + a@ + b@ + c@,
{
    out.append(a);
    out.append(b);
    out.append(c);
}

pub fn put4(out: &mut String, a: &str, b: &str, c: &str, d: &str)
    ensures
        final(out)@ == old(out)@ + a@ + b@ + c@ + d@,
{
    out.append(a);
    out.append(b);
    out.append(c);
    out.append(d);
}

pub fn put5(out: &mut String, a: &str, b: &str, c: &str, d: &str, e: &str)
    ensures
        final(out)@ == old(out)@ + a@ + b@ + c@ + d@ + e@,
{
    out.append(a);
    out.append(b);
    out.append(c);
    out.append(d);
    out.append(e);
}

pub fn put6(out: &mut String, a: &str, b: &str, c: &str, d: &str, e: &str, f: &str)
    ensures
        final(out)@ == old(out)@ + a@ + b@ + c@ + d@ + e@ + f@,
{
    put5(out, a, b, c, d, e);
    out.append(f);
}

pub fn put7(out: &mut String, a: &str, b: &str, c: &str, d: &str, e: &str, f: &str, g: &str)
    ensures
        final(out)@ == old(out)@ + a@ + b@ + c@ + d@ + e@ + f@ + g@,
{
    put6(out, a, b, c, d, e, f);
    out.append(g);
}

/// A text with the same characters.
pub fn owned(s: &str) -> (r: String)
    ensures
        r@ == s@,
{
    s.to_owned()
}

// ---------------------------------------------------------------------
// Characters
// ---------------------------------------------------------------------

/// The characters of `s`, in order.
pub fn to_chars(s: &str) -> (r: Vec<char>)
    ensures
        r@ == s@,
{
    let mut r: Vec<char> = Vec::new();
    for c in it: s.chars()
        invariant
            it.seq() == s@,
            r@ == s@.take(it.index()),
    {
        r.push(c);
    }
    assert(s@.take(s@.len() as int) =~= s@);
    r
}

/// The text made of the characters of `cs` from `i` up to `j`.
pub fn from_chars(cs: &Vec<char>, i: usize, j: usize) -> (r: String)
    requires
        i <= j <= cs@.len(),
    ensures
        r@ == cs@.subrange(i as int, j as int),
{
    let mut r = String::new();
    let mut k: usize = i;
    while k < j
        invariant
            i <= k <= j <= cs@.len(),
            r@ == cs@.subrange(i as int, k as int),
        decreases j - k,
    {
        r.push(cs[k]);
        proof {
            assert(cs@.subrange(i as int, k + 1) =~= cs@.subrange(i as int, k as int).push(
                cs@[k as int],
            ));
        }
        k += 1;
    }
    r
}

/// Both texts hold the same characters.
pub fn same(a: &str, b: &str) -> (r: bool)
    ensures
        r == (a@ == b@),
{
    let x = to_chars(a);
    let y = to_chars(b);
    if x.len() != y.len() {
        return false;
    }
    let mut i: usize = 0;
    while i < x.len()
        invariant
            x@ == a@,
            y@ == b@,
            x@.len() == y@.len(),
            i <= x@.len(),
            forall|k: int| 0 <= k < i ==> x@[k] == y@[k],
        decreases x@.len() - i,
    {
        if x[i] != y[i] {
            return false;
        }
        i += 1;
    }
    assert(x@ =~= y@);
    true
}

/// The characters with the Unicode property `White_Space`.
pub open spec fn is_space(c: char) -> bool {
    ||| '\u{9}' <= c <= '\u{d}'
    ||| c == ' '
    ||| c == '\u{85}'
    ||| c == '\u{a0}'
    ||| c == '\u{1680}'
    ||| '\u{2000}' <= c <= '\u{200a}'
    ||| c == '\u{2028}'
    ||| c == '\u{2029}'
    ||| c == '\u{202f}'
    ||| c == '\u{205f}'
    ||| c == '\u{3000}'
}

pub open spec fn is_digit(c: char) -> bool {
    '0' <= c <= '9'
}

pub open spec fn is_upper(c: char) -> bool {
    'A' <= c <= 'Z'
}

pub open spec fn is_lower(c: char) -> bool {
    'a' <= c <= 'z'
}

/// ASCII letters, ASCII digits and the underscore.
pub open spec fn is_word(c: char) -> bool {
    is_digit(c) || is_upper(c) || is_lower(c) || c == '_'
}

/// A set of characters that texts are searched, trimmed or split by.
#[derive(Clone, Copy)]
pub enum CharSet {
    /// White space.
    Space,
    /// ASCII digits.
    Digit,
    /// ASCII letters, ASCII digits and `_`.
    Word,
    /// One character.
    Is(char),
    /// Either of two characters.
    Either(char, char),
    /// Any of three characters.
    AnyOf(char, char, char),
    /// White space or the given character.
    SpaceOr(char),
}

impl CharSet {
    pub open spec fn has(self, c: char) -> bool {
        match self {
            CharSet::Space => is_space(c),
            CharSet::Digit => is_digit(c),
            CharSet::Word => is_word(c),
            CharSet::Is(a) => c == a,
            CharSet::Either(a, b) => c == a || c == b,
            CharSet::AnyOf(a, b, d) => c == a || c == b || c == d,
            CharSet::SpaceOr(a) => is_space(c) || c == a,
        }
    }

    /// Is `c` in the set?
    pub fn holds(&self, c: char) -> (r: bool)
        ensures
            r == self.has(c),
    {
        match *self {
            CharSet::Space => white(c),
            CharSet::Digit => '0' <= c && c <= '9',
            CharSet::Word => word(c),
            CharSet::Is(a) => c == a,
            CharSet::Either(a, b) => c == a || c == b,
            CharSet::AnyOf(a, b, d) => c == a || c == b || c == d,
            CharSet::SpaceOr(a) => white(c) || c == a,
        }
    }
}

fn white(c: char) -> (r: bool)
    ensures
        r == is_space(c),
{
    ('\u{9}' <= c && c <= '\u{d}') || c == ' ' || c == '\u{85}' || c == '\u{a0}' || c == '\u{1680}'
        || ('\u{2000}' <= c && c <= '\u{200a}') || c == '\u{2028}' || c == '\u{2029}' || c
        == '\u{202f}' || c == '\u{205f}' || c == '\u{3000}'
}

fn word(c: char) -> (r: bool)
    ensures
        r == is_word(c),
{
    ('0' <= c && c <= '9') || ('A' <= c && c <= 'Z') || ('a' <= c && c <= 'z') || c == '_'
}

// ---------------------------------------------------------------------
// Searching
// ---------------------------------------------------------------------

/// `p` occurs in `s` at position `i`.
pub open spec fn at(s: Seq<char>, p: Seq<char>, i: int) -> bool {
    0 <= i && i + p.len() <= s.len() && s.subrange(i, i + p.len()) == p
}

/// `p` occurs somewhere in `s`.
pub open spec fn mentions(s: Seq<char>, p: Seq<char>) -> bool {
    exists|i: int| at(s, p, i)
}

pub open spec fn starts(s: Seq<char>, p: Seq<char>) -> bool {
    at(s, p, 0)
}

pub open spec fn ends(s: Seq<char>, p: Seq<char>) -> bool {
    at(s, p, s.len() - p.len())
}

/// What stands within a text occurs in it.
pub proof fn lemma_mentions_inside(a: Seq<char>, p: Seq<char>, b: Seq<char>)
    ensures
        mentions(a + p + b, p),
{
    let s = a + p + b;
    assert(s.subrange(a.len() as int, (a.len() + p.len()) as int) =~= p);
    assert(at(s, p, a.len() as int));
}

/// Do the three texts occur one behind the other, in this order?
pub open spec fn in_turn(s: Seq<char>, p: Seq<char>, q: Seq<char>, r: Seq<char>) -> bool {
    exists|i: int, j: int, k: int| #[trigger]
        at(s, p, i) && #[trigger] at(s, q, j) && #[trigger] at(s, r, k) && i + p.len() <= j && j
            + q.len() <= k
}

/// Texts that are put together occur in the order in which they are.
pub proof fn lemma_in_turn(
    a: Seq<char>,
    p: Seq<char>,
    b: Seq<char>,
    q: Seq<char>,
    c: Seq<char>,
    r: Seq<char>,
    d: Seq<char>,
)
    ensures
        in_turn(a + p + b + q + c + r + d, p, q, r),
{
    let s = a + p + b + q + c + r + d;
    let i = a.len() as int;
    let j = i + p.len() + b.len();
    let k = j + q.len() + c.len();
    assert(s.subrange(i, i + p.len()) =~= p);
    assert(s.subrange(j, j + q.len()) =~= q);
    assert(s.subrange(k, k + r.len()) =~= r);
    assert(at(s, p, i) && at(s, q, j) && at(s, r, k));
}

/// What occurs in a part of a text occurs in the text.
pub proof fn lemma_mentions_more(a: Seq<char>, s: Seq<char>, b: Seq<char>, p: Seq<char>)
    requires
        mentions(s, p),
    ensures
        mentions(a + s + b, p),
{
    let i = choose|i: int| at(s, p, i);
    let t = a + s + b;
    let k = a.len() + i;
    assert(t.subrange(k, k + p.len()) =~= s.subrange(i, i + p.len()));
    assert(at(t, p, k));
}

/// The first position from `i` on at which `p` occurs in `s`.
pub open spec fn find_from(s: Seq<char>, p: Seq<char>, i: int) -> Option<int>
    decreases s.len() + 1 - i,
{
    if i < 0 || i + p.len() > s.len() {
        None
    } else if at(s, p, i) {
        Some(i)
    } else {
        find_from(s, p, i + 1)
    }
}

/// The first position at which `p` occurs in `s`.
pub open spec fn find(s: Seq<char>, p: Seq<char>) -> Option<int> {
    find_from(s, p, 0)
}

/// The last position up to `i` at which `p` occurs in `s`.
pub open spec fn rfind_from(s: Seq<char>, p: Seq<char>, i: int) -> Option<int>
    decreases i + 1,
{
    if i < 0 {
        None
    } else if at(s, p, i) {
        Some(i)
    } else {
        rfind_from(s, p, i - 1)
    }
}

/// The last position at which `p` occurs in `s`.
pub open spec fn rfind(s: Seq<char>, p: Seq<char>) -> Option<int> {
    rfind_from(s, p, s.len() - p.len())
}

/// What `find_from` gives is an occurrence, and there is none before it;
/// where it gives none, there is none.
pub proof fn lemma_find_from(s: Seq<char>, p: Seq<char>, i: int)
    requires
        0 <= i,
    ensures
        match find_from(s, p, i) {
            Some(k) => i <= k && at(s, p, k) && (forall|j: int| i <= j < k ==> !at(s, p, j)),
            None => forall|j: int| i <= j ==> !at(s, p, j),
        },
    decreases s.len() + 1 - i,
{
    if i + p.len() <= s.len() && !at(s, p, i) {
        lemma_find_from(s, p, i + 1);
    }
}

/// A text occurs somewhere exactly when a search for it succeeds.
pub proof fn lemma_find_iff_mentions(s: Seq<char>, p: Seq<char>)
    ensures
        mentions(s, p) <==> find(s, p) is Some,
{
    lemma_find_from(s, p, 0);
}

/// The first position from `i` on whose character is in the set, or the
/// length of `s`.
pub open spec fn seek(s: Seq<char>, set: CharSet, i: int) -> int
    decreases s.len() - i,
{
    if i < 0 || i >= s.len() {
        s.len() as int
    } else if set.has(s[i]) {
        i
    } else {
        seek(s, set, i + 1)
    }
}

/// The first position from `i` on whose character is not in the set, or
/// the length of `s`.
pub open spec fn skip(s: Seq<char>, set: CharSet, i: int) -> int
    decreases s.len() - i,
{
    if i < 0 || i >= s.len() {
        s.len() as int
    } else if !set.has(s[i]) {
        i
    } else {
        skip(s, set, i + 1)
    }
}

/// The end of what is left of the first `n` characters once the
/// characters of the set are dropped from their end.
pub open spec fn retreat(s: Seq<char>, set: CharSet, n: int) -> int
    decreases n,
{
    if n <= 0 || n > s.len() {
        0
    } else if set.has(s[n - 1]) {
        retreat(s, set, n - 1)
    } else {
        n
    }
}

pub proof fn lemma_seek(s: Seq<char>, set: CharSet, i: int)
    requires
        0 <= i <= s.len(),
    ensures
        i <= seek(s, set, i) <= s.len(),
        seek(s, set, i) < s.len() ==> set.has(s[seek(s, set, i)]),
        forall|k: int| i <= k < seek(s, set, i) ==> !set.has(s[k]),
    decreases s.len() - i,
{
    if i < s.len() && !set.has(s[i]) {
        lemma_seek(s, set, i + 1);
    }
}

pub proof fn lemma_skip(s: Seq<char>, set: CharSet, i: int)
    requires
        0 <= i <= s.len(),
    ensures
        i <= skip(s, set, i) <= s.len(),
        skip(s, set, i) < s.len() ==> !set.has(s[skip(s, set, i)]),
        forall|k: int| i <= k < skip(s, set, i) ==> set.has(s[k]),
    decreases s.len() - i,
{
    if i < s.len() && set.has(s[i]) {
        lemma_skip(s, set, i + 1);
    }
}

pub proof fn lemma_retreat(s: Seq<char>, set: CharSet, n: int)
    requires
        0 <= n <= s.len(),
    ensures
        0 <= retreat(s, set, n) <= n,
        retreat(s, set, n) > 0 ==> !set.has(s[retreat(s, set, n) - 1]),
    decreases n,
{
    if n > 0 && set.has(s[n - 1]) {
        lemma_retreat(s, set, n - 1);
    }
}

/// Does `p` occur in the characters `s` at position `i`?
pub fn occurs_at(s: &Vec<char>, p: &Vec<char>, i: usize) -> (r: bool)
    ensures
        r == at(s@, p@, i as int),
{
    let n: usize = s.len();
    if i > n || p.len() > n - i {
        return false;
    }
    let mut k: usize = 0;
    while k < p.len()
        invariant
            n == s@.len(),
            i + p@.len() <= n,
            k <= p@.len(),
            forall|j: int| 0 <= j < k ==> s@[i + j] == p@[j],
        decreases p@.len() - k,
    {
        if s[i + k] != p[k] {
            proof {
                assert(s@.subrange(i as int, i + p@.len())[k as int] == s@[i + k]);
            }
            return false;
        }
        k += 1;
    }
    assert(s@.subrange(i as int, i + p@.len()) =~= p@);
    true
}

/// The first position from `from` on at which `p` occurs in the characters `s`.
pub fn find_chars(s: &Vec<char>, p: &Vec<char>, from: usize) -> (r: Option<usize>)
    ensures
        match r {
            Some(i) => find_from(s@, p@, from as int) == Some(i as int),
            None => find_from(s@, p@, from as int) is None,
        },
{
    let mut i: usize = from;
    while i <= s.len() && p.len() <= s.len() - i
        invariant
            find_from(s@, p@, from as int) == find_from(s@, p@, i as int),
            i <= s@.len() + 1 || i == from,
        decreases s@.len() + 1 - i,
    {
        if occurs_at(s, p, i) {
            return Some(i);
        }
        if i == s.len() {
            assert(find_from(s@, p@, i + 1) is None);
            return None;
        }
        i += 1;
    }
    None
}

/// The position, in characters, of the first occurrence of `p` in `s`.
pub fn position(s: &str, p: &str) -> (r: Option<usize>)
    ensures
        match r {
            Some(i) => find(s@, p@) == Some(i as int) && i + p@.len() <= s@.len(),
            None => find(s@, p@) is None,
        },
{
    proof {
        lemma_find_from(s@, p@, 0);
    }
    let cs = to_chars(s);
    let ps = to_chars(p);
    find_chars(&cs, &ps, 0)
}

/// The position, in characters, of the last occurrence of `p` in `s`.
pub fn last_position(s: &str, p: &str) -> (r: Option<usize>)
    ensures
        match r {
            Some(i) => rfind(s@, p@) == Some(i as int) && i + p@.len() <= s@.len(),
            None => rfind(s@, p@) is None,
        },
{
    let cs = to_chars(s);
    let ps = to_chars(p);
    if ps.len() > cs.len() {
        return None;
    }
    let mut i: usize = cs.len() - ps.len();
    loop
        invariant
            cs@ == s@,
            ps@ == p@,
            i + ps@.len() <= cs@.len(),
            rfind(s@, p@) == rfind_from(s@, p@, i as int),
        decreases i,
    {
        if occurs_at(&cs, &ps, i) {
            return Some(i);
        }
        if i == 0 {
            assert(rfind_from(s@, p@, -1) is None);
            return None;
        }
        i -= 1;
    }
}

/// Does `p` occur in `s`?
pub fn contains(s: &str, p: &str) -> (r: bool)
    ensures
        r == mentions(s@, p@),
{
    proof {
        lemma_find_iff_mentions(s@, p@);
    }
    position(s, p).is_some()
}

/// Does `s` begin with `p`?
pub fn starts_with(s: &str, p: &str) -> (r: bool)
    ensures
        r == starts(s@, p@),
{
    let cs = to_chars(s);
    let ps = to_chars(p);
    occurs_at(&cs, &ps, 0)
}

/// Does `s` end with `p`?
pub fn ends_with(s: &str, p: &str) -> (r: bool)
    ensures
        r == ends(s@, p@),
{
    let cs = to_chars(s);
    let ps = to_chars(p);
    if ps.len() > cs.len() {
        return false;
    }
    occurs_at(&cs, &ps, cs.len() - ps.len())
}

/// What follows `p` in `s`, where `s` begins with `p`.
pub open spec fn after_prefix(s: Seq<char>, p: Seq<char>) -> Option<Seq<char>> {
    if starts(s, p) {
        Some(s.subrange(p.len() as int, s.len() as int))
    } else {
        None
    }
}

/// What precedes `p` in `s`, where `s` ends with `p`.
pub open spec fn before_suffix(s: Seq<char>, p: Seq<char>) -> Option<Seq<char>> {
    if ends(s, p) {
        Some(s.subrange(0, s.len() - p.len()))
    } else {
        None
    }
}

/// The view of an optional text.
pub open spec fn opt_view(o: Option<&str>) -> Option<Seq<char>> {
    match o {
        Some(s) => Some(s@),
        None => None,
    }
}

/// The view of an optional owned text.
pub open spec fn opt_string(o: Option<String>) -> Option<Seq<char>> {
    match o {
        Some(s) => Some(s@),
        None => None,
    }
}

pub fn strip_prefix<'a>(s: &'a str, p: &str) -> (r: Option<&'a str>)
    ensures
        opt_view(r) == after_prefix(s@, p@),
{
    if starts_with(s, p) {
        let n: usize = s.unicode_len();
        let k: usize = p.unicode_len();
        Some(s.substring_char(k, n))
    } else {
        None
    }
}

pub fn strip_suffix<'a>(s: &'a str, p: &str) -> (r: Option<&'a str>)
    ensures
        opt_view(r) == before_suffix(s@, p@),
{
    if ends_with(s, p) {
        let n: usize = s.unicode_len();
        let k: usize = p.unicode_len();
        Some(s.substring_char(0, n - k))
    } else {
        None
    }
}

/// The two sides of the first occurrence of `p` in `s`.
pub open spec fn cut(s: Seq<char>, p: Seq<char>) -> Option<(Seq<char>, Seq<char>)> {
    match find(s, p) {
        Some(i) => Some((s.subrange(0, i), s.subrange(i + p.len(), s.len() as int))),
        None => None,
    }
}

/// The view of an optional pair of texts.
pub open spec fn opt_pair(o: Option<(&str, &str)>) -> Option<(Seq<char>, Seq<char>)> {
    match o {
        Some(p) => Some((p.0@, p.1@)),
        None => None,
    }
}

/// Splits `s` at the first occurrence of `p`.
pub fn split_once<'a>(s: &'a str, p: &str) -> (r: Option<(&'a str, &'a str)>)
    ensures
        opt_pair(r) == cut(s@, p@),
{
    match position(s, p) {
        Some(i) => {
            let n: usize = s.unicode_len();
            let k: usize = p.unicode_len();
            Some((s.substring_char(0, i), s.substring_char(i + k, n)))
        },
        None => None,
    }
}

pub fn seek_chars(cs: &Vec<char>, set: CharSet, i: usize) -> (r: usize)
    requires
        i <= cs@.len(),
    ensures
        r == seek(cs@, set, i as int),
        i <= r <= cs@.len(),
{
    let mut k: usize = i;
    while k < cs.len()
        invariant
            i <= k <= cs@.len(),
            seek(cs@, set, i as int) == seek(cs@, set, k as int),
        decreases cs@.len() - k,
    {
        if set.holds(cs[k]) {
            return k;
        }
        k += 1;
    }
    k
}

pub fn skip_chars(cs: &Vec<char>, set: CharSet, i: usize) -> (r: usize)
    requires
        i <= cs@.len(),
    ensures
        r == skip(cs@, set, i as int),
        i <= r <= cs@.len(),
{
    let mut k: usize = i;
    while k < cs.len()
        invariant
            i <= k <= cs@.len(),
            skip(cs@, set, i as int) == skip(cs@, set, k as int),
        decreases cs@.len() - k,
    {
        if !set.holds(cs[k]) {
            return k;
        }
        k += 1;
    }
    k
}

pub fn retreat_chars(cs: &Vec<char>, set: CharSet, n: usize) -> (r: usize)
    requires
        n <= cs@.len(),
    ensures
        r == retreat(cs@, set, n as int),
        r <= n,
{
    let mut k: usize = n;
    while k > 0
        invariant
            k <= n <= cs@.len(),
            retreat(cs@, set, n as int) == retreat(cs@, set, k as int),
        decreases k,
    {
        if !set.holds(cs[k - 1]) {
            return k;
        }
        k -= 1;
    }
    k
}

/// Do all characters of `s` belong to the set?
pub open spec fn all_in(s: Seq<char>, set: CharSet) -> bool {
    forall|i: int| 0 <= i < s.len() ==> set.has(#[trigger] s[i])
}

pub fn all_chars(s: &str, set: CharSet) -> (r: bool)
    ensures
        r == all_in(s@, set),
{
    let cs = to_chars(s);
    proof {
        lemma_skip(s@, set, 0);
    }
    skip_chars(&cs, set, 0) == cs.len()
}

// ---------------------------------------------------------------------
// Trimming
// ---------------------------------------------------------------------

/// `s` without the leading characters of the set.
pub open spec fn trimmed_start(s: Seq<char>, set: CharSet) -> Seq<char> {
    s.subrange(skip(s, set, 0), s.len() as int)
}

/// `s` without the trailing characters of the set.
pub open spec fn trimmed_end(s: Seq<char>, set: CharSet) -> Seq<char> {
    s.subrange(0, retreat(s, set, s.len() as int))
}

/// `s` without the leading and trailing characters of the set.
pub open spec fn trimmed(s: Seq<char>, set: CharSet) -> Seq<char> {
    trimmed_end(trimmed_start(s, set), set)
}

pub fn trim_start(s: &str, set: CharSet) -> (r: &str)
    ensures
        r@ == trimmed_start(s@, set),
{
    let cs = to_chars(s);
    let i: usize = skip_chars(&cs, set, 0);
    s.substring_char(i, cs.len())
}

pub fn trim_end(s: &str, set: CharSet) -> (r: &str)
    ensures
        r@ == trimmed_end(s@, set),
{
    let cs = to_chars(s);
    let n: usize = retreat_chars(&cs, set, cs.len());
    s.substring_char(0, n)
}

pub fn trim_set(s: &str, set: CharSet) -> (r: &str)
    ensures
        r@ == trimmed(s@, set),
{
    trim_end(trim_start(s, set), set)
}

/// `s` without leading and trailing white space.
pub open spec fn trim_text(s: Seq<char>) -> Seq<char> {
    trimmed(s, CharSet::Space)
}

/// What is dropped from the end of the first `n` characters belongs to the
/// set.
proof fn lemma_retreat_drops(s: Seq<char>, set: CharSet, n: int)
    requires
        0 <= n <= s.len(),
    ensures
        forall|k: int| retreat(s, set, n) <= k < n ==> set.has(#[trigger] s[k]),
    decreases n,
{
    if n > 0 && set.has(s[n - 1]) {
        lemma_retreat_drops(s, set, n - 1);
    }
}

/// Trimming leaves what stands between characters of the set and neither
/// begins nor ends with one.
pub proof fn lemma_trimmed_is(s: Seq<char>, set: CharSet, i: int, j: int)
    requires
        0 <= i < j <= s.len(),
        forall|k: int| 0 <= k < i ==> set.has(#[trigger] s[k]),
        forall|k: int| j <= k < s.len() ==> set.has(#[trigger] s[k]),
        !set.has(s[i]),
        !set.has(s[j - 1]),
    ensures
        trimmed(s, set) == s.subrange(i, j),
{
    lemma_skip(s, set, 0);
    assert(skip(s, set, 0) == i);
    let t = trimmed_start(s, set);
    let n = t.len() as int;
    lemma_retreat(t, set, n);
    lemma_retreat_drops(t, set, n);
    let r = retreat(t, set, n);
    if r < j - i {
        assert(set.has(t[j - i - 1]));
    }
    if r > j - i {
        assert(t[r - 1] == s[i + r - 1]);
    }
    assert(trimmed(s, set) =~= s.subrange(i, j));
}

/// Where the trimmed text begins and ends, if any is left.
pub proof fn lemma_trimmed_parts(s: Seq<char>, set: CharSet) -> (r: (int, int))
    requires
        trimmed(s, set).len() > 0,
    ensures
        0 <= r.0 < r.1 <= s.len(),
        trimmed(s, set) == s.subrange(r.0, r.1),
        forall|k: int| 0 <= k < r.0 ==> set.has(#[trigger] s[k]),
        forall|k: int| r.1 <= k < s.len() ==> set.has(#[trigger] s[k]),
        !set.has(s[r.0]),
        !set.has(s[r.1 - 1]),
{
    lemma_skip(s, set, 0);
    let i = skip(s, set, 0);
    let t = trimmed_start(s, set);
    let n = t.len() as int;
    lemma_retreat(t, set, n);
    lemma_retreat_drops(t, set, n);
    let j = i + retreat(t, set, n);
    assert(trimmed(s, set) =~= s.subrange(i, j));
    assert(t[j - i - 1] == s[j - 1]);
    assert forall|k: int| j <= k < s.len() implies set.has(#[trigger] s[k]) by {
        assert(t[k - i] == s[k]);
    }
    (i, j)
}

pub fn trim(s: &str) -> (r: &str)
    ensures
        r@ == trim_text(s@),
{
    trim_set(s, CharSet::Space)
}

// ---------------------------------------------------------------------
// Lists of texts
// ---------------------------------------------------------------------

/// The texts that a list of strings holds.
pub open spec fn views(v: Seq<String>) -> Seq<Seq<char>> {
    Seq::new(v.len(), |i: int| v[i]@)
}

pub broadcast proof fn lemma_views_push(v: Seq<String>, s: String)
    ensures
        #[trigger] views(v.push(s)) == views(v).push(s@),
{
    assert(views(v.push(s)) =~= views(v).push(s@));
}

pub broadcast proof fn lemma_views_empty()
    ensures
        #[trigger] views(Seq::<String>::empty()) == Seq::<Seq<char>>::empty(),
{
    assert(views(Seq::<String>::empty()) =~= Seq::<Seq<char>>::empty());
}

pub broadcast proof fn lemma_views_append(v: Seq<String>, w: Seq<String>)
    ensures
        #[trigger] views(v + w) == views(v) + views(w),
{
    assert(views(v + w) =~= views(v) + views(w));
}

pub broadcast group group_views {
    lemma_views_push,
    lemma_views_empty,
    lemma_views_append,
}

/// A list of strings with the same texts.
pub fn clone_list(v: &Vec<String>) -> (r: Vec<String>)
    ensures
        r@ == v@,
{
    let mut r: Vec<String> = Vec::new();
    let mut i: usize = 0;
    while i < v.len()
        invariant
            i <= v@.len(),
            r@ == v@.take(i as int),
        decreases v@.len() - i,
    {
        r.push(v[i].clone());
        i += 1;
    }
    assert(v@.take(v@.len() as int) =~= v@);
    r
}

/// Is `s` one of the texts of the list?
pub fn list_has(v: &Vec<String>, s: &str) -> (r: bool)
    ensures
        r == views(v@).contains(s@),
{
    slice_has(v.as_slice(), s)
}

/// The texts of pairs.
pub open spec fn pairs_view(v: Seq<(String, String)>) -> Seq<(Seq<char>, Seq<char>)> {
    Seq::new(v.len(), |i: int| v[i]@)
}

/// Is `s` one of the texts of the slice?
pub fn slice_has(v: &[String], s: &str) -> (r: bool)
    ensures
        r == views(v@).contains(s@),
{
    let mut i: usize = 0;
    while i < v.len()
        invariant
            i <= v@.len(),
            forall|k: int| 0 <= k < i ==> v@[k]@ != s@,
        decreases v@.len() - i,
    {
        if same(v[i].as_str(), s) {
            assert(views(v@)[i as int] == s@);
            return true;
        }
        i += 1;
    }
    false
}

/// The texts of the list from position `i` on, each after `sep`.
pub open spec fn join_rest(v: Seq<Seq<char>>, sep: Seq<char>, i: int) -> Seq<char>
    decreases v.len() - i,
{
    if i < 0 || i >= v.len() {
        nil()
    } else {
        sep + v[i] + join_rest(v, sep, i + 1)
    }
}

/// The texts of the list with `sep` between any two neighbours.
pub open spec fn joined(v: Seq<Seq<char>>, sep: Seq<char>) -> Seq<char> {
    if v.len() == 0 {
        nil()
    } else {
        v[0] + join_rest(v, sep, 1)
    }
}

/// Joining one more text appends the separator and the text.
pub proof fn lemma_joined_push(v: Seq<Seq<char>>, sep: Seq<char>, s: Seq<char>)
    ensures
        joined(v.push(s), sep) == if v.len() == 0 {
            s
        } else {
            joined(v, sep) + sep + s
        },
{
    broadcast use group_append;
    if v.len() == 0 {
        assert(join_rest(v.push(s), sep, 1) == nil());
    } else {
        lemma_join_rest_push(v, sep, s, 1);
        assert(v.push(s)[0] == v[0]);
    }
}

proof fn lemma_join_rest_push(v: Seq<Seq<char>>, sep: Seq<char>, s: Seq<char>, i: int)
    requires
        0 <= i <= v.len(),
    ensures
        join_rest(v.push(s), sep, i) == join_rest(v, sep, i) + sep + s,
    decreases v.len() - i,
{
    broadcast use group_append;
    if i == v.len() {
        assert(join_rest(v.push(s), sep, i + 1) == nil());
        assert(join_rest(v, sep, i) == nil());
    } else {
        lemma_join_rest_push(v, sep, s, i + 1);
        assert(v.push(s)[i] == v[i]);
    }
}

/// Appends the texts of the list, `sep` between any two neighbours.
pub fn put_joined(out: &mut String, v: &Vec<String>, sep: &str)
    ensures
        final(out)@ == old(out)@ + joined(views(v@), sep@),
{
    broadcast use group_append;
    let ghost w = views(v@);
    let mut i: usize = 0;
    proof {
        assert(w.take(0).len() == 0);
    }
    while i < v.len()
        invariant
            w == views(v@),
            i <= v@.len(),
            out@ == old(out)@ + joined(w.take(i as int), sep@),
        decreases v@.len() - i,
    {
        proof {
            lemma_joined_push(w.take(i as int), sep@, w[i as int]);
            assert(w.take(i + 1) =~= w.take(i as int).push(w[i as int]));
        }
        if i > 0 {
            out.append(sep);
        }
        out.append(v[i].as_str());
        i += 1;
    }
    assert(w.take(w.len() as int) =~= w);
}

/// The texts of the list joined by `sep`.
pub fn join(v: &Vec<String>, sep: &str) -> (r: String)
    ensures
        r@ == joined(views(v@), sep@),
{
    broadcast use group_append;
    let mut r = String::new();
    put_joined(&mut r, v, sep);
    r
}

// ---------------------------------------------------------------------
// Splitting
// ---------------------------------------------------------------------

/// The pieces of `s` between the characters of the set, the current piece
/// having begun at `start` and the scan standing at `i`.
pub open spec fn pieces_from(s: Seq<char>, set: CharSet, start: int, i: int) -> Seq<Seq<char>>
    decreases s.len() - i,
{
    if i < 0 || i >= s.len() {
        seq![s.subrange(start, s.len() as int)]
    } else if set.has(s[i]) {
        seq![s.subrange(start, i)] + pieces_from(s, set, i + 1, i + 1)
    } else {
        pieces_from(s, set, start, i + 1)
    }
}

/// The pieces of `s` between the characters of the set.
pub open spec fn pieces(s: Seq<char>, set: CharSet) -> Seq<Seq<char>> {
    pieces_from(s, set, 0, 0)
}

/// A scan passes over characters that are not in the set.
proof fn lemma_pieces_pass(s: Seq<char>, set: CharSet, start: int, i: int, j: int)
    requires
        0 <= i <= j <= s.len(),
        forall|k: int| i <= k < j ==> !set.has(#[trigger] s[k]),
    ensures
        pieces_from(s, set, start, i) == pieces_from(s, set, start, j),
    decreases j - i,
{
    if i < j {
        lemma_pieces_pass(s, set, start, i + 1, j);
    }
}

/// The texts of a list with a comma and a space between them: cut at the
/// commas, `x` and the texts from `k` on come back, each of these behind
/// the space.
pub proof fn lemma_pieces_of_list(
    s: Seq<char>,
    pos: int,
    x: Seq<char>,
    v: Seq<Seq<char>>,
    k: int,
)
    requires
        0 <= pos <= s.len(),
        0 <= k <= v.len(),
        s.subrange(pos, s.len() as int) == x + join_rest(v, ", "@, k),
        forall|i: int| 0 <= i < x.len() ==> #[trigger] x[i] != ',',
        forall|i: int, j: int|
            0 <= i < v.len() && 0 <= j < v[i].len() ==> #[trigger] v[i][j] != ',',
    ensures
        pieces_from(s, CharSet::Is(','), pos, pos) == seq![x] + Seq::new(
            (v.len() - k) as nat,
            |i: int| " "@ + v[k + i],
        ),
    decreases v.len() - k,
{
    reveal_strlit(", ");
    reveal_strlit(" ");
    let set = CharSet::Is(',');
    let tail = s.subrange(pos, s.len() as int);
    let rest = join_rest(v, ", "@, k);
    let j: int = pos + x.len();
    assert(tail.len() == s.len() - pos);
    assert(tail.len() == x.len() + rest.len());
    assert forall|i: int| pos <= i < j implies !set.has(#[trigger] s[i]) by {
        assert(s[i] == tail[i - pos]);
        assert(tail[i - pos] == x[i - pos]);
    }
    lemma_pieces_pass(s, set, pos, pos, j);
    assert(s.subrange(pos, j) =~= x) by {
        assert(s.subrange(pos, j) =~= tail.subrange(0, x.len() as int));
    }
    let want = seq![x] + Seq::new((v.len() - k) as nat, |i: int| " "@ + v[k + i]);
    if k == v.len() {
        assert(rest == nil());
        assert(s.len() == j);
        assert(want =~= seq![x]);
    } else {
        let y = " "@ + v[k];
        assert(s[j] == tail[x.len() as int]);
        assert(rest[0] == ',');
        assert(s.subrange(j + 1, s.len() as int) =~= y + join_rest(v, ", "@, k + 1)) by {
            let n: int = x.len() as int;
            assert(s.subrange(j + 1, s.len() as int) =~= tail.subrange(n + 1, tail.len() as int));
            assert(tail.subrange(n + 1, tail.len() as int) =~= rest.subrange(
                1,
                rest.len() as int,
            ));
            assert(rest.subrange(1, rest.len() as int) =~= y + join_rest(v, ", "@, k + 1));
        }
        assert forall|i: int| 0 <= i < y.len() implies #[trigger] y[i] != ',' by {
            if i > 0 {
                assert(y[i] == v[k][i - 1]);
            }
        }
        lemma_pieces_of_list(s, j + 1, y, v, k + 1);
        let more = seq![y] + Seq::new((v.len() - k - 1) as nat, |i: int| " "@ + v[k + 1 + i]);
        assert(pieces_from(s, set, pos, pos) == seq![x] + more);
        assert(seq![x] + more =~= want);
    }
}

/// No piece is longer than the text.
pub proof fn lemma_pieces_len(s: Seq<char>, set: CharSet, start: int, i: int)
    requires
        0 <= start <= i <= s.len(),
    ensures
        pieces_from(s, set, start, i).len() > 0,
        forall|k: int|
            0 <= k < pieces_from(s, set, start, i).len() ==> (#[trigger] pieces_from(
                s,
                set,
                start,
                i,
            )[k]).len() <= s.len(),
    decreases s.len() - i,
{
    if i < s.len() {
        if set.has(s[i]) {
            lemma_pieces_len(s, set, i + 1, i + 1);
        } else {
            lemma_pieces_len(s, set, start, i + 1);
        }
    }
}

pub fn split(s: &str, set: CharSet) -> (r: Vec<String>)
    ensures
        views(r@) == pieces(s@, set),
{
    broadcast use {group_append, group_views};
    let cs = to_chars(s);
    let mut r: Vec<String> = Vec::new();
    let mut start: usize = 0;
    let mut i: usize = 0;
    while i < cs.len()
        invariant
            cs@ == s@,
            start <= i <= cs@.len(),
            views(r@) + pieces_from(s@, set, start as int, i as int) == pieces(s@, set),
        decreases cs@.len() - i,
    {
        if set.holds(cs[i]) {
            r.push(from_chars(&cs, start, i));
            start = i + 1;
        }
        i += 1;
    }
    r.push(from_chars(&cs, start, cs.len()));
    r
}

/// The pieces of `s` from `start` on between the occurrences of `p`.
pub open spec fn parts_from(s: Seq<char>, p: Seq<char>, start: int) -> Seq<Seq<char>>
    decreases s.len() - start,
{
    if p.len() == 0 || start < 0 || start > s.len() {
        Seq::empty()
    } else {
        proof {
            lemma_find_from(s, p, start);
        }
        match find_from(s, p, start) {
            Some(i) => seq![s.subrange(start, i)] + parts_from(s, p, i + p.len()),
            None => seq![s.subrange(start, s.len() as int)],
        }
    }
}

/// The pieces of `s` between the occurrences of `p`.
pub open spec fn parts(s: Seq<char>, p: Seq<char>) -> Seq<Seq<char>> {
    parts_from(s, p, 0)
}

/// No piece is longer than the text.
pub proof fn lemma_parts_len(s: Seq<char>, p: Seq<char>, start: int)
    requires
        0 <= start <= s.len(),
    ensures
        forall|k: int|
            0 <= k < parts_from(s, p, start).len() ==> (#[trigger] parts_from(s, p, start)[k]).len()
                <= s.len(),
    decreases s.len() - start,
{
    if p.len() > 0 {
        lemma_find_from(s, p, start);
        if let Some(i) = find_from(s, p, start) {
            lemma_parts_len(s, p, i + p.len());
            let rest = parts_from(s, p, i + p.len());
            let all = parts_from(s, p, start);
            assert(all == seq![s.subrange(start, i)] + rest);
            assert forall|k: int| 0 <= k < all.len() implies (#[trigger] all[k]).len() <= s.len() by {
                if k > 0 {
                    assert(all[k] == rest[k - 1]);
                }
            }
        }
    }
}

pub fn split_on(s: &str, p: &str) -> (r: Vec<String>)
    requires
        p@.len() > 0,
    ensures
        views(r@) == parts(s@, p@),
{
    broadcast use {group_append, group_views};
    let cs = to_chars(s);
    let ps = to_chars(p);
    let n: usize = cs.len();
    let mut r: Vec<String> = Vec::new();
    let mut start: usize = 0;
    loop
        invariant
            cs@ == s@,
            ps@ == p@,
            n == cs@.len(),
            p@.len() > 0,
            start <= n,
            views(r@) + parts_from(s@, p@, start as int) == parts(s@, p@),
        decreases n - start,
    {
        proof {
            lemma_find_from(s@, p@, start as int);
        }
        match find_chars(&cs, &ps, start) {
            Some(i) => {
                r.push(from_chars(&cs, start, i));
                start = i + ps.len();
            },
            None => {
                r.push(from_chars(&cs, start, n));
                return r;
            },
        }
    }
}

/// `s` without the leading occurrences of `p`.
pub open spec fn without_prefixes(s: Seq<char>, p: Seq<char>) -> Seq<char>
    decreases s.len(),
{
    if p.len() > 0 && starts(s, p) {
        without_prefixes(s.subrange(p.len() as int, s.len() as int), p)
    } else {
        s
    }
}

pub fn strip_prefixes<'a>(s: &'a str, p: &str) -> (r: &'a str)
    requires
        p@.len() > 0,
    ensures
        r@ == without_prefixes(s@, p@),
    decreases s@.len(),
{
    match strip_prefix(s, p) {
        Some(rest) => strip_prefixes(rest, p),
        None => s,
    }
}

/// The maximal runs of characters outside the set, from position `i` on.
pub open spec fn words_from(s: Seq<char>, set: CharSet, i: int) -> Seq<Seq<char>>
    decreases s.len() - i,
{
    if i < 0 || i >= s.len() {
        Seq::empty()
    } else if set.has(s[i]) {
        words_from(s, set, i + 1)
    } else {
        proof {
            lemma_seek(s, set, i + 1);
        }
        let j = seek(s, set, i);
        seq![s.subrange(i, j)] + words_from(s, set, j)
    }
}

/// The words of `s`: its maximal runs without white space.
pub open spec fn words(s: Seq<char>) -> Seq<Seq<char>> {
    words_from(s, CharSet::Space, 0)
}

pub fn split_whitespace(s: &str) -> (r: Vec<String>)
    ensures
        views(r@) == words(s@),
{
    broadcast use {group_append, group_views};
    let cs = to_chars(s);
    let set = CharSet::Space;
    let mut r: Vec<String> = Vec::new();
    let mut i: usize = 0;
    while i < cs.len()
        invariant
            cs@ == s@,
            set == CharSet::Space,
            i <= cs@.len(),
            views(r@) + words_from(s@, set, i as int) == words(s@),
        decreases cs@.len() - i,
    {
        if set.holds(cs[i]) {
            i += 1;
        } else {
            let j: usize = seek_chars(&cs, set, i);
            proof {
                lemma_seek(s@, set, i + 1);
            }
            r.push(from_chars(&cs, i, j));
            i = j;
        }
    }
    r
}

/// `s` without one trailing carriage return.
pub open spec fn without_cr(s: Seq<char>) -> Seq<char> {
    if s.len() > 0 && s.last() == '\r' {
        s.drop_last()
    } else {
        s
    }
}

/// The lines of `s`, the current line having begun at `start` and the
/// scan standing at `i`.
pub open spec fn lines_from(s: Seq<char>, start: int, i: int) -> Seq<Seq<char>>
    decreases s.len() - i,
{
    if i < 0 || i >= s.len() {
        if start < s.len() {
            seq![s.subrange(start, s.len() as int)]
        } else {
            Seq::empty()
        }
    } else if s[i] == '\n' {
        seq![without_cr(s.subrange(start, i))] + lines_from(s, i + 1, i + 1)
    } else {
        lines_from(s, start, i + 1)
    }
}

/// The lines of `s`: what stands before each line feed, without the
/// carriage return before it, and what follows the last line feed where
/// that is not empty.
pub open spec fn lines_of(s: Seq<char>) -> Seq<Seq<char>> {
    lines_from(s, 0, 0)
}

pub fn lines(s: &str) -> (r: Vec<String>)
    ensures
        views(r@) == lines_of(s@),
{
    broadcast use {group_append, group_views};
    let cs = to_chars(s);
    let mut r: Vec<String> = Vec::new();
    let mut start: usize = 0;
    let mut i: usize = 0;
    while i < cs.len()
        invariant
            cs@ == s@,
            start <= i <= cs@.len(),
            views(r@) + lines_from(s@, start as int, i as int) == lines_of(s@),
        decreases cs@.len() - i,
    {
        if cs[i] == '\n' {
            let ghost line = s@.subrange(start as int, i as int);
            if start < i && cs[i - 1] == '\r' {
                proof {
                    assert(line.drop_last() =~= s@.subrange(start as int, i - 1));
                }
                r.push(from_chars(&cs, start, i - 1));
            } else {
                r.push(from_chars(&cs, start, i));
            }
            start = i + 1;
        }
        i += 1;
    }
    if start < cs.len() {
        r.push(from_chars(&cs, start, cs.len()));
    }
    r
}

// ---------------------------------------------------------------------
// Replacing
// ---------------------------------------------------------------------

/// What stands in `s` from position `i` on, with each occurrence of `p`,
/// taken from the left and without overlap, replaced by `q`.
pub open spec fn replaced_from(s: Seq<char>, p: Seq<char>, q: Seq<char>, i: int) -> Seq<char>
    decreases s.len() - i,
{
    if i < 0 || i >= s.len() {
        nil()
    } else if p.len() > 0 && at(s, p, i) {
        q + replaced_from(s, p, q, i + p.len())
    } else {
        seq![s[i]] + replaced_from(s, p, q, i + 1)
    }
}

/// `s` with each occurrence of `p` replaced by `q`.
pub open spec fn replaced(s: Seq<char>, p: Seq<char>, q: Seq<char>) -> Seq<char> {
    replaced_from(s, p, q, 0)
}

pub fn replace(s: &str, p: &str, q: &str) -> (r: String)
    requires
        p@.len() > 0,
    ensures
        r@ == replaced(s@, p@, q@),
{
    broadcast use group_append;
    let cs = to_chars(s);
    let ps = to_chars(p);
    let mut r = String::new();
    let mut i: usize = 0;
    while i < cs.len()
        invariant
            cs@ == s@,
            ps@ == p@,
            p@.len() > 0,
            i <= cs@.len(),
            r@ + replaced_from(s@, p@, q@, i as int) == replaced(s@, p@, q@),
        decreases cs@.len() - i,
    {
        if occurs_at(&cs, &ps, i) {
            r.append(q);
            i += ps.len();
        } else {
            proof {
                assert(r@ + seq![s@[i as int]] =~= r@.push(s@[i as int]));
            }
            r.push(cs[i]);
            i += 1;
        }
    }
    r
}

// ---------------------------------------------------------------------
// Numerals
// ---------------------------------------------------------------------

/// The decimal digit `d`.
pub open spec fn digit(d: nat) -> char {
    (48 + d) as char
}

/// The decimal numeral of `n`.
pub open spec fn dec(n: nat) -> Seq<char>
    decreases n,
{
    if n < 10 {
        seq![digit(n)]
    } else {
        dec(n / 10).push(digit(n % 10))
    }
}

/// The decimal numeral of an integer, with a sign where it is negative.
pub open spec fn dec_int(n: int) -> Seq<char> {
    if n < 0 {
        "-"@ + dec((-n) as nat)
    } else {
        dec(n as nat)
    }
}

fn digit_char(d: u8) -> (c: char)
    requires
        d < 10,
    ensures
        c == digit(d as nat),
{
    (48u8 + d) as char
}

/// Appends the decimal numeral of `n`.
pub fn put_dec(out: &mut String, n: u128)
    ensures
        final(out)@ == old(out)@ + dec(n as nat),
    decreases n,
{
    broadcast use group_append;
    if n >= 10 {
        put_dec(out, n / 10);
    } else {
        assert(seq![digit(n as nat)] =~= nil().push(digit(n as nat)));
    }
    out.push(digit_char((n % 10) as u8));
}

/// Appends the decimal numeral of `n`, with a sign where it is negative.
pub fn put_int(out: &mut String, n: i128)
    ensures
        final(out)@ == old(out)@ + dec_int(n as int),
{
    broadcast use group_append;
    if n < 0 {
        out.append("-");
        let m: u128 = (-(n + 1)) as u128 + 1;
        put_dec(out, m);
    } else {
        put_dec(out, n as u128);
    }
}

/// The decimal numeral of `n`.
pub fn numeral(n: u128) -> (r: String)
    ensures
        r@ == dec(n as nat),
{
    broadcast use group_append;
    let mut r = String::new();
    put_dec(&mut r, n);
    r
}

/// The number that a run of decimal digits denotes.
pub open spec fn value(s: Seq<char>) -> nat
    decreases s.len(),
{
    if s.len() == 0 {
        0
    } else {
        10 * value(s.drop_last()) + (s.last() as nat - 48) as nat
    }
}

/// Reading back the numeral of a number gives the number.
pub proof fn lemma_value_of_dec(n: nat)
    ensures
        value(dec(n)) == n,
        dec(n).len() > 0,
        all_in(dec(n), CharSet::Digit),
    decreases n,
{
    reveal_with_fuel(value, 2);
    if n < 10 {
        assert(dec(n).drop_last() =~= nil());
        assert(digit(n) as nat == 48 + n);
    } else {
        lemma_value_of_dec(n / 10);
        assert(dec(n).drop_last() =~= dec(n / 10));
        assert(digit(n % 10) as nat == 48 + n % 10);
    }
}

/// The digits of an unsigned numeral: a plus sign may stand before them.
pub open spec fn unsigned_digits(s: Seq<char>) -> Seq<char> {
    if s.len() > 0 && s[0] == '+' {
        s.subrange(1, s.len() as int)
    } else {
        s
    }
}

/// The number not above `max` that `s` denotes, where it denotes one: one
/// or more decimal digits, after a plus sign or not.
pub open spec fn parsed(s: Seq<char>, max: nat) -> Option<nat> {
    let d = unsigned_digits(s);
    if d.len() > 0 && all_in(d, CharSet::Digit) && value(d) <= max {
        Some(value(d))
    } else {
        None
    }
}

/// A numeral is read as its number, and there is no white space around it.
pub proof fn lemma_parsed_dec(n: nat, max: nat)
    requires
        n <= max,
    ensures
        trim_text(dec(n)) == dec(n),
        parsed(dec(n), max) == Some(n),
{
    lemma_value_of_dec(n);
    let d = dec(n);
    assert(CharSet::Digit.has(d[0]) && CharSet::Digit.has(d[d.len() - 1]));
    lemma_trimmed_is(d, CharSet::Space, 0, d.len() as int);
    assert(d.subrange(0, d.len() as int) =~= d);
}

proof fn lemma_value_prefix(s: Seq<char>, k: int)
    requires
        0 <= k <= s.len(),
        all_in(s, CharSet::Digit),
    ensures
        value(s.take(k)) <= value(s),
    decreases s.len() - k,
{
    if k == s.len() {
        assert(s.take(k) =~= s);
    } else {
        lemma_value_prefix(s, k + 1);
        assert(s.take(k + 1).drop_last() =~= s.take(k));
    }
}

/// Reads an unsigned number not above `max`.
pub fn parse_bounded(s: &str, max: u64) -> (r: Option<u64>)
    ensures
        match r {
            Some(n) => parsed(s@, max as nat) == Some(n as nat),
            None => parsed(s@, max as nat) is None,
        },
{
    let cs = to_chars(s);
    let from: usize = if cs.len() > 0 && cs[0] == '+' {
        1
    } else {
        0
    };
    let ghost d = unsigned_digits(s@);
    assert(d =~= s@.subrange(from as int, s@.len() as int));
    if cs.len() == from {
        return None;
    }
    let mut n: u64 = 0;
    let mut i: usize = from;
    assert(d.take(0) =~= nil());
    while i < cs.len()
        invariant
            cs@ == s@,
            d == unsigned_digits(s@),
            d == s@.subrange(from as int, s@.len() as int),
            from <= i <= cs@.len(),
            from < cs@.len(),
            all_in(d.take(i - from), CharSet::Digit),
            n == value(d.take(i - from)),
            n <= max,
        decreases cs@.len() - i,
    {
        let c = cs[i];
        assert(d[i - from] == c);
        if !('0' <= c && c <= '9') {
            assert(!CharSet::Digit.has(d[i - from]));
            return None;
        }
        let v: u64 = (c as u32 - 48) as u64;
        proof {
            let t = d.take(i - from + 1);
            assert(t.drop_last() =~= d.take(i - from));
            assert(t.last() == c);
            assert(value(t) == 10 * n + v);
            assert forall|k: int| 0 <= k < t.len() implies CharSet::Digit.has(#[trigger] t[k]) by {
                if k < i - from {
                    assert(CharSet::Digit.has(d.take(i - from)[k]));
                }
            }
            if all_in(d, CharSet::Digit) {
                lemma_value_prefix(d, i - from + 1);
            }
        }
        if v > max || n > (max - v) / 10 {
            return None;
        }
        n = 10 * n + v;
        i += 1;
    }
    assert(d.take(d.len() as int) =~= d);
    Some(n)
}

} // verus!
