//! Type signatures of Cryptol functions.

use vstd::prelude::*;

use crate::constraints::{ReturnConstraint, SpecConstraint};
use crate::text::{
    CharSet, at, contains, cut, dec, ends, ends_with, find, find_chars, find_from, from_chars,
    group_append, group_views, is_space, join, joined, lemma_find_from, lemma_parsed_dec,
    lemma_retreat, lemma_skip, lemma_trimmed_is, lemma_trimmed_parts, lemma_value_of_dec, lines,
    lines_of, mentions, opt_string, owned, parse_bounded, parsed, position, put, put2, same,
    split_once, starts, starts_with, to_chars, trim, trim_text, trimmed_start, views,
};

verus! {

/// The first line from `i` on that begins, apart from white space, with
/// the given text.
pub open spec fn sig_line(lines: Seq<Seq<char>>, prefix: Seq<char>, i: int) -> Option<int>
    decreases lines.len() - i,
{
    if i < 0 || i >= lines.len() {
        None
    } else if starts(trim_text(lines[i]), prefix) {
        Some(i)
    } else {
        sig_line(lines, prefix, i + 1)
    }
}

/// Does the line continue a signature: it is not blank, and it begins with
/// white space or a dash?
pub open spec fn continues(line: Seq<char>) -> bool {
    trim_text(line).len() > 0 && (is_space(line[0]) || line[0] == '-')
}

/// The continuation lines from `i` on, trimmed.
pub open spec fn continuation(lines: Seq<Seq<char>>, i: int) -> Seq<Seq<char>>
    decreases lines.len() - i,
{
    if i < 0 || i >= lines.len() || !continues(lines[i]) {
        Seq::empty()
    } else {
        seq![trim_text(lines[i])] + continuation(lines, i + 1)
    }
}

/// What stands before the first line comment.
pub open spec fn uncommented(line: Seq<char>) -> Seq<char> {
    match find(line, "//"@) {
        Some(i) => line.subrange(0, i),
        None => line,
    }
}

pub open spec fn uncommented_lines(lines: Seq<Seq<char>>) -> Seq<Seq<char>> {
    Seq::new(lines.len(), |i: int| uncommented(lines[i]))
}

/// The text without block comments; one that is not closed runs to the
/// end.
pub open spec fn without_blocks(s: Seq<char>) -> Seq<char>
    decreases s.len(),
{
    match find(s, "/*"@) {
        Some(i) => {
            match find_from(s, "*/"@, i) {
                Some(j) => {
                    proof {
                        lemma_find_from(s, "/*"@, 0);
                        lemma_find_from(s, "*/"@, i);
                        reveal_strlit("*/");
                    }
                    without_blocks(s.subrange(0, i) + s.subrange(j + 2, s.len() as int))
                },
                None => s.subrange(0, i),
            }
        },
        None => s,
    }
}

/// The lines of the signature of a function: what follows the colon on its
/// first line, and its continuation lines.
pub open spec fn signature_lines(text: Seq<char>, fn_name: Seq<char>) -> Option<Seq<Seq<char>>> {
    let lines = lines_of(text);
    match sig_line(lines, fn_name + " :"@, 0) {
        Some(i) => match cut(trim_text(lines[i]), ":"@) {
            Some((_, after)) => Some(seq![after] + continuation(lines, i + 1)),
            None => None,
        },
        None => None,
    }
}

/// The signature of a function on one line, without comments; `None` where
/// the text holds none.
pub open spec fn signature(text: Seq<char>, fn_name: Seq<char>) -> Option<Seq<char>> {
    match signature_lines(text, fn_name) {
        Some(lines) => Some(without_blocks(joined(uncommented_lines(lines), " "@))),
        None => None,
    }
}

fn strip_line_comment(line: &str) -> (r: String)
    ensures
        r@ == uncommented(line@),
{
    match position(line, "//") {
        Some(i) => owned(line.substring_char(0, i)),
        None => owned(line),
    }
}

fn strip_block_comments(s: &str) -> (r: String)
    ensures
        r@ == without_blocks(s@),
{
    broadcast use {group_append, group_views};
    let mut cur = owned(s);
    proof {
        reveal_strlit("*/");
        reveal_strlit("/*");
    }
    loop
        invariant
            "*/"@.len() == 2,
            without_blocks(s@) == without_blocks(cur@),
        decreases cur@.len(),
    {
        let start = position(cur.as_str(), "/*");
        match start {
            Some(i) => {
                let cs = to_chars(cur.as_str());
                let n: usize = cs.len();
                let close = to_chars("*/");
                proof {
                    lemma_find_from(cur@, "*/"@, i as int);
                }
                match find_chars(&cs, &close, i) {
                    Some(j) => {
                        let mut next = from_chars(&cs, 0, i);
                        let tail = from_chars(&cs, j + 2, n);
                        put(&mut next, tail.as_str());
                        cur = next;
                    },
                    None => {
                        return from_chars(&cs, 0, i);
                    },
                }
            },
            None => {
                return cur;
            },
        }
    }
}

fn continues_signature(line: &str) -> (r: bool)
    ensures
        r == continues(line@),
{
    if trim(line).is_empty() {
        return false;
    }
    proof {
        if line@.len() == 0 {
            assert(trimmed_start(line@, CharSet::Space) =~= line@);
        }
    }
    let c = line.get_char(0);
    CharSet::Space.holds(c) || c == '-'
}

/// The signature of a function on one line, without comments.
fn collect_signature(text: &str, fn_name: &str) -> (r: Option<String>)
    ensures
        opt_string(r) == signature(text@, fn_name@),
{
    broadcast use {group_append, group_views};
    let mut prefix = String::new();
    put2(&mut prefix, fn_name, " :");
    let all = lines(text);
    let ghost w = views(all@);
    let mut i: usize = 0;
    while i < all.len() && !starts_with(trim(all[i].as_str()), prefix.as_str())
        invariant
            w == views(all@),
            prefix@ == fn_name@ + " :"@,
            i <= all@.len(),
            sig_line(w, prefix@, 0) == sig_line(w, prefix@, i as int),
        decreases all@.len() - i,
    {
        i += 1;
    }
    if i == all.len() {
        return None;
    }
    let first = trim(all[i].as_str());
    match split_once(first, ":") {
        Some((_, after)) => {
            let mut cleaned: Vec<String> = Vec::new();
            cleaned.push(strip_line_comment(after));
            let ghost want = seq![after@] + continuation(w, i + 1);
            let mut k: usize = i + 1;
            proof {
                assert(views(cleaned@) =~= uncommented_lines(seq![after@]));
                assert(seq![after@] + continuation(w, i + 1) =~= want);
            }
            let ghost mut done = seq![after@];
            while k < all.len() && continues_signature(all[k].as_str())
                invariant
                    w == views(all@),
                    i < k <= all@.len(),
                    views(cleaned@) == uncommented_lines(done),
                    done + continuation(w, k as int) == want,
                decreases all@.len() - k,
            {
                let line = trim(all[k].as_str());
                proof {
                    let next = seq![line@];
                    assert(done + (next + continuation(w, k + 1)) =~= (done + next) + continuation(
                        w,
                        k + 1,
                    ));
                    assert(uncommented_lines(done + next) =~= uncommented_lines(done).push(
                        uncommented(line@),
                    ));
                    done = done + next;
                }
                cleaned.push(strip_line_comment(line));
                k += 1;
            }
            proof {
                assert(continuation(w, k as int) =~= Seq::<Seq<char>>::empty());
                assert(done =~= want);
            }
            let sig = join(&cleaned, " ");
            Some(strip_block_comments(sig.as_str()))
        },
        None => None,
    }
}

pub open spec fn opens(c: char) -> bool {
    c == '(' || c == '[' || c == '{'
}

pub open spec fn closes(c: char) -> bool {
    c == ')' || c == ']' || c == '}'
}

/// Does an arrow outside all brackets stand at position `i`?
pub open spec fn arrow_at(s: Seq<char>, i: int, depth: int) -> bool {
    s[i] == '-' && depth == 0 && i + 1 < s.len() && s[i + 1] == '>'
}

/// The nesting depth behind the character `c`.
pub open spec fn depth_after(c: char, depth: int) -> int {
    if opens(c) {
        depth + 1
    } else if closes(c) {
        depth - 1
    } else {
        depth
    }
}

/// The number of arrows outside all brackets from position `i` on.
pub open spec fn arrows_from(s: Seq<char>, i: int, depth: int) -> nat
    decreases s.len() - i,
{
    if i < 0 || i >= s.len() {
        0
    } else if arrow_at(s, i, depth) {
        1 + arrows_from(s, i + 2, depth)
    } else {
        arrows_from(s, i + 1, depth_after(s[i], depth))
    }
}

/// The pieces between the arrows outside all brackets, trimmed, the
/// current piece having begun at `start` and the scan standing at `i`. A
/// blank last piece is left out.
pub open spec fn arrow_pieces(s: Seq<char>, start: int, i: int, depth: int) -> Seq<Seq<char>>
    decreases s.len() - i,
{
    if i < 0 || i >= s.len() {
        let t = trim_text(s.subrange(start, s.len() as int));
        if t.len() == 0 {
            Seq::empty()
        } else {
            seq![t]
        }
    } else if arrow_at(s, i, depth) {
        seq![trim_text(s.subrange(start, i))] + arrow_pieces(s, i + 2, i + 2, depth)
    } else {
        arrow_pieces(s, start, i + 1, depth_after(s[i], depth))
    }
}

/// The parameters of a signature, and its result.
pub open spec fn signature_pieces(sig: Seq<char>) -> Seq<Seq<char>> {
    arrow_pieces(sig, 0, 0, 0)
}

/// The number of parameters of a function.
pub open spec fn arity(text: Seq<char>, fn_name: Seq<char>) -> Option<nat> {
    match signature(text, fn_name) {
        Some(sig) => Some(arrows_from(sig, 0, 0)),
        None => None,
    }
}

/// A signature has one piece for each arrow, and one more where the result
/// is not blank.
pub proof fn law_pieces_count_arrows(s: Seq<char>, start: int, i: int, depth: int)
    requires
        0 <= start <= i,
    ensures
        arrow_pieces(s, start, i, depth).len() == arrows_from(s, i, depth) || arrow_pieces(
            s,
            start,
            i,
            depth,
        ).len() == arrows_from(s, i, depth) + 1,
    decreases s.len() - i,
{
    if i < s.len() {
        if arrow_at(s, i, depth) {
            law_pieces_count_arrows(s, i + 2, i + 2, depth);
        } else {
            law_pieces_count_arrows(s, start, i + 1, depth_after(s[i], depth));
        }
    }
}

fn next_depth(c: char, depth: i128) -> (r: i128)
    requires
        i128::MIN < depth < i128::MAX,
    ensures
        r == depth_after(c, depth as int),
{
    if c == '(' || c == '[' || c == '{' {
        depth + 1
    } else if c == ')' || c == ']' || c == '}' {
        depth - 1
    } else {
        depth
    }
}

/// The number of parameters of a Cryptol function: the arrows of its type
/// signature outside all brackets. `None` where the text holds no
/// signature of it.
pub fn cryptol_arity_from_str(text: &str, fn_name: &str) -> (r: Option<usize>)
    ensures
        match r {
            Some(n) => arity(text@, fn_name@) == Some(n as nat),
            None => arity(text@, fn_name@) is None,
        },
{
    match collect_signature(text, fn_name) {
        Some(sig) => {
            let cs = to_chars(sig.as_str());
            let n: usize = cs.len();
            let mut arrows: usize = 0;
            let mut depth: i128 = 0;
            let mut i: usize = 0;
            while i < n
                invariant
                    cs@ == sig@,
                    n == cs@.len(),
                    i <= n,
                    arrows <= i,
                    -(i as int) <= depth <= i,
                    arrows_from(sig@, 0, 0) == arrows + arrows_from(sig@, i as int, depth as int),
                decreases n - i,
            {
                if cs[i] == '-' && depth == 0 && n - i > 1 && cs[i + 1] == '>' {
                    arrows += 1;
                    i += 2;
                } else {
                    depth = next_depth(cs[i], depth);
                    i += 1;
                }
            }
            Some(arrows)
        },
        None => None,
    }
}

fn split_top_level_arrows(sig: &str) -> (r: Vec<String>)
    ensures
        views(r@) == signature_pieces(sig@),
{
    broadcast use {group_append, group_views};
    let cs = to_chars(sig);
    let n: usize = cs.len();
    let mut parts: Vec<String> = Vec::new();
    let mut start: usize = 0;
    let mut depth: i128 = 0;
    let mut i: usize = 0;
    while i < n
        invariant
            cs@ == sig@,
            n == cs@.len(),
            start <= i <= n,
            -(i as int) <= depth <= i,
            views(parts@) + arrow_pieces(sig@, start as int, i as int, depth as int)
                == signature_pieces(sig@),
        decreases n - i,
    {
        if cs[i] == '-' && depth == 0 && n - i > 1 && cs[i + 1] == '>' {
            let piece = from_chars(&cs, start, i);
            parts.push(owned(trim(piece.as_str())));
            i += 2;
            start = i;
        } else {
            depth = next_depth(cs[i], depth);
            i += 1;
        }
    }
    let last = from_chars(&cs, start, cs.len());
    let t = trim(last.as_str());
    if !t.is_empty() {
        parts.push(owned(t));
    }
    parts
}

proof fn lemma_trim_shortens(s: Seq<char>)
    ensures
        trim_text(s).len() <= s.len(),
{
    lemma_skip(s, CharSet::Space, 0);
    let t = trimmed_start(s, CharSet::Space);
    lemma_retreat(t, CharSet::Space, t.len() as int);
}

/// Behind an opening bracket, and the bracket that closes it, fewer
/// characters are left.
pub proof fn lemma_rest_shorter(ty: Seq<char>)
    ensures
        trim_text(ty).len() > 0 ==> match cut(
            trim_text(ty).subrange(1, trim_text(ty).len() as int),
            "]"@,
        ) {
            Some((_, rest)) => rest.len() < ty.len(),
            None => true,
        },
{
    lemma_trim_shortens(ty);
    let t = trim_text(ty);
    if t.len() > 0 {
        lemma_find_from(t.subrange(1, t.len() as int), "]"@, 0);
    }
}

/// The width in bits that a Cryptol type denotes: a `Bit`, a sequence of
/// bits `[n]`, or a sequence of a type with a width.
pub open spec fn cry_width(ty: Seq<char>) -> Option<nat>
    decreases ty.len(),
{
    let t = trim_text(ty);
    if t == "Bit"@ {
        Some(1)
    } else if !starts(t, "["@) {
        None
    } else {
        let inner = t.subrange(1, t.len() as int);
        let nested = match cut(inner, "]"@) {
            Some((n, rest)) => if t.len() > 0 && (!ends(t, "]"@) || mentions(inner, "["@)) {
                proof {
                    lemma_rest_shorter(ty);
                }
                match (parsed(trim_text(n), u32::MAX as nat), cry_width(rest)) {
                    (Some(a), Some(b)) => Some(a * b),
                    _ => None,
                }
            } else {
                None
            },
            None => None,
        };
        if nested is Some {
            nested
        } else if ends(t, "]"@) {
            parsed(trim_text(t.subrange(1, t.len() - 1)), u32::MAX as nat)
        } else {
            None
        }
    }
}

/// Is the type a sequence of another type: does its text go on behind the
/// first bracket?
pub open spec fn sequence_type(t: Seq<char>) -> bool {
    starts(t, "["@) && (!ends(t, "]"@) || mentions(t.subrange(1, t.len() as int), "["@))
}

/// Is the width a 32-bit number, and that of each type of which the type is
/// a sequence? Only a type behind a count that is a number is looked at.
pub open spec fn width_fits(ty: Seq<char>) -> bool
    decreases ty.len(),
{
    let t = trim_text(ty);
    sequence_type(t) && t.len() > 0 ==> match cut(t.subrange(1, t.len() as int), "]"@) {
        Some((n, rest)) => match parsed(trim_text(n), u32::MAX as nat) {
            Some(a) => {
                proof {
                    lemma_rest_shorter(ty);
                }
                width_fits(rest) && (cry_width(rest) matches Some(b) ==> a * b <= u32::MAX)
            },
            None => true,
        },
        None => true,
    }
}

/// White space around a type changes nothing.
proof fn lemma_width_trimmed(a: Seq<char>, b: Seq<char>)
    requires
        trim_text(a) == trim_text(b),
    ensures
        cry_width(a) == cry_width(b),
        width_fits(a) == width_fits(b),
{
}

/// A `Bit` has the width 1.
pub proof fn law_bit_width()
    ensures
        cry_width("Bit"@) == Some(1nat),
        width_fits("Bit"@),
{
    reveal_strlit("Bit");
    reveal_strlit("[");
    lemma_trimmed_is("Bit"@, CharSet::Space, 0, 3);
    assert("Bit"@.subrange(0, 3) =~= "Bit"@);
    assert("Bit"@.subrange(0, 1)[0] != "["@[0]);
}

/// The type of sequences with `n` elements of a type.
pub open spec fn sequence_text(n: nat, ty: Seq<char>) -> Seq<char> {
    "["@ + dec(n) + "]"@ + ty
}

/// The text of a sequence type without white space around it.
proof fn lemma_sequence_trimmed(n: nat, ty: Seq<char>, i: int, j: int)
    requires
        0 <= i < j <= ty.len(),
        forall|k: int| j <= k < ty.len() ==> CharSet::Space.has(#[trigger] ty[k]),
        !CharSet::Space.has(ty[j - 1]),
    ensures
        trim_text(sequence_text(n, ty)) == sequence_text(n, ty.subrange(0, j)),
{
    reveal_strlit("[");
    reveal_strlit("]");
    let whole = sequence_text(n, ty);
    let h: int = dec(n).len() as int + 2;
    assert forall|k: int| h + j <= k < whole.len() implies CharSet::Space.has(
        #[trigger] whole[k],
    ) by {
        assert(whole[k] == ty[k - h]);
    }
    assert(whole[h + j - 1] == ty[j - 1]);
    assert(whole[0] == '[');
    lemma_trimmed_is(whole, CharSet::Space, 0, h + j);
    assert(whole.subrange(0, h + j) =~= sequence_text(n, ty.subrange(0, j)));
}

/// The count of a sequence type, and what stands behind it.
proof fn lemma_sequence_cut(n: nat, rest: Seq<char>)
    ensures
        starts(sequence_text(n, rest), "["@),
        cut(
            sequence_text(n, rest).subrange(1, sequence_text(n, rest).len() as int),
            "]"@,
        ) == Some((dec(n), rest)),
{
    reveal_strlit("[");
    reveal_strlit("]");
    let d = dec(n);
    let l: int = d.len() as int;
    let t = sequence_text(n, rest);
    lemma_value_of_dec(n);
    assert(t.subrange(0, 1) =~= "["@);
    let inner = t.subrange(1, t.len() as int);
    assert(inner =~= d + "]"@ + rest);
    assert forall|k: int| 0 <= k < l implies !at(inner, "]"@, k) by {
        assert(inner[k] == d[k]);
        assert(CharSet::Digit.has(d[k]));
        assert(inner.subrange(k, k + 1)[0] == d[k]);
    }
    assert(inner.subrange(l, l + 1) =~= "]"@);
    assert(at(inner, "]"@, l));
    lemma_find_from(inner, "]"@, 0);
    assert(find(inner, "]"@) == Some(l));
    assert(inner.subrange(0, l) =~= d);
    assert(inner.subrange(l + 1, inner.len() as int) =~= rest);
}

/// What has a width makes a sequence type.
proof fn lemma_sequence_type(n: nat, rest: Seq<char>, i: int)
    requires
        0 <= i < rest.len(),
        rest[i] == '[' || rest[rest.len() - 1] != ']',
    ensures
        sequence_type(sequence_text(n, rest)),
{
    reveal_strlit("[");
    reveal_strlit("]");
    lemma_sequence_cut(n, rest);
    let t = sequence_text(n, rest);
    let inner = t.subrange(1, t.len() as int);
    if rest[i] == '[' {
        let p: int = dec(n).len() as int + 1 + i;
        assert(inner[p] == rest[i]);
        assert(inner.subrange(p, p + 1) =~= "["@);
        assert(at(inner, "["@, p));
    } else {
        let k: int = t.len() - 1;
        assert(t[k] == rest[rest.len() - 1]);
        assert(t.subrange(k, k + 1)[0] == t[k]);
    }
}

/// A sequence type has the width of its element type as many times as it
/// has elements.
pub proof fn law_sequence_width(n: nat, ty: Seq<char>)
    requires
        n <= u32::MAX,
        cry_width(ty) is Some,
    ensures
        cry_width(sequence_text(n, ty)) == Some(n * cry_width(ty)->0),
        width_fits(ty) && n * cry_width(ty)->0 <= u32::MAX ==> width_fits(sequence_text(n, ty)),
{
    let m = trim_text(ty);
    assert(m == "Bit"@ || starts(m, "["@));
    reveal_strlit("Bit");
    reveal_strlit("[");
    let (i, j) = lemma_trimmed_parts(ty, CharSet::Space);
    let rest = ty.subrange(0, j);
    lemma_trimmed_is(rest, CharSet::Space, i, j);
    assert(rest.subrange(i, j) =~= m);
    if m == "Bit"@ {
        assert(rest[j - 1] == m[2]);
    } else {
        assert(m.subrange(0, 1)[0] == m[0]);
        assert(rest[i] == m[0]);
    }
    lemma_sequence_trimmed(n, ty, i, j);
    lemma_sequence_cut(n, rest);
    lemma_sequence_type(n, rest, i);
    lemma_width_trimmed(rest, ty);
    lemma_parsed_dec(n, u32::MAX as nat);
    let t = sequence_text(n, rest);
    assert(t.subrange(0, 1)[0] == t[0]);
    assert(t != "Bit"@);
    lemma_sequence_unfolds(n, sequence_text(n, ty), rest);
}

/// The width of a sequence type, where its parts are known.
proof fn lemma_sequence_unfolds(n: nat, whole: Seq<char>, rest: Seq<char>)
    requires
        trim_text(whole) != "Bit"@,
        sequence_type(trim_text(whole)),
        cut(trim_text(whole).subrange(1, trim_text(whole).len() as int), "]"@) == Some(
            (dec(n), rest),
        ),
        parsed(trim_text(dec(n)), u32::MAX as nat) == Some(n),
        cry_width(rest) is Some,
    ensures
        cry_width(whole) == Some(n * cry_width(rest)->0),
        width_fits(rest) && n * cry_width(rest)->0 <= u32::MAX ==> width_fits(whole),
{
    reveal_strlit("[");
    lemma_rest_shorter(whole);
}

/// The width in bits that a Cryptol type denotes.
pub fn parse_cry_width(ty: &str) -> (r: Option<u32>)
    requires
        width_fits(ty@),
    ensures
        match r {
            Some(n) => cry_width(ty@) == Some(n as nat),
            None => cry_width(ty@) is None,
        },
    decreases ty@.len(),
{
    let t = trim(ty);
    if same(t, "Bit") {
        return Some(1);
    }
    if !starts_with(t, "[") {
        return None;
    }
    proof {
        reveal_strlit("[");
        reveal_strlit("]");
        lemma_rest_shorter(ty@);
    }
    let n: usize = t.unicode_len();
    let inner = t.substring_char(1, n);
    let closed = ends_with(t, "]");
    if let Some((count, rest)) = split_once(inner, "]") {
        if !closed || contains(inner, "[") {
            if let Some(a) = parse_bounded(trim(count), u32::MAX as u64) {
                if let Some(b) = parse_cry_width(rest) {
                    proof {
                        let x: nat = a as nat;
                        let y: nat = b as nat;
                        assert(cry_width(ty@) == Some(x * y));
                        assert(x * y <= u32::MAX);
                        assert(0 <= x * y) by (nonlinear_arith);
                    }
                    let w: u64 = a * b as u64;
                    return Some(w as u32);
                }
            }
        }
    }
    if closed {
        if n < 2 {
            assert(t@ =~= "["@);
            assert(t@[0] == ']');
            return None;
        }
        let bits = t.substring_char(1, n - 1);
        return match parse_bounded(trim(bits), u32::MAX as u64) {
            Some(w) => Some(w as u32),
            None => None,
        };
    }
    None
}

/// The pieces before the last one.
pub open spec fn param_types(sig: Seq<char>) -> Seq<Seq<char>> {
    let pieces = signature_pieces(sig);
    if pieces.len() <= 1 {
        Seq::empty()
    } else {
        pieces.drop_last()
    }
}

/// Does every one of the first `n` types have a width?
pub open spec fn widths_known(types: Seq<Seq<char>>, n: int) -> bool {
    forall|i: int| 0 <= i < n ==> cry_width(trim_text(#[trigger] types[i])) is Some
}

/// Are the widths of the parameters of a function 32-bit numbers, up to the
/// first parameter without a width?
pub open spec fn widths_fit(text: Seq<char>, fn_name: Seq<char>) -> bool {
    signature(text, fn_name) is Some ==> {
        let types = param_types(signature(text, fn_name)->0);
        forall|i: int|
            0 <= i < types.len() && widths_known(types, i) ==> width_fits(
                trim_text(#[trigger] types[i]),
            )
    }
}

/// The widths of the parameters of a Cryptol function. `None` where the
/// text holds no signature of it, or where a parameter has no width.
pub fn cryptol_param_widths_from_str(text: &str, fn_name: &str) -> (r: Option<Vec<u32>>)
    requires
        widths_fit(text@, fn_name@),
    ensures
        match signature(text@, fn_name@) {
            Some(sig) => {
                let types = param_types(sig);
                match r {
                    Some(w) => w@.len() == types.len() && forall|i: int|
                        0 <= i < w@.len() ==> cry_width(trim_text(types[i])) == Some(
                            #[trigger] w@[i] as nat,
                        ),
                    None => !widths_known(types, types.len() as int),
                }
            },
            None => r is None,
        },
{
    match collect_signature(text, fn_name) {
        Some(sig) => {
            let parts = split_top_level_arrows(sig.as_str());
            let ghost types = param_types(sig@);
            let mut widths: Vec<u32> = Vec::new();
            if parts.len() <= 1 {
                return Some(widths);
            }
            let n: usize = parts.len() - 1;
            let mut i: usize = 0;
            while i < n
                invariant
                    signature(text@, fn_name@) == Some(sig@),
                    views(parts@) == signature_pieces(sig@),
                    n == parts@.len() - 1,
                    n > 0,
                    types == param_types(sig@),
                    forall|k: int|
                        0 <= k < types.len() && widths_known(types, k) ==> width_fits(
                            trim_text(#[trigger] types[k]),
                        ),
                    i <= n,
                    widths@.len() == i,
                    forall|k: int|
                        0 <= k < i ==> cry_width(trim_text(types[k])) == Some(
                            #[trigger] widths@[k] as nat,
                        ),
                decreases n - i,
            {
                assert(types[i as int] == parts@[i as int]@);
                assert forall|k: int| 0 <= k < i implies cry_width(
                    trim_text(#[trigger] types[k]),
                ) is Some by {
                    assert(cry_width(trim_text(types[k])) == Some(widths@[k] as nat));
                }
                match parse_cry_width(trim(parts[i].as_str())) {
                    Some(w) => {
                        widths.push(w);
                    },
                    None => {
                        assert(cry_width(trim_text(types[i as int])) is None);
                        return None;
                    },
                }
                i += 1;
            }
            Some(widths)
        },
        None => None,
    }
}

/// The number of bytes of the last parameter of a signature, where it is a
/// sequence of bytes.
pub open spec fn prestate_bytes(sig: Seq<char>) -> Option<nat> {
    let pieces = signature_pieces(sig);
    if pieces.len() < 2 {
        None
    } else {
        let last = trim_text(pieces[pieces.len() - 2]);
        if starts(last, "["@) && ends(last, "[8]"@) {
            match cut(last.subrange(1, last.len() as int), "]"@) {
                Some((n, _)) => parsed(n, usize::MAX as nat),
                None => None,
            }
        } else {
            None
        }
    }
}

/// The number of bytes of the last parameter of a Cryptol function, where
/// it is a sequence of bytes.
pub fn cryptol_prestate_byte_width(text: &str, fn_name: &str) -> (r: Option<usize>)
    ensures
        match signature(text@, fn_name@) {
            Some(sig) => match r {
                Some(n) => prestate_bytes(sig) == Some(n as nat),
                None => prestate_bytes(sig) is None,
            },
            None => r is None,
        },
{
    match collect_signature(text, fn_name) {
        Some(sig) => {
            let parts = split_top_level_arrows(sig.as_str());
            if parts.len() < 2 {
                return None;
            }
            let last = trim(parts[parts.len() - 2].as_str());
            if starts_with(last, "[") && ends_with(last, "[8]") {
                proof {
                    reveal_strlit("[");
                }
                let inner = last.substring_char(1, last.unicode_len());
                if let Some((n, _)) = split_once(inner, "]") {
                    return match parse_bounded(n, usize::MAX as u64) {
                        Some(w) => Some(w as usize),
                        None => None,
                    };
                }
            }
            None
        },
        None => None,
    }
}

/// Does the model take the result buffer as it was before the call: the
/// result is returned through a buffer, and the Cryptol function has one
/// parameter more?
pub open spec fn takes_prestate(
    is_sret: bool,
    params: nat,
    text: Seq<char>,
    fn_name: Seq<char>,
) -> bool {
    is_sret && arity(text, fn_name) == Some((params + 1) as nat)
}

/// Marks a specification whose model takes the result buffer as it was
/// before the call. `text` is the text of the Cryptol model.
pub fn detect_sret_prestate(target_spec: &mut SpecConstraint, text: &str, cryptol_fn: &str)
    ensures
        *final(target_spec) == (SpecConstraint {
            return_constraint: ReturnConstraint {
                sret_prestate: old(target_spec).return_constraint.sret_prestate || takes_prestate(
                    old(target_spec).return_constraint.is_sret,
                    old(target_spec).params@.len(),
                    text@,
                    cryptol_fn@,
                ),
                ..old(target_spec).return_constraint
            },
            ..*old(target_spec)
        }),
{
    if !target_spec.return_constraint.is_sret {
        return;
    }
    let params: usize = target_spec.params.len();
    if let Some(n) = cryptol_arity_from_str(text, cryptol_fn) {
        if n > 0 && n - 1 == params {
            target_spec.return_constraint.sret_prestate = true;
        }
    }
}

} // verus!
