//! The order of texts by their characters.

use vstd::prelude::*;

use crate::text::to_chars;

verus! {

/// Does `a`, compared with `b` from position `i` on, come first?
pub open spec fn before_from(a: Seq<char>, b: Seq<char>, i: int) -> bool
    decreases b.len() - i,
{
    if i < 0 || i >= b.len() {
        false
    } else if i >= a.len() {
        true
    } else if a[i] != b[i] {
        a[i] < b[i]
    } else {
        before_from(a, b, i + 1)
    }
}

/// Does `a` come before `b`?
pub open spec fn before(a: Seq<char>, b: Seq<char>) -> bool {
    before_from(a, b, 0)
}

/// Both texts agree up to position `i`.
spec fn agree(a: Seq<char>, b: Seq<char>, i: int) -> bool {
    i <= a.len() && i <= b.len() && forall|k: int| 0 <= k < i ==> a[k] == b[k]
}

proof fn lemma_trans_from(a: Seq<char>, b: Seq<char>, c: Seq<char>, i: int)
    requires
        0 <= i,
        before_from(a, b, i),
        before_from(b, c, i),
    ensures
        before_from(a, c, i),
    decreases c.len() - i,
{
    if i < a.len() && a[i] == b[i] && b[i] == c[i] {
        lemma_trans_from(a, b, c, i + 1);
    }
}

/// The order is transitive.
pub proof fn lemma_before_trans(a: Seq<char>, b: Seq<char>, c: Seq<char>)
    requires
        before(a, b),
        before(b, c),
    ensures
        before(a, c),
{
    lemma_trans_from(a, b, c, 0);
}

proof fn lemma_total_from(a: Seq<char>, b: Seq<char>, i: int)
    requires
        0 <= i,
        agree(a, b, i),
    ensures
        before_from(a, b, i) || before_from(b, a, i) || a == b,
        !(before_from(a, b, i) && before_from(b, a, i)),
        a == b ==> !before_from(a, b, i),
    decreases b.len() - i,
{
    if i < a.len() && i < b.len() {
        if a[i] == b[i] {
            lemma_total_from(a, b, i + 1);
        }
    } else if i == a.len() && i == b.len() {
        assert(a =~= b);
    }
}

/// Of two texts exactly one comes first, unless they are equal.
pub proof fn lemma_before_total(a: Seq<char>, b: Seq<char>)
    ensures
        before(a, b) || before(b, a) || a == b,
        !(before(a, b) && before(b, a)),
        a == b ==> !before(a, b),
{
    lemma_total_from(a, b, 0);
}

/// Does `a` come before `b`?
pub fn comes_before(a: &str, b: &str) -> (r: bool)
    ensures
        r == before(a@, b@),
{
    let x = to_chars(a);
    let y = to_chars(b);
    let mut i: usize = 0;
    while i < y.len()
        invariant
            x@ == a@,
            y@ == b@,
            i <= y@.len(),
            before(a@, b@) == before_from(a@, b@, i as int),
        decreases y@.len() - i,
    {
        if i >= x.len() {
            return true;
        }
        if x[i] != y[i] {
            return x[i] < y[i];
        }
        i += 1;
    }
    false
}

} // verus!
