//! Texts that occur in a text one behind the other.

use vstd::prelude::*;

use crate::text::{at, group_append, joined, lemma_append_nothing, lemma_joined_push, nil};

verus! {

/// Do the texts of the list occur at the given places, one behind the other?
pub open spec fn placed(s: Seq<char>, v: Seq<Seq<char>>, places: Seq<int>) -> bool {
    &&& places.len() == v.len()
    &&& forall|i: int| 0 <= i < v.len() ==> at(s, #[trigger] v[i], places[i])
    &&& forall|i: int, j: int|
        #![trigger places[i], places[j]]
        0 <= i < j < v.len() ==> places[i] + v[i].len() <= places[j]
}

/// Do the texts of the list occur in `s`, one behind the other, in the
/// order of the list?
#[verifier::opaque]
pub open spec fn in_order(s: Seq<char>, v: Seq<Seq<char>>) -> bool {
    exists|places: Seq<int>| placed(s, v, places)
}

/// What stands within a text occurs in it.
pub proof fn lemma_one_in_order(a: Seq<char>, p: Seq<char>, b: Seq<char>)
    ensures
        in_order(a + p + b, seq![p]),
{
    reveal(in_order);
    let s = a + p + b;
    let k: int = a.len() as int;
    assert(s.subrange(k, k + p.len()) =~= p);
    assert(placed(s, seq![p], seq![k]));
}

/// A text occurs in itself.
pub proof fn lemma_self_in_order(p: Seq<char>)
    ensures
        in_order(p, seq![p]),
{
    lemma_one_in_order(nil(), p, nil());
    assert(nil() + p + nil() =~= p);
}

/// A text that holds nothing of interest.
pub proof fn lemma_none_in_order(s: Seq<char>)
    ensures
        in_order(s, Seq::<Seq<char>>::empty()),
{
    reveal(in_order);
    assert(placed(s, Seq::<Seq<char>>::empty(), Seq::<int>::empty()));
}

/// What occurs in two texts occurs in the one followed by the other.
pub proof fn lemma_in_order_join(
    s: Seq<char>,
    v: Seq<Seq<char>>,
    t: Seq<char>,
    w: Seq<Seq<char>>,
)
    requires
        in_order(s, v),
        in_order(t, w),
    ensures
        in_order(s + t, v + w),
{
    reveal(in_order);
    let p = choose|p: Seq<int>| placed(s, v, p);
    let q = choose|q: Seq<int>| placed(t, w, q);
    let n: int = s.len() as int;
    let all = p + Seq::new(q.len(), |i: int| q[i] + n);
    let u = v + w;
    let x = s + t;
    assert forall|i: int| 0 <= i < u.len() implies at(x, #[trigger] u[i], all[i]) by {
        if i < v.len() {
            assert(at(s, v[i], p[i]));
            assert(x.subrange(p[i], p[i] + v[i].len()) =~= s.subrange(p[i], p[i] + v[i].len()));
        } else {
            let k = i - v.len();
            assert(at(t, w[k], q[k]));
            assert(x.subrange(q[k] + n, q[k] + n + w[k].len()) =~= t.subrange(
                q[k],
                q[k] + w[k].len(),
            ));
        }
    }
    assert forall|i: int, j: int|
        #![trigger all[i], all[j]]
        0 <= i < j < u.len() implies all[i] + u[i].len() <= all[j] by {
        if j < v.len() {
            assert(p[i] + v[i].len() <= p[j]);
        } else if i < v.len() {
            assert(at(s, v[i], p[i]));
            assert(at(t, w[j - v.len()], q[j - v.len()]));
        } else {
            assert(q[i - v.len()] + w[i - v.len()].len() <= q[j - v.len()]);
        }
    }
    assert(placed(x, u, all));
}

/// What occurs in a part of a text occurs in the text.
pub proof fn lemma_in_order_more(a: Seq<char>, s: Seq<char>, b: Seq<char>, v: Seq<Seq<char>>)
    requires
        in_order(s, v),
    ensures
        in_order(a + s + b, v),
{
    lemma_none_in_order(a);
    lemma_none_in_order(b);
    lemma_in_order_join(a, Seq::empty(), s, v);
    lemma_in_order_join(a + s, Seq::<Seq<char>>::empty() + v, b, Seq::empty());
    assert(Seq::<Seq<char>>::empty() + v + Seq::<Seq<char>>::empty() =~= v);
}

/// Texts that occur in order still do without the first ones.
pub proof fn lemma_in_order_later(s: Seq<char>, v: Seq<Seq<char>>, n: int)
    requires
        in_order(s, v),
        0 <= n <= v.len(),
    ensures
        in_order(s, v.skip(n)),
{
    reveal(in_order);
    let places = choose|places: Seq<int>| placed(s, v, places);
    assert(placed(s, v.skip(n), places.skip(n)));
}

/// Texts that occur in order still do without the last ones.
pub proof fn lemma_in_order_first(s: Seq<char>, v: Seq<Seq<char>>, w: Seq<Seq<char>>)
    requires
        in_order(s, v + w),
    ensures
        in_order(s, v),
{
    reveal(in_order);
    let places = choose|places: Seq<int>| placed(s, v + w, places);
    let first = places.take(v.len() as int);
    assert forall|i: int| 0 <= i < v.len() implies at(s, #[trigger] v[i], first[i]) by {
        assert((v + w)[i] == v[i]);
    }
    assert forall|i: int, j: int|
        #![trigger first[i], first[j]]
        0 <= i < j < v.len() implies first[i] + v[i].len() <= first[j] by {
        assert((v + w)[i] == v[i]);
        assert(places[i] == first[i] && places[j] == first[j]);
    }
    assert(placed(s, v, first));
}

/// More text behind changes nothing.
pub broadcast proof fn lemma_in_order_behind(s: Seq<char>, b: Seq<char>, v: Seq<Seq<char>>)
    requires
        in_order(s, v),
    ensures
        #[trigger] in_order(s + b, v),
{
    lemma_in_order_more(nil(), s, b, v);
    assert(nil() + s =~= s);
}

/// More text ahead changes nothing.
pub broadcast proof fn lemma_in_order_ahead(a: Seq<char>, s: Seq<char>, v: Seq<Seq<char>>)
    requires
        in_order(s, v),
    ensures
        #[trigger] in_order(a + s, v),
{
    lemma_in_order_more(a, s, nil(), v);
    assert(a + s + nil() =~= a + s);
}

pub broadcast group group_order {
    lemma_in_order_behind,
    lemma_in_order_ahead,
}

/// Two texts that follow one another are in order.
pub proof fn lemma_two_in_order(
    a: Seq<char>,
    p: Seq<char>,
    b: Seq<char>,
    q: Seq<char>,
    c: Seq<char>,
)
    ensures
        in_order(a + p + b + q + c, seq![p, q]),
{
    lemma_one_in_order(a, p, b);
    lemma_one_in_order(nil(), q, c);
    lemma_in_order_join(a + p + b, seq![p], nil() + q + c, seq![q]);
    assert(seq![p] + seq![q] =~= seq![p, q]);
    assert(a + p + b + (nil() + q + c) =~= a + p + b + q + c);
}

/// Three texts that stand one behind the other, with whatever else between them.
pub proof fn lemma_three_in_order(
    a0: Seq<char>,
    p1: Seq<char>,
    a1: Seq<char>,
    p2: Seq<char>,
    a2: Seq<char>,
    p3: Seq<char>,
    a3: Seq<char>,
)
    ensures
        in_order(a0 + p1 + a1 + p2 + a2 + p3 + a3, seq![p1, p2, p3]),
{
    broadcast use group_append;

    let s = a0 + p1 + a1 + p2 + nil();
    let t = a2 + p3 + a3;
    lemma_two_in_order(a0, p1, a1, p2, nil());
    lemma_one_in_order(a2, p3, a3);
    lemma_in_order_join(s, seq![p1, p2], t, seq![p3]);
    assert(seq![p1, p2] + seq![p3] =~= seq![p1, p2, p3]);
    assert(s + t == a0 + p1 + a1 + p2 + a2 + p3 + a3);
}

/// Four texts that stand one behind the other, with whatever else between them.
pub proof fn lemma_four_in_order(
    a0: Seq<char>,
    p1: Seq<char>,
    a1: Seq<char>,
    p2: Seq<char>,
    a2: Seq<char>,
    p3: Seq<char>,
    a3: Seq<char>,
    p4: Seq<char>,
    a4: Seq<char>,
)
    ensures
        in_order(a0 + p1 + a1 + p2 + a2 + p3 + a3 + p4 + a4, seq![p1, p2, p3, p4]),
{
    broadcast use group_append;

    let s = a0 + p1 + a1 + p2 + a2 + p3 + nil();
    let t = a3 + p4 + a4;
    lemma_three_in_order(a0, p1, a1, p2, a2, p3, nil());
    lemma_one_in_order(a3, p4, a4);
    lemma_in_order_join(s, seq![p1, p2, p3], t, seq![p4]);
    assert(seq![p1, p2, p3] + seq![p4] =~= seq![p1, p2, p3, p4]);
    assert(s + t == a0 + p1 + a1 + p2 + a2 + p3 + a3 + p4 + a4);
}

/// Five texts that stand one behind the other, with whatever else between them.
pub proof fn lemma_five_in_order(
    a0: Seq<char>,
    p1: Seq<char>,
    a1: Seq<char>,
    p2: Seq<char>,
    a2: Seq<char>,
    p3: Seq<char>,
    a3: Seq<char>,
    p4: Seq<char>,
    a4: Seq<char>,
    p5: Seq<char>,
    a5: Seq<char>,
)
    ensures
        in_order(a0 + p1 + a1 + p2 + a2 + p3 + a3 + p4 + a4 + p5 + a5, seq![p1, p2, p3, p4, p5]),
{
    broadcast use group_append;

    let s = a0 + p1 + a1 + p2 + a2 + p3 + a3 + p4 + nil();
    let t = a4 + p5 + a5;
    lemma_four_in_order(a0, p1, a1, p2, a2, p3, a3, p4, nil());
    lemma_one_in_order(a4, p5, a5);
    lemma_in_order_join(s, seq![p1, p2, p3, p4], t, seq![p5]);
    assert(seq![p1, p2, p3, p4] + seq![p5] =~= seq![p1, p2, p3, p4, p5]);
    assert(s + t == a0 + p1 + a1 + p2 + a2 + p3 + a3 + p4 + a4 + p5 + a5);
}

/// Six texts that stand one behind the other, with whatever else between them.
pub proof fn lemma_six_in_order(
    a0: Seq<char>,
    p1: Seq<char>,
    a1: Seq<char>,
    p2: Seq<char>,
    a2: Seq<char>,
    p3: Seq<char>,
    a3: Seq<char>,
    p4: Seq<char>,
    a4: Seq<char>,
    p5: Seq<char>,
    a5: Seq<char>,
    p6: Seq<char>,
    a6: Seq<char>,
)
    ensures
        in_order(a0 + p1 + a1 + p2 + a2 + p3 + a3 + p4 + a4 + p5 + a5 + p6 + a6, seq![p1, p2, p3, p4, p5, p6]),
{
    broadcast use group_append;

    let s = a0 + p1 + a1 + p2 + a2 + p3 + a3 + p4 + a4 + p5 + nil();
    let t = a5 + p6 + a6;
    lemma_five_in_order(a0, p1, a1, p2, a2, p3, a3, p4, a4, p5, nil());
    lemma_one_in_order(a5, p6, a6);
    lemma_in_order_join(s, seq![p1, p2, p3, p4, p5], t, seq![p6]);
    assert(seq![p1, p2, p3, p4, p5] + seq![p6] =~= seq![p1, p2, p3, p4, p5, p6]);
    assert(s + t == a0 + p1 + a1 + p2 + a2 + p3 + a3 + p4 + a4 + p5 + a5 + p6 + a6);
}

/// Texts that stand one behind the other without anything between them
/// occur in this order.
pub proof fn lemma_joined_in_order(v: Seq<Seq<char>>)
    ensures
        in_order(joined(v, nil()), v),
    decreases v.len(),
{
    reveal(in_order);
    if v.len() == 0 {
        lemma_none_in_order(nil());
        assert(v =~= Seq::empty());
    } else {
        let rest = v.drop_last();
        lemma_joined_in_order(rest);
        lemma_self_in_order(v.last());
        lemma_in_order_join(joined(rest, nil()), rest, v.last(), seq![v.last()]);
        lemma_joined_push(rest, nil(), v.last());
        assert(rest.push(v.last()) =~= v);
        assert(rest + seq![v.last()] =~= v);
        if rest.len() == 0 {
            assert(joined(rest, nil()) + v.last() =~= v.last());
        } else {
            assert(joined(rest, nil()) + nil() + v.last() =~= joined(rest, nil()) + v.last());
        }
    }
}

/// Lists of two and of three, taken apart.
pub proof fn lemma_lists(v: Seq<Seq<char>>, p: Seq<char>, q: Seq<char>, r: Seq<char>)
    ensures
        v + (seq![p] + seq![q]) == v + seq![p, q],
        v + seq![p] + seq![q] == v + seq![p, q],
        v + seq![p] + Seq::<Seq<char>>::empty() == v + seq![p],
        v + (seq![p] + Seq::<Seq<char>>::empty()) == v + seq![p],
        v + (seq![p] + seq![q, r]) == v + seq![p, q, r],
{
    assert(v + (seq![p] + seq![q]) =~= v + seq![p, q]);
    assert(v + seq![p] + seq![q] =~= v + seq![p, q]);
    assert(v + seq![p] + Seq::<Seq<char>>::empty() =~= v + seq![p]);
    assert(v + (seq![p] + Seq::<Seq<char>>::empty()) =~= v + seq![p]);
    assert(v + (seq![p] + seq![q, r]) =~= v + seq![p, q, r]);
}

/// A list of two texts, taken apart anywhere.
pub proof fn lemma_list_of_two(a: Seq<char>, b: Seq<char>)
    ensures
        seq![a] + seq![b] == seq![a, b],
{
    assert(seq![a] + seq![b] =~= seq![a, b]);
}

/// A list of three texts, taken apart anywhere.
pub proof fn lemma_list_of_three(a: Seq<char>, b: Seq<char>, c: Seq<char>)
    ensures
        seq![a] + seq![b, c] == seq![a, b, c],
        seq![a, b] + seq![c] == seq![a, b, c],
{
    assert(seq![a] + seq![b, c] =~= seq![a, b, c]);
    assert(seq![a, b] + seq![c] =~= seq![a, b, c]);
}

/// A list of four texts, taken apart anywhere.
pub proof fn lemma_list_of_four(a: Seq<char>, b: Seq<char>, c: Seq<char>, d: Seq<char>)
    ensures
        seq![a] + seq![b, c, d] == seq![a, b, c, d],
        seq![a, b] + seq![c, d] == seq![a, b, c, d],
        seq![a, b, c] + seq![d] == seq![a, b, c, d],
{
    assert(seq![a] + seq![b, c, d] =~= seq![a, b, c, d]);
    assert(seq![a, b] + seq![c, d] =~= seq![a, b, c, d]);
    assert(seq![a, b, c] + seq![d] =~= seq![a, b, c, d]);
}

/// A list of five texts, taken apart anywhere.
pub proof fn lemma_list_of_five(a: Seq<char>, b: Seq<char>, c: Seq<char>, d: Seq<char>, e: Seq<char>)
    ensures
        seq![a] + seq![b, c, d, e] == seq![a, b, c, d, e],
        seq![a, b] + seq![c, d, e] == seq![a, b, c, d, e],
        seq![a, b, c] + seq![d, e] == seq![a, b, c, d, e],
        seq![a, b, c, d] + seq![e] == seq![a, b, c, d, e],
{
    assert(seq![a] + seq![b, c, d, e] =~= seq![a, b, c, d, e]);
    assert(seq![a, b] + seq![c, d, e] =~= seq![a, b, c, d, e]);
    assert(seq![a, b, c] + seq![d, e] =~= seq![a, b, c, d, e]);
    assert(seq![a, b, c, d] + seq![e] =~= seq![a, b, c, d, e]);
}

/// A list of six texts, taken apart anywhere.
pub proof fn lemma_list_of_six(a: Seq<char>, b: Seq<char>, c: Seq<char>, d: Seq<char>, e: Seq<char>, f: Seq<char>)
    ensures
        seq![a] + seq![b, c, d, e, f] == seq![a, b, c, d, e, f],
        seq![a, b] + seq![c, d, e, f] == seq![a, b, c, d, e, f],
        seq![a, b, c] + seq![d, e, f] == seq![a, b, c, d, e, f],
        seq![a, b, c, d] + seq![e, f] == seq![a, b, c, d, e, f],
        seq![a, b, c, d, e] + seq![f] == seq![a, b, c, d, e, f],
{
    assert(seq![a] + seq![b, c, d, e, f] =~= seq![a, b, c, d, e, f]);
    assert(seq![a, b] + seq![c, d, e, f] =~= seq![a, b, c, d, e, f]);
    assert(seq![a, b, c] + seq![d, e, f] =~= seq![a, b, c, d, e, f]);
    assert(seq![a, b, c, d] + seq![e, f] =~= seq![a, b, c, d, e, f]);
    assert(seq![a, b, c, d, e] + seq![f] =~= seq![a, b, c, d, e, f]);
}

/// Each text of a list stands in the list as it is joined.
pub proof fn lemma_joined_has(v: Seq<Seq<char>>, sep: Seq<char>, k: int)
    requires
        0 <= k < v.len(),
    ensures
        in_order(joined(v, sep), seq![v[k]]),
    decreases v.len(),
{
    let rest = v.drop_last();
    assert(v =~= rest.push(v.last()));
    lemma_joined_push(rest, sep, v.last());
    lemma_self_in_order(v.last());
    if k == v.len() - 1 {
        if rest.len() > 0 {
            lemma_in_order_ahead(joined(rest, sep) + sep, v.last(), seq![v[k]]);
        }
    } else {
        lemma_joined_has(rest, sep, k);
        lemma_in_order_behind(joined(rest, sep), sep, seq![v[k]]);
        lemma_in_order_behind(joined(rest, sep) + sep, v.last(), seq![v[k]]);
    }
}

/// One text or three before another, and nothing behind it.
pub proof fn lemma_lines_before(v: Seq<Seq<char>>, call: Seq<char>)
    ensures
        v.len() == 1 ==> v + seq![call] + Seq::<Seq<char>>::empty() == seq![v[0], call],
        v.len() == 3 ==> v + seq![call] + Seq::<Seq<char>>::empty() == seq![v[0], v[1], v[2], call],
        v.len() == 1 ==> v + seq![call] == seq![v[0], call],
        v.len() == 2 ==> v + seq![call] == seq![v[0], v[1], call],
        v.len() == 3 ==> v + seq![call] == seq![v[0], v[1], v[2], call],
{
    let r = v + seq![call] + Seq::<Seq<char>>::empty();
    lemma_append_nothing(v + seq![call]);
    if v.len() == 2 {
        assert(r =~= seq![v[0], v[1], call]);
    }
    if v.len() == 1 {
        assert(r =~= seq![v[0], call]);
    }
    if v.len() == 3 {
        assert(r =~= seq![v[0], v[1], v[2], call]);
    }
}

/// Three texts before another, of which the first is left out, and one or two
/// behind it.
pub proof fn lemma_lines_around(v: Seq<Seq<char>>, call: Seq<char>, w: Seq<Seq<char>>)
    requires
        v.len() == 3,
    ensures
        w.len() == 1 ==> (v + seq![call] + w).skip(1) == seq![v[1], v[2], call, w[0]],
        w.len() == 2 ==> (v + seq![call] + w).skip(1) == seq![v[1], v[2], call, w[0], w[1]],
{
    let r = (v + seq![call] + w).skip(1);
    if w.len() == 1 {
        assert(r =~= seq![v[1], v[2], call, w[0]]);
    }
    if w.len() == 2 {
        assert(r =~= seq![v[1], v[2], call, w[0], w[1]]);
    }
}

} // verus!
