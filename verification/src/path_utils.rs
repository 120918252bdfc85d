//! Paths relative to a directory.
//!
//! A path is given by its components; the component `/` is the root.

use vstd::prelude::*;

use crate::text::{
    group_append, group_views, joined, owned, put, put_joined, replace, replaced, same, views,
};

verus! {

/// The number of leading components that both paths share.
pub open spec fn common(a: Seq<Seq<char>>, b: Seq<Seq<char>>, i: int) -> int
    decreases a.len() - i,
{
    if i < 0 || i >= a.len() || i >= b.len() || a[i] != b[i] {
        i
    } else {
        common(a, b, i + 1)
    }
}

/// The path one component further: a root begins it anew.
pub open spec fn step(path: Seq<Seq<char>>, component: Seq<char>) -> Seq<Seq<char>> {
    if component == "/"@ {
        seq![component]
    } else {
        path.push(component)
    }
}

/// The path followed by the components of another one.
pub open spec fn walk(path: Seq<Seq<char>>, components: Seq<Seq<char>>) -> Seq<Seq<char>>
    decreases components.len(),
{
    if components.len() == 0 {
        path
    } else {
        step(walk(path, components.drop_last()), components.last())
    }
}

/// The parent directory, `n` times.
pub open spec fn ups(n: int) -> Seq<Seq<char>> {
    Seq::new(
        (if n < 0 {
            0
        } else {
            n
        }) as nat,
        |i: int| ".."@,
    )
}

/// The path from `base` to `path`: out of what `base` does not share, and
/// into what `path` does not share.
pub open spec fn relative(path: Seq<Seq<char>>, base: Seq<Seq<char>>) -> Seq<Seq<char>> {
    let k = common(path, base, 0);
    walk(ups(base.len() - k), path.subrange(k, path.len() as int))
}

proof fn lemma_common(a: Seq<Seq<char>>, b: Seq<Seq<char>>, i: int)
    requires
        0 <= i <= a.len(),
        i <= b.len(),
    ensures
        i <= common(a, b, i) <= a.len(),
        common(a, b, i) <= b.len(),
        forall|k: int| i <= k < common(a, b, i) ==> a[k] == b[k],
    decreases a.len() - i,
{
    if i < a.len() && i < b.len() && a[i] == b[i] {
        lemma_common(a, b, i + 1);
    }
}

/// Where a path leads from a directory: `..` goes back to the parent, a root
/// begins anew.
pub open spec fn follow(dir: Seq<Seq<char>>, path: Seq<Seq<char>>) -> Seq<Seq<char>>
    decreases path.len(),
{
    if path.len() == 0 {
        dir
    } else {
        let at = follow(dir, path.drop_last());
        if path.last() == ".."@ && at.len() > 0 {
            at.drop_last()
        } else {
            step(at, path.last())
        }
    }
}

/// Is the path absolute, with no way back in it?
pub open spec fn canonical(path: Seq<Seq<char>>) -> bool {
    &&& path.len() > 0
    &&& path[0] == "/"@
    &&& forall|i: int| 1 <= i < path.len() ==> #[trigger] path[i] != "/"@ && path[i] != ".."@
}

proof fn lemma_walk(path: Seq<Seq<char>>, components: Seq<Seq<char>>)
    requires
        forall|i: int| 0 <= i < components.len() ==> #[trigger] components[i] != "/"@,
    ensures
        walk(path, components) == path + components,
    decreases components.len(),
{
    if components.len() > 0 {
        lemma_walk(path, components.drop_last());
        assert(path + components =~= (path + components.drop_last()).push(components.last()));
    } else {
        assert(path + components =~= path);
    }
}

proof fn lemma_follow_ups(dir: Seq<Seq<char>>, n: int)
    requires
        0 <= n <= dir.len(),
    ensures
        follow(dir, ups(n)) == dir.take(dir.len() - n),
    decreases n,
{
    if n > 0 {
        lemma_follow_ups(dir, n - 1);
        assert(ups(n).drop_last() =~= ups(n - 1));
        assert(dir.take(dir.len() - (n - 1)).drop_last() =~= dir.take(dir.len() - n));
    } else {
        assert(dir.take(dir.len() as int) =~= dir);
    }
}

proof fn lemma_follow_down(dir: Seq<Seq<char>>, up: Seq<Seq<char>>, down: Seq<Seq<char>>)
    requires
        forall|i: int|
            0 <= i < down.len() ==> #[trigger] down[i] != "/"@ && down[i] != ".."@,
    ensures
        follow(dir, up + down) == follow(dir, up) + down,
    decreases down.len(),
{
    if down.len() > 0 {
        lemma_follow_down(dir, up, down.drop_last());
        assert((up + down).drop_last() =~= up + down.drop_last());
        assert((up + down).last() == down[down.len() - 1]);
        assert(follow(dir, up) + down =~= (follow(dir, up) + down.drop_last()).push(down.last()));
    } else {
        assert(up + down =~= up);
        assert(follow(dir, up) + down =~= follow(dir, up));
    }
}

/// A relative path leads from its base to its target.
pub proof fn law_relative_leads_to_target(path: Seq<Seq<char>>, base: Seq<Seq<char>>)
    requires
        canonical(path),
        canonical(base),
    ensures
        follow(base, relative(path, base)) == path,
{
    lemma_common(path, base, 0);
    let k = common(path, base, 0);
    assert(k == common(path, base, 1));
    lemma_common(path, base, 1);
    let down = path.subrange(k, path.len() as int);
    lemma_walk(ups(base.len() - k), down);
    lemma_follow_ups(base, base.len() - k);
    lemma_follow_down(base, ups(base.len() - k), down);
    assert(base.take(k) + down =~= path);
}

/// A path relative to itself is empty.
pub proof fn law_relative_to_itself(path: Seq<Seq<char>>)
    ensures
        relative(path, path) == Seq::<Seq<char>>::empty(),
{
    lemma_common_all(path, 0);
    assert(path.subrange(path.len() as int, path.len() as int) =~= Seq::<Seq<char>>::empty());
    assert(ups(0) =~= Seq::<Seq<char>>::empty());
}

proof fn lemma_common_all(path: Seq<Seq<char>>, i: int)
    requires
        0 <= i <= path.len(),
    ensures
        common(path, path, i) == path.len(),
    decreases path.len() - i,
{
    if i < path.len() {
        lemma_common_all(path, i + 1);
    }
}

/// The path from `base` to `path`; `None` where either is empty.
pub fn pathdiff(path: &Vec<String>, base: &Vec<String>) -> (r: Option<Vec<String>>)
    ensures
        match r {
            Some(v) => path@.len() > 0 && base@.len() > 0 && views(v@) == relative(
                views(path@),
                views(base@),
            ),
            None => path@.len() == 0 || base@.len() == 0,
        },
{
    if path.len() == 0 || base.len() == 0 {
        return None;
    }
    let ghost p = views(path@);
    let ghost b = views(base@);
    let mut k: usize = 0;
    while k < path.len() && k < base.len() && same(path[k].as_str(), base[k].as_str())
        invariant
            p == views(path@),
            b == views(base@),
            k <= path@.len(),
            k <= base@.len(),
            common(p, b, 0) == common(p, b, k as int),
        decreases path@.len() - k,
    {
        k += 1;
    }
    let mut r: Vec<String> = Vec::new();
    let mut i: usize = k;
    while i < base.len()
        invariant
            k <= i <= base@.len(),
            views(r@) == ups(i - k),
        decreases base@.len() - i,
    {
        r.push(owned(".."));
        assert(ups(i - k + 1) =~= ups(i - k).push(".."@));
        i += 1;
    }
    let ghost up = ups(base@.len() - k);
    let ghost rest = p.subrange(k as int, p.len() as int);
    let mut j: usize = k;
    assert(rest.take(0) =~= Seq::<Seq<char>>::empty());
    while j < path.len()
        invariant
            p == views(path@),
            rest == p.subrange(k as int, p.len() as int),
            k <= j <= path@.len(),
            views(r@) == walk(up, rest.take(j - k)),
        decreases path@.len() - j,
    {
        proof {
            assert(rest.take(j - k + 1).drop_last() =~= rest.take(j - k));
            assert(rest.take(j - k + 1).last() == path@[j as int]@);
        }
        if same(path[j].as_str(), "/") {
            let mut root: Vec<String> = Vec::new();
            root.push(path[j].clone());
            r = root;
            assert(views(r@) =~= seq!["/"@]);
        } else {
            r.push(path[j].clone());
        }
        j += 1;
    }
    assert(rest.take(rest.len() as int) =~= rest);
    Some(r)
}

/// The text of a path: its components between slashes.
pub open spec fn path_text(path: Seq<Seq<char>>) -> Seq<char> {
    if path.len() > 0 && path[0] == "/"@ {
        "/"@ + joined(path.subrange(1, path.len() as int), "/"@)
    } else {
        joined(path, "/"@)
    }
}

/// The text with every backslash turned into a slash.
pub open spec fn forward(s: Seq<char>) -> Seq<char> {
    replaced(s, "\\"@, "/"@)
}

/// The path of `target` as a script names it, before its backslashes are
/// turned: relative to the base where both could be resolved, as it was
/// given otherwise.
pub open spec fn named_path(
    target: Seq<char>,
    resolved: Option<(Seq<Seq<char>>, Seq<Seq<char>>)>,
) -> Seq<char> {
    match resolved {
        Some((t, b)) => if t.len() > 0 && b.len() > 0 {
            path_text(relative(t, b))
        } else {
            target
        },
        None => target,
    }
}

pub open spec fn opt_paths(o: Option<(&Vec<String>, &Vec<String>)>) -> Option<
    (Seq<Seq<char>>, Seq<Seq<char>>),
> {
    match o {
        Some((t, b)) => Some((views(t@), views(b@))),
        None => None,
    }
}

/// The path of `target` as a script names it: relative to the base where
/// both could be resolved, as it was given otherwise; always with forward
/// slashes.
///
/// `resolved` holds the components of the resolved target and of the
/// resolved base.
pub fn pathdiff_or_absolute(
    target: &str,
    resolved: Option<(&Vec<String>, &Vec<String>)>,
) -> (r: String)
    ensures
        r@ == forward(named_path(target@, opt_paths(resolved))),
{
    broadcast use {group_append, group_views};
    proof {
        reveal_strlit("\\");
    }
    if let Some((t, b)) = resolved {
        if let Some(rel) = pathdiff(t, b) {
            let mut s = String::new();
            if rel.len() > 0 && same(rel[0].as_str(), "/") {
                put(&mut s, "/");
                let mut rest: Vec<String> = Vec::new();
                let mut i: usize = 1;
                while i < rel.len()
                    invariant
                        1 <= i <= rel@.len(),
                        views(rest@) == views(rel@).subrange(1, i as int),
                    decreases rel@.len() - i,
                {
                    rest.push(rel[i].clone());
                    assert(views(rel@).subrange(1, i + 1) =~= views(rel@).subrange(
                        1,
                        i as int,
                    ).push(rel@[i as int]@));
                    i += 1;
                }
                put_joined(&mut s, &rest, "/");
            } else {
                put_joined(&mut s, &rel, "/");
            }
            return replace(s.as_str(), "\\", "/");
        }
    }
    replace(target, "\\", "/")
}

} // verus!
