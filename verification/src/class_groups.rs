//! The virtual methods of a program, grouped by class.

use vstd::prelude::*;

use crate::constraints::InterfaceMethod;
use crate::order::{before, comes_before, lemma_before_total, lemma_before_trans};
use crate::text::same;

verus! {

/// The virtual methods of one class, in the order of their slots.
pub struct ClassGroup<'a> {
    pub name: String,
    pub methods: Vec<&'a InterfaceMethod>,
}

/// What a group is, apart from how it is stored.
pub ghost struct GroupView {
    pub name: Seq<char>,
    pub methods: Seq<InterfaceMethod>,
}

pub open spec fn methods_view(v: Seq<&InterfaceMethod>) -> Seq<InterfaceMethod> {
    Seq::new(v.len(), |i: int| *v[i])
}

impl<'a> View for ClassGroup<'a> {
    type V = GroupView;

    open spec fn view(&self) -> GroupView {
        GroupView { name: self.name@, methods: methods_view(self.methods@) }
    }
}

pub open spec fn groups_view(v: Seq<ClassGroup>) -> Seq<GroupView> {
    Seq::new(v.len(), |i: int| v[i]@)
}

/// The classes of the methods.
pub open spec fn class_names(methods: Seq<InterfaceMethod>) -> Seq<Seq<char>> {
    Seq::new(methods.len(), |i: int| methods[i].class_name@)
}

/// The slot of a method in its class, searched from `i` on: behind every
/// method that the source declares earlier.
pub open spec fn method_slot(v: Seq<InterfaceMethod>, offset: u64, i: int) -> int
    decreases v.len() - i,
{
    if i < 0 || i >= v.len() || v[i].source_offset > offset {
        i
    } else {
        method_slot(v, offset, i + 1)
    }
}

/// The methods of a class with one more in its slot.
pub open spec fn with_method(v: Seq<InterfaceMethod>, m: InterfaceMethod) -> Seq<InterfaceMethod> {
    v.insert(method_slot(v, m.source_offset, 0), m)
}

/// The place of a class among the groups, searched from `i` on: behind
/// every class whose name comes before.
pub open spec fn class_place(g: Seq<GroupView>, name: Seq<char>, i: int) -> int
    decreases g.len() - i,
{
    if i < 0 || i >= g.len() || !before(g[i].name, name) {
        i
    } else {
        class_place(g, name, i + 1)
    }
}

/// The groups with one more method.
pub open spec fn with_grouped(g: Seq<GroupView>, m: InterfaceMethod) -> Seq<GroupView> {
    let p = class_place(g, m.class_name@, 0);
    if p < g.len() && g[p].name == m.class_name@ {
        g.update(p, GroupView { name: g[p].name, methods: with_method(g[p].methods, m) })
    } else {
        g.insert(p, GroupView { name: m.class_name@, methods: seq![m] })
    }
}

/// The methods grouped by class: the classes in ascending order of their
/// names, the methods of each class in the order of their declarations.
pub open spec fn groups_of(methods: Seq<InterfaceMethod>) -> Seq<GroupView>
    decreases methods.len(),
{
    if methods.len() == 0 {
        Seq::empty()
    } else {
        with_grouped(groups_of(methods.drop_last()), methods.last())
    }
}

proof fn lemma_method_slot(v: Seq<InterfaceMethod>, offset: u64, i: int)
    requires
        0 <= i <= v.len(),
    ensures
        i <= method_slot(v, offset, i) <= v.len(),
        forall|k: int| i <= k < method_slot(v, offset, i) ==> (#[trigger] v[k]).source_offset <= offset,
        method_slot(v, offset, i) < v.len() ==> v[method_slot(v, offset, i)].source_offset > offset,
    decreases v.len() - i,
{
    if i < v.len() && v[i].source_offset <= offset {
        lemma_method_slot(v, offset, i + 1);
    }
}

proof fn lemma_class_place(g: Seq<GroupView>, name: Seq<char>, i: int)
    requires
        0 <= i <= g.len(),
    ensures
        i <= class_place(g, name, i) <= g.len(),
        forall|k: int| i <= k < class_place(g, name, i) ==> before((#[trigger] g[k]).name, name),
        class_place(g, name, i) < g.len() ==> !before(g[class_place(g, name, i)].name, name),
    decreases g.len() - i,
{
    if i < g.len() && before(g[i].name, name) {
        lemma_class_place(g, name, i + 1);
    }
}

/// Are the slots of a class in the order of the declarations?
pub open spec fn slots_ordered(v: Seq<InterfaceMethod>) -> bool {
    forall|i: int, j: int|
        0 <= i <= j < v.len() ==> (#[trigger] v[i]).source_offset <= (#[trigger] v[j]).source_offset
}

/// Do all methods belong to the class?
pub open spec fn of_class(v: Seq<InterfaceMethod>, name: Seq<char>) -> bool {
    forall|i: int| 0 <= i < v.len() ==> (#[trigger] v[i]).class_name@ == name
}

/// Are the groups well formed: distinct classes in ascending order, each
/// with its own methods in the order of their declarations?
pub open spec fn grouped(g: Seq<GroupView>) -> bool {
    &&& forall|i: int, j: int|
        0 <= i < j < g.len() ==> before((#[trigger] g[i]).name, (#[trigger] g[j]).name)
    &&& forall|i: int|
        0 <= i < g.len() ==> slots_ordered((#[trigger] g[i]).methods) && of_class(
            g[i].methods,
            g[i].name,
        )
}

/// Is the method in one of the groups?
pub open spec fn in_groups(g: Seq<GroupView>, m: InterfaceMethod) -> bool {
    exists|i: int| 0 <= i < g.len() && (#[trigger] g[i]).methods.contains(m)
}

proof fn lemma_with_method(v: Seq<InterfaceMethod>, m: InterfaceMethod)
    requires
        slots_ordered(v),
        of_class(v, m.class_name@),
    ensures
        slots_ordered(with_method(v, m)),
        of_class(with_method(v, m), m.class_name@),
        with_method(v, m).contains(m),
        forall|x: InterfaceMethod| v.contains(x) ==> with_method(v, m).contains(x),
{
    lemma_method_slot(v, m.source_offset, 0);
    let p = method_slot(v, m.source_offset, 0);
    let w = with_method(v, m);
    assert(w[p] == m);
    assert forall|i: int, j: int| 0 <= i <= j < w.len() implies (#[trigger] w[i]).source_offset
        <= (#[trigger] w[j]).source_offset by {
        let a = if i < p { i } else { i - 1 };
        let b = if j < p { j } else { j - 1 };
        if i == p && j == p {
        } else if i == p {
            assert(w[j] == v[b]);
            assert(v[p].source_offset <= v[b].source_offset);
        } else if j == p {
            assert(w[i] == v[a]);
        } else {
            assert(w[i] == v[a] && w[j] == v[b]);
        }
    }
    assert forall|i: int| 0 <= i < w.len() implies (#[trigger] w[i]).class_name@
        == m.class_name@ by {
        if i != p {
            assert(w[i] == v[if i < p { i } else { i - 1 }]);
        }
    }
    assert forall|x: InterfaceMethod| v.contains(x) implies w.contains(x) by {
        let k = choose|k: int| 0 <= k < v.len() && v[k] == x;
        assert(w[if k < p { k } else { k + 1 }] == x);
    }
}

proof fn lemma_with_grouped(g: Seq<GroupView>, m: InterfaceMethod)
    requires
        grouped(g),
    ensures
        grouped(with_grouped(g, m)),
        in_groups(with_grouped(g, m), m),
        forall|x: InterfaceMethod| in_groups(g, x) ==> in_groups(with_grouped(g, m), x),
{
    let name = m.class_name@;
    lemma_class_place(g, name, 0);
    let p = class_place(g, name, 0);
    let w = with_grouped(g, m);
    if p < g.len() && g[p].name == name {
        lemma_with_method(g[p].methods, m);
        assert(w[p].methods.contains(m));
        assert forall|x: InterfaceMethod| in_groups(g, x) implies in_groups(w, x) by {
            let i = choose|i: int| 0 <= i < g.len() && (#[trigger] g[i]).methods.contains(x);
            assert(w[i].methods.contains(x));
        }
    } else {
        if p < g.len() {
            lemma_before_total(g[p].name, name);
        }
        assert(w[p].methods[0] == m);
        assert(w[p].methods.contains(m));
        assert forall|i: int, j: int| 0 <= i < j < w.len() implies before(
            (#[trigger] w[i]).name,
            (#[trigger] w[j]).name,
        ) by {
            let a = if i < p { i } else { i - 1 };
            let b = if j < p { j } else { j - 1 };
            if i == p {
                assert(w[j] == g[b]);
                if b > p {
                    assert(before(g[p].name, g[b].name));
                    lemma_before_trans(name, g[p].name, g[b].name);
                }
            } else if j == p {
                assert(w[i] == g[a]);
            } else {
                assert(w[i] == g[a] && w[j] == g[b]);
            }
        }
        assert forall|i: int| 0 <= i < w.len() implies slots_ordered((#[trigger] w[i]).methods)
            && of_class(w[i].methods, w[i].name) by {
            if i != p {
                assert(w[i] == g[if i < p { i } else { i - 1 }]);
            }
        }
        assert forall|x: InterfaceMethod| in_groups(g, x) implies in_groups(w, x) by {
            let i = choose|i: int| 0 <= i < g.len() && (#[trigger] g[i]).methods.contains(x);
            assert(w[if i < p { i } else { i + 1 }] == g[i]);
            assert(w[if i < p { i } else { i + 1 }].methods.contains(x));
        }
    }
}

/// Grouping keeps every method, puts it into the group of its class, and
/// orders the slots of each class by declaration.
pub proof fn law_grouping(methods: Seq<InterfaceMethod>)
    ensures
        grouped(groups_of(methods)),
        forall|m: InterfaceMethod| methods.contains(m) ==> in_groups(groups_of(methods), m),
    decreases methods.len(),
{
    if methods.len() > 0 {
        let rest = methods.drop_last();
        law_grouping(rest);
        lemma_with_grouped(groups_of(rest), methods.last());
        assert forall|m: InterfaceMethod| methods.contains(m) implies in_groups(
            groups_of(methods),
            m,
        ) by {
            let k = choose|k: int| 0 <= k < methods.len() && methods[k] == m;
            if k < rest.len() {
                assert(rest[k] == m);
                assert(rest.contains(m));
            }
        }
    }
}

/// A group has the name of the class of a method.
pub proof fn lemma_group_names(methods: Seq<InterfaceMethod>)
    ensures
        forall|i: int|
            0 <= i < groups_of(methods).len() ==> class_names(methods).contains(
                (#[trigger] groups_of(methods)[i]).name,
            ),
    decreases methods.len(),
{
    if methods.len() > 0 {
        let rest = methods.drop_last();
        let m = methods.last();
        let g = groups_of(rest);
        let w = groups_of(methods);
        let p = class_place(g, m.class_name@, 0);
        lemma_group_names(rest);
        lemma_class_place(g, m.class_name@, 0);
        let names = class_names(methods);
        assert(names[methods.len() - 1] == m.class_name@);
        assert forall|i: int| 0 <= i < g.len() implies names.contains((#[trigger] g[i]).name) by {
            let k = choose|k: int| 0 <= k < rest.len() && class_names(rest)[k] == g[i].name;
            assert(names[k] == g[i].name);
        }
        assert forall|i: int| 0 <= i < w.len() implies names.contains((#[trigger] w[i]).name) by {
            if w.len() == g.len() {
                assert(w[i].name == g[i].name);
            } else if i < p {
                assert(w[i] == g[i]);
            } else if i > p {
                assert(w[i] == g[i - 1]);
            }
        }
    }
}

fn add_method<'a>(v: &mut Vec<&'a InterfaceMethod>, m: &'a InterfaceMethod)
    ensures
        methods_view(final(v)@) == with_method(methods_view(old(v)@), *m),
{
    let ghost w = methods_view(v@);
    let mut k: usize = 0;
    while k < v.len() && v[k].source_offset <= m.source_offset
        invariant
            w == methods_view(v@),
            k <= v@.len(),
            method_slot(w, m.source_offset, 0) == method_slot(w, m.source_offset, k as int),
        decreases v@.len() - k,
    {
        k += 1;
    }
    v.insert(k, m);
    assert(methods_view(v@) =~= w.insert(k as int, *m));
}

fn add_to_groups<'a>(groups: &mut Vec<ClassGroup<'a>>, m: &'a InterfaceMethod)
    ensures
        groups_view(final(groups)@) == with_grouped(groups_view(old(groups)@), *m),
{
    let ghost w = groups_view(groups@);
    let mut p: usize = 0;
    while p < groups.len() && comes_before(groups[p].name.as_str(), m.class_name.as_str())
        invariant
            w == groups_view(groups@),
            p <= groups@.len(),
            class_place(w, m.class_name@, 0) == class_place(w, m.class_name@, p as int),
        decreases groups@.len() - p,
    {
        p += 1;
    }
    if p < groups.len() && same(groups[p].name.as_str(), m.class_name.as_str()) {
        let group = &mut groups[p];
        add_method(&mut group.methods, m);
        assert(groups_view(groups@) =~= with_grouped(w, *m));
    } else {
        let mut methods: Vec<&'a InterfaceMethod> = Vec::new();
        methods.push(m);
        assert(methods_view(methods@) =~= seq![*m]);
        groups.insert(p, ClassGroup { name: m.class_name.clone(), methods });
        assert(groups_view(groups@) =~= with_grouped(w, *m));
    }
}

/// The methods grouped by class.
pub fn group_by_class<'a>(methods: &'a [InterfaceMethod]) -> (groups: Vec<ClassGroup<'a>>)
    ensures
        groups_view(groups@) == groups_of(methods@),
{
    let mut groups: Vec<ClassGroup<'a>> = Vec::new();
    let mut i: usize = 0;
    assert(groups_view(groups@) =~= groups_of(methods@.take(0)));
    while i < methods.len()
        invariant
            i <= methods@.len(),
            groups_view(groups@) == groups_of(methods@.take(i as int)),
        decreases methods@.len() - i,
    {
        proof {
            assert(methods@.take(i + 1).drop_last() =~= methods@.take(i as int));
        }
        add_to_groups(&mut groups, &methods[i]);
        i += 1;
    }
    assert(methods@.take(methods@.len() as int) =~= methods@);
    groups
}

} // verus!
