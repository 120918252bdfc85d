//! The inventory of verified functions.

use vstd::prelude::*;

use crate::order::{before, comes_before, lemma_before_total, lemma_before_trans};
use crate::text::{
    group_append, group_views, opt_string, owned, put, put3, replace, replaced, same, trim,
    trim_text,
};

verus! {

/// One function of the inventory.
#[derive(Debug, PartialEq, Eq)]
pub struct InventoryEntry {
    pub name: String,
    pub lang: String,
    pub symbol: Option<String>,
    pub file: Option<String>,
    /// The Cryptol function, where its name is another one.
    pub models: Option<String>,
    pub models_note: Option<String>,
    pub composes: Vec<String>,
}

/// The inventory.
#[derive(Debug, PartialEq, Eq)]
pub struct ImplementationInventory {
    pub functions: Vec<InventoryEntry>,
}

/// Why an entry cannot be made.
#[derive(Debug, Clone, Copy, PartialEq, Eq, Structural)]
pub enum InventoryError {
    /// The name is blank.
    EmptyName,
    /// The language is neither of the two.
    UnknownLanguage,
}

/// Is the language one of the two?
pub open spec fn known_language(lang: Seq<char>) -> bool {
    lang == "cpp"@ || lang == "rust"@
}

/// The name of the model, where it is not that of the function.
pub open spec fn modelled_as(name: Seq<char>, cryptol_fn: Seq<char>) -> Option<Seq<char>> {
    if cryptol_fn != name {
        Some(cryptol_fn)
    } else {
        None
    }
}

/// The entry of a verified function.
pub fn emit_fragment(
    name: &str,
    lang: &str,
    symbol: Option<String>,
    file: Option<String>,
    cryptol_fn: &str,
    models_note: Option<String>,
) -> (r: Result<InventoryEntry, InventoryError>)
    ensures
        match r {
            Err(e) => e == InventoryError::EmptyName && trim_text(name@).len() == 0 || e
                == InventoryError::UnknownLanguage && trim_text(name@).len() > 0 && !known_language(
                lang@,
            ),
            Ok(e) => {
                &&& trim_text(name@).len() > 0 && known_language(lang@)
                &&& e.name@ == name@
                &&& e.lang@ == lang@
                &&& e.symbol == symbol
                &&& e.file == file
                &&& opt_string(e.models) == modelled_as(name@, cryptol_fn@)
                &&& e.models_note == models_note
                &&& e.composes@.len() == 0
            },
        },
{
    if trim(name).is_empty() {
        return Err(InventoryError::EmptyName);
    }
    if !same(lang, "cpp") && !same(lang, "rust") {
        return Err(InventoryError::UnknownLanguage);
    }
    let models = if same(cryptol_fn, name) {
        None
    } else {
        Some(owned(cryptol_fn))
    };
    Ok(
        InventoryEntry {
            name: owned(name),
            lang: owned(lang),
            symbol,
            file,
            models,
            models_note,
            composes: Vec::new(),
        },
    )
}

/// What is said of the error.
pub open spec fn inventory_error_text(e: InventoryError, lang: Seq<char>) -> Seq<char> {
    match e {
        InventoryError::EmptyName => "inventory entry requires a non-empty function name"@,
        InventoryError::UnknownLanguage => "inventory entry lang must be 'cpp' or 'rust', got '"@ + lang + "'"@,
    }
}

impl InventoryError {
    /// What is said of the error.
    pub fn message(&self, lang: &str) -> (r: String)
        ensures
            r@ == inventory_error_text(*self, lang@),
    {
        broadcast use {group_append, group_views};
        let mut r = String::new();
        match self {
            InventoryError::EmptyName => {
                put(&mut r, "inventory entry requires a non-empty function name");
            },
            InventoryError::UnknownLanguage => {
                put3(&mut r, "inventory entry lang must be 'cpp' or 'rust', got '", lang, "'");
            },
        }
        r
    }
}

/// What limits the model: a bound on lengths, and a mapping of variants.
pub fn build_models_note(has_bound: bool, has_variant_return_map: bool) -> (r: Option<String>)
    ensures
        opt_string(r) == match (has_bound, has_variant_return_map) {
            (false, false) => None,
            (true, false) => Some("bounded model only"@),
            (false, true) => Some("variant-mapped return via ABI adapter"@),
            (true, true) => Some("bounded model only; variant-mapped return via ABI adapter"@),
        },
{
    match (has_bound, has_variant_return_map) {
        (false, false) => None,
        (true, false) => Some(owned("bounded model only")),
        (false, true) => Some(owned("variant-mapped return via ABI adapter")),
        (true, true) => Some(owned("bounded model only; variant-mapped return via ABI adapter")),
    }
}

// ---------------------------------------------------------------------
// The order of the inventory
// ---------------------------------------------------------------------

/// Does the first text come before the second? Nothing comes before any
/// text.
pub open spec fn opt_before(a: Option<Seq<char>>, b: Option<Seq<char>>) -> bool {
    match (a, b) {
        (None, Some(_)) => true,
        (Some(x), Some(y)) => before(x, y),
        _ => false,
    }
}

/// What entries are ordered by.
pub open spec fn entry_key(e: InventoryEntry) -> (
    Seq<char>,
    Seq<char>,
    Option<Seq<char>>,
    Option<Seq<char>>,
) {
    (e.name@, e.lang@, opt_string(e.symbol), opt_string(e.file))
}

/// Does the first entry come before the second: by name, language, symbol,
/// and file?
pub open spec fn entry_before(a: InventoryEntry, b: InventoryEntry) -> bool {
    let (n, l, s, f) = entry_key(a);
    let (m, k, t, g) = entry_key(b);
    before(n, m) || (n == m && (before(l, k) || (l == k && (opt_before(s, t) || (s == t
        && opt_before(f, g))))))
}

fn comes_opt_before(a: &Option<String>, b: &Option<String>) -> (r: bool)
    ensures
        r == opt_before(opt_string(*a), opt_string(*b)),
{
    match (a, b) {
        (None, Some(_)) => true,
        (Some(x), Some(y)) => comes_before(x.as_str(), y.as_str()),
        _ => false,
    }
}

fn same_opt(a: &Option<String>, b: &Option<String>) -> (r: bool)
    ensures
        r == (opt_string(*a) == opt_string(*b)),
{
    match (a, b) {
        (None, None) => true,
        (Some(x), Some(y)) => same(x.as_str(), y.as_str()),
        _ => false,
    }
}

fn comes_entry_before(a: &InventoryEntry, b: &InventoryEntry) -> (r: bool)
    ensures
        r == entry_before(*a, *b),
{
    if !same(a.name.as_str(), b.name.as_str()) {
        proof {
            lemma_before_total(a.name@, b.name@);
        }
        return comes_before(a.name.as_str(), b.name.as_str());
    }
    proof {
        lemma_before_total(a.name@, b.name@);
        lemma_before_total(a.lang@, b.lang@);
    }
    if !same(a.lang.as_str(), b.lang.as_str()) {
        return comes_before(a.lang.as_str(), b.lang.as_str());
    }
    if comes_opt_before(&a.symbol, &b.symbol) {
        return true;
    }
    same_opt(&a.symbol, &b.symbol) && comes_opt_before(&a.file, &b.file)
}

/// The place of an entry among ordered ones, of which the first `n` may
/// come after it: behind the last that it does not come before.
pub open spec fn place_of(v: Seq<InventoryEntry>, e: InventoryEntry, n: int) -> int
    decreases n,
{
    if n <= 0 || n > v.len() {
        0
    } else if entry_before(e, v[n - 1]) {
        place_of(v, e, n - 1)
    } else {
        n
    }
}

/// The entries in order; those of one key keep their order.
pub open spec fn in_order(v: Seq<InventoryEntry>) -> Seq<InventoryEntry>
    decreases v.len(),
{
    if v.len() == 0 {
        Seq::empty()
    } else {
        let rest = in_order(v.drop_last());
        rest.insert(place_of(rest, v.last(), rest.len() as int), v.last())
    }
}

/// Do no two entries stand in the wrong order?
pub open spec fn ordered(v: Seq<InventoryEntry>) -> bool {
    forall|i: int, j: int| 0 <= i < j < v.len() ==> !entry_before(#[trigger] v[j], #[trigger] v[i])
}

proof fn lemma_place(v: Seq<InventoryEntry>, e: InventoryEntry, n: int)
    requires
        0 <= n <= v.len(),
    ensures
        0 <= place_of(v, e, n) <= n,
        forall|k: int| place_of(v, e, n) <= k < n ==> entry_before(e, #[trigger] v[k]),
        place_of(v, e, n) > 0 ==> !entry_before(e, v[place_of(v, e, n) - 1]),
    decreases n,
{
    if n > 0 && entry_before(e, v[n - 1]) {
        lemma_place(v, e, n - 1);
    }
}

proof fn lemma_opt_trans(
    a: Option<Seq<char>>,
    b: Option<Seq<char>>,
    c: Option<Seq<char>>,
)
    ensures
        opt_before(a, b) && opt_before(b, c) ==> opt_before(a, c),
        opt_before(a, b) || opt_before(b, a) || a == b,
        !(opt_before(a, b) && opt_before(b, a)),
        a == b ==> !opt_before(a, b),
{
    if let (Some(x), Some(y)) = (a, b) {
        lemma_before_total(x, y);
        if let Some(z) = c {
            if before(x, y) && before(y, z) {
                lemma_before_trans(x, y, z);
            }
        }
    }
}

/// An entry that does not come after a second one which does not come
/// after a third does not come after the third.
proof fn lemma_not_before_trans(a: InventoryEntry, b: InventoryEntry, c: InventoryEntry)
    requires
        !entry_before(b, a),
        !entry_before(c, b),
    ensures
        !entry_before(c, a),
{
    let (n1, l1, s1, f1) = entry_key(a);
    let (n2, l2, s2, f2) = entry_key(b);
    let (n3, l3, s3, f3) = entry_key(c);
    lemma_before_total(n1, n2);
    lemma_before_total(n2, n3);
    lemma_before_total(n1, n3);
    lemma_before_total(l1, l2);
    lemma_before_total(l2, l3);
    lemma_before_total(l1, l3);
    if before(n1, n2) && before(n2, n3) {
        lemma_before_trans(n1, n2, n3);
    }
    if before(l1, l2) && before(l2, l3) {
        lemma_before_trans(l1, l2, l3);
    }
    lemma_opt_trans(s1, s2, s3);
    lemma_opt_trans(s2, s3, s1);
    lemma_opt_trans(s1, s3, s2);
    lemma_opt_trans(f1, f2, f3);
    lemma_opt_trans(f2, f3, f1);
    lemma_opt_trans(f1, f3, f2);
}

/// The inventory holds the same entries, in order.
pub proof fn law_in_order(v: Seq<InventoryEntry>)
    ensures
        in_order(v).to_multiset() == v.to_multiset(),
        in_order(v).len() == v.len(),
        ordered(in_order(v)),
    decreases v.len(),
{
    broadcast use vstd::seq_lib::group_to_multiset_ensures;

    if v.len() == 0 {
        assert(in_order(v) =~= v);
    } else {
        law_in_order(v.drop_last());
        let rest = in_order(v.drop_last());
        let e = v.last();
        let k = place_of(rest, e, rest.len() as int);
        lemma_place(rest, e, rest.len() as int);
        assert(v =~= v.drop_last().push(e));
        let r = rest.insert(k, e);
        assert(r.to_multiset() =~= rest.to_multiset().insert(e)) by {
            vstd::seq_lib::to_multiset_insert(rest, k, e);
        }
        assert forall|i: int, j: int| 0 <= i < j < r.len() implies !entry_before(
            #[trigger] r[j],
            #[trigger] r[i],
        ) by {
            if i < k && j == k {
                if i < k - 1 {
                    lemma_not_before_trans(rest[i], rest[k - 1], e);
                }
            } else if i == k && j > k {
                lemma_irreflexive(e, rest[j - 1]);
            } else {
                let x = if i < k {
                    i
                } else {
                    i - 1
                };
                let y = if j < k {
                    j
                } else {
                    j - 1
                };
                assert(r[i] == rest[x]);
                assert(r[j] == rest[y]);
            }
        }
    }
}

proof fn lemma_irreflexive(a: InventoryEntry, b: InventoryEntry)
    requires
        entry_before(a, b),
    ensures
        !entry_before(b, a),
{
    let (n1, l1, s1, f1) = entry_key(a);
    let (n2, l2, s2, f2) = entry_key(b);
    lemma_before_total(n1, n2);
    lemma_before_total(l1, l2);
    lemma_opt_trans(s1, s2, s1);
    lemma_opt_trans(f1, f2, f1);
    lemma_opt_trans(s2, s1, s2);
    lemma_opt_trans(f2, f1, f2);
}

/// The inventory of the given entries, in order.
pub fn aggregate_inventory(entries: Vec<InventoryEntry>) -> (r: ImplementationInventory)
    ensures
        r.functions@ == in_order(entries@),
{
    let ghost given = entries@;
    let mut v: Vec<InventoryEntry> = Vec::new();
    assert(given.take(0) =~= Seq::empty());
    for e in it: entries.into_iter()
        invariant
            it.seq() == given,
            v@ == in_order(given.take(it.index() as int)),
    {
        proof {
            let i = it.index() as int;
            assert(given.take(i + 1).drop_last() =~= given.take(i));
            assert(given.take(i + 1).last() == e);
        }
        let mut n: usize = v.len();
        while n > 0 && comes_entry_before(&e, &v[n - 1])
            invariant
                n <= v@.len(),
                place_of(v@, e, v@.len() as int) == place_of(v@, e, n as int),
            decreases n,
        {
            n -= 1;
        }
        v.insert(n, e);
    }
    assert(given.take(given.len() as int) =~= given);
    ImplementationInventory { functions: v }
}

/// Is the directory of that name left out when fragments are collected?
pub fn should_skip_dir(name: &str) -> (r: bool)
    ensures
        r == (name@ == "target"@ || name@ == "node_modules"@ || name@ == ".git"@ || name@
            == ".beads"@ || name@ == "dist"@ || name@ == "build"@),
{
    same(name, "target") || same(name, "node_modules") || same(name, ".git") || same(name, ".beads")
        || same(name, "dist") || same(name, "build")
}

// ---------------------------------------------------------------------
// Source files
// ---------------------------------------------------------------------

/// What is read of a node of a syntax tree, in the order of the tree.
#[derive(Debug, PartialEq, Eq)]
pub struct SourceNode {
    /// The file, where the node names one: it holds for those that follow.
    pub file: Option<String>,
    pub is_function: bool,
    pub name: Option<String>,
    pub mangled_name: Option<String>,
    pub has_body: bool,
    pub offset: u64,
}

/// The file of the last of the first `n` nodes that names one.
pub open spec fn file_at(v: Seq<SourceNode>, n: nat) -> Option<Seq<char>>
    decreases n,
{
    if n == 0 {
        None
    } else if v[n - 1].file is Some {
        opt_string(v[n - 1].file)
    } else {
        file_at(v, (n - 1) as nat)
    }
}

/// How well a node fits: the less, the better.
pub open spec fn score_of(name: bool, mangled: bool, body: bool) -> nat {
    if mangled && body {
        if name {
            0
        } else {
            1
        }
    } else if name && body {
        2
    } else if mangled {
        if name {
            3
        } else {
            4
        }
    } else {
        5
    }
}

/// A node that declares the function: how well it fits, where it stands,
/// and in which file.
pub open spec fn source_candidate(
    v: Seq<SourceNode>,
    i: nat,
    function: Seq<char>,
    mangled: Seq<char>,
) -> Option<(nat, u64, Seq<char>)> {
    let node = v[i as int];
    let by_name = opt_string(node.name) == Some(function);
    let by_mangled = opt_string(node.mangled_name) == Some(mangled);
    if node.is_function && (by_name || by_mangled) {
        match file_at(v, i + 1) {
            Some(file) => Some(
                (
                    score_of(by_name, by_mangled, node.has_body),
                    node.offset,
                    replaced(file, "\\"@, "/"@),
                ),
            ),
            None => None,
        }
    } else {
        None
    }
}

/// The best candidate among the first `n` nodes, and of several the
/// first.
pub open spec fn best_source(
    v: Seq<SourceNode>,
    n: nat,
    function: Seq<char>,
    mangled: Seq<char>,
) -> Option<(nat, u64, Seq<char>)>
    decreases n,
{
    if n == 0 {
        None
    } else {
        let rest = best_source(v, (n - 1) as nat, function, mangled);
        match source_candidate(v, (n - 1) as nat, function, mangled) {
            Some(c) => match rest {
                Some(b) => if c.0 < b.0 || (c.0 == b.0 && c.1 < b.1) {
                    Some(c)
                } else {
                    rest
                },
                None => Some(c),
            },
            None => rest,
        }
    }
}

fn read_score(name: bool, mangled: bool, body: bool) -> (r: u8)
    ensures
        r == score_of(name, mangled, body),
{
    match (name, mangled, body) {
        (true, true, true) => 0,
        (false, true, true) => 1,
        (true, false, true) => 2,
        (true, true, false) => 3,
        (false, true, false) => 4,
        _ => 5,
    }
}

fn is_text(o: &Option<String>, s: &str) -> (r: bool)
    ensures
        r == (opt_string(*o) == Some(s@)),
{
    match o {
        Some(t) => same(t.as_str(), s),
        None => false,
    }
}

/// The file in which the function stands: that of a definition rather
/// than of a declaration, and of a node whose mangled name fits rather
/// than of one whose name alone does.
pub fn resolve_cpp_source_file(nodes: &[SourceNode], function: &str, target_mangled: &str) -> (r: Option<
    String,
>)
    ensures
        match best_source(nodes@, nodes@.len(), function@, target_mangled@) {
            Some(b) => opt_string(r) == Some(b.2),
            None => r is None,
        },
{
    proof {
        reveal_strlit("\\");
    }
    let mut current: Option<String> = None;
    let mut best: Option<(u8, u64, String)> = None;
    let mut i: usize = 0;
    while i < nodes.len()
        invariant
            "\\"@.len() > 0,
            i <= nodes@.len(),
            opt_string(current) == file_at(nodes@, i as nat),
            match best {
                Some(b) => best_source(nodes@, i as nat, function@, target_mangled@) == Some(
                    (b.0 as nat, b.1, b.2@),
                ),
                None => best_source(nodes@, i as nat, function@, target_mangled@) is None,
            },
        decreases nodes@.len() - i,
    {
        let node = &nodes[i];
        if let Some(f) = &node.file {
            current = Some(f.clone());
        }
        let by_name = is_text(&node.name, function);
        let by_mangled = is_text(&node.mangled_name, target_mangled);
        if node.is_function && (by_name || by_mangled) {
            if let Some(f) = &current {
                let score: u8 = read_score(by_name, by_mangled, node.has_body);
                let better = match &best {
                    Some(b) => score < b.0 || (score == b.0 && node.offset < b.1),
                    None => true,
                };
                if better {
                    best = Some((score, node.offset, replace(f.as_str(), "\\", "/")));
                }
            }
        }
        i += 1;
    }
    match best {
        Some(b) => Some(b.2),
        None => None,
    }
}

} // verus!
