//! Function signatures in LLVM IR text.

use vstd::prelude::*;

use crate::constraints::{
    annotations_view, functions_view, globals_view, params_view, type_view, Annotation,
    AnnotationView, FunctionInfo, FunctionView, Mutability, Nullability, ParamInfo, ParamView, TypeInfo, TypeView,
};
use crate::ir_layout::{
    DefView, IrError, IrStructDef, defs_in, defs_view, list_items, parse_struct_types,
    resolve_ir_type, resolved, split_ir_params,
};
use crate::text::{
    CharSet, contains, dec, ends, ends_with, find, find_chars, find_from, from_chars, group_append,
    group_views, join, joined, lemma_find_from, lines, lines_of, mentions, nil, opt_string,
    opt_view, owned, parse_bounded, parsed, put, put2, put3, put_dec, same, split_whitespace,
    starts, starts_with, strip_prefixes, to_chars, trim, trim_end, trim_start, trim_text,
    trimmed_end, trimmed_start, views, without_prefixes, words,
};

verus! {

// ---------------------------------------------------------------------
// Parameters
// ---------------------------------------------------------------------

/// What the words of a parameter have said so far.
struct ParamWords {
    is_readonly: bool,
    is_writeonly: bool,
    is_noalias: bool,
    is_nocapture: bool,
    is_nonnull: bool,
    is_sret: bool,
    in_range: bool,
    deref_size: Option<usize>,
    type_str: String,
    name: String,
}

/// What the words of a parameter have said so far.
pub ghost struct WordsView {
    pub is_readonly: bool,
    pub is_writeonly: bool,
    pub is_noalias: bool,
    pub is_nocapture: bool,
    pub is_nonnull: bool,
    pub is_sret: bool,
    /// Do the words stand within a range of values?
    pub in_range: bool,
    pub deref_size: Option<usize>,
    pub type_str: Seq<char>,
    pub name: Seq<char>,
}

impl View for ParamWords {
    type V = WordsView;

    closed spec fn view(&self) -> WordsView {
        WordsView {
            is_readonly: self.is_readonly,
            is_writeonly: self.is_writeonly,
            is_noalias: self.is_noalias,
            is_nocapture: self.is_nocapture,
            is_nonnull: self.is_nonnull,
            is_sret: self.is_sret,
            in_range: self.in_range,
            deref_size: self.deref_size,
            type_str: self.type_str@,
            name: self.name@,
        }
    }
}

/// The size in a word that says how much can be read.
pub open spec fn deref_bytes(p: Seq<char>) -> Option<usize> {
    match parsed(
        trimmed_end(without_prefixes(p, "dereferenceable("@), CharSet::Is(')')),
        usize::MAX as nat,
    ) {
        Some(n) => Some(n as usize),
        None => None,
    }
}

/// Is the word the name of the parameter? Before it stands the type.
pub open spec fn names_param(s: WordsView, p: Seq<char>) -> bool {
    (starts(p, "%"@) || starts(p, "@"@)) && !ends(p, "*"@) && s.type_str.len() > 0
}

/// What one more word says.
pub open spec fn word_read(s: WordsView, p: Seq<char>) -> WordsView {
    if s.in_range || starts(p, "range("@) {
        WordsView { in_range: !ends(p, ")"@), ..s }
    } else if p == "readonly"@ {
        WordsView { is_readonly: true, ..s }
    } else if p == "writeonly"@ {
        WordsView { is_writeonly: true, ..s }
    } else if p == "noalias"@ {
        WordsView { is_noalias: true, ..s }
    } else if p == "nocapture"@ {
        WordsView { is_nocapture: true, ..s }
    } else if p == "nonnull"@ {
        WordsView { is_nonnull: true, ..s }
    } else if p == "zeroext"@ || p == "signext"@ || p == "noundef"@ || p == "inreg"@ || p
        == "align"@ {
        s
    } else if starts(p, "sret("@) || p == "sret"@ {
        WordsView { is_sret: true, ..s }
    } else if starts(p, "dereferenceable("@) {
        WordsView { deref_size: deref_bytes(p), ..s }
    } else if names_param(s, p) {
        WordsView { name: trimmed_start(p, CharSet::Is('%')), ..s }
    } else if s.type_str.len() > 0 {
        WordsView { type_str: s.type_str + " "@ + p, ..s }
    } else {
        WordsView { type_str: p, ..s }
    }
}

/// What the first `n` words say.
pub open spec fn words_read(words: Seq<Seq<char>>, n: nat, first: WordsView) -> WordsView
    decreases n,
{
    if n == 0 {
        first
    } else {
        word_read(words_read(words, (n - 1) as nat, first), words[n - 1])
    }
}

/// The state before the first word: the name is the number of the
/// parameter.
pub open spec fn no_words(idx: nat) -> WordsView {
    WordsView {
        is_readonly: false,
        is_writeonly: false,
        is_noalias: false,
        is_nocapture: false,
        is_nonnull: false,
        is_sret: false,
        in_range: false,
        deref_size: None,
        type_str: nil(),
        name: "arg"@ + dec(idx),
    }
}

/// Do the words describe a pointer?
pub open spec fn pointer_words(w: WordsView) -> bool {
    mentions(w.type_str, "*"@) || w.type_str == "ptr"@
}

/// The attributes that the words say.
pub open spec fn word_annotations(w: WordsView) -> Seq<AnnotationView> {
    let a = if w.is_noalias {
        seq![AnnotationView::NoAlias]
    } else {
        Seq::empty()
    };
    let b = if w.is_nocapture {
        a.push(AnnotationView::NoCapture)
    } else {
        a
    };
    let c = match w.deref_size {
        Some(n) => b.push(AnnotationView::Dereferenceable(n)),
        None => b,
    };
    if w.is_sret {
        c.push(AnnotationView::Custom("sret"@))
    } else {
        c
    }
}

/// The parameter that the words describe, given the type.
pub open spec fn words_param(w: WordsView, inner: TypeView) -> ParamView {
    let is_ptr = pointer_words(w);
    ParamView {
        name: w.name,
        ty: if is_ptr {
            TypeView::Pointer(Box::new(inner))
        } else {
            inner
        },
        mutability: if w.is_writeonly || w.is_sret {
            Mutability::WriteOnly
        } else if w.is_readonly {
            Mutability::Readonly
        } else if is_ptr {
            Mutability::Mutable
        } else {
            Mutability::Readonly
        },
        nullable: if w.is_nonnull || w.is_sret || !is_ptr {
            Nullability::NonNull
        } else {
            Nullability::Nullable
        },
        annotations: word_annotations(w),
    }
}

/// The parameter of a text that is not blank, with its number.
pub open spec fn param_of(s: Seq<char>, idx: nat, defs: Seq<(Seq<char>, DefView)>) -> Result<
    Option<ParamView>,
    IrError,
> {
    let ws = words(s);
    if ws.len() == 0 {
        Ok(None)
    } else {
        let w = words_read(ws, ws.len(), no_words(idx));
        match resolved(w.type_str, defs, defs.len()) {
            Ok(inner) => Ok(Some(words_param(w, inner))),
            Err(e) => Err(e),
        }
    }
}

fn read_deref_bytes(p: &str) -> (r: Option<usize>)
    ensures
        r == deref_bytes(p@),
{
    proof {
        reveal_strlit("dereferenceable(");
    }
    match parse_bounded(
        trim_end(strip_prefixes(p, "dereferenceable("), CharSet::Is(')')),
        usize::MAX as u64,
    ) {
        Some(n) => Some(n as usize),
        None => None,
    }
}

impl ParamWords {
    fn new(idx: usize) -> (r: ParamWords)
        ensures
            r@ == no_words(idx as nat),
    {
        broadcast use {group_append, group_views};
        let mut name = String::new();
        put(&mut name, "arg");
        put_dec(&mut name, idx as u128);
        ParamWords {
            is_readonly: false,
            is_writeonly: false,
            is_noalias: false,
            is_nocapture: false,
            is_nonnull: false,
            is_sret: false,
            in_range: false,
            deref_size: None,
            type_str: String::new(),
            name,
        }
    }

    fn read(&mut self, p: &str)
        ensures
            final(self)@ == word_read(old(self)@, p@),
    {
        broadcast use {group_append, group_views};
        if self.in_range || starts_with(p, "range(") {
            self.in_range = !ends_with(p, ")");
        } else if same(p, "readonly") {
            self.is_readonly = true;
        } else if same(p, "writeonly") {
            self.is_writeonly = true;
        } else if same(p, "noalias") {
            self.is_noalias = true;
        } else if same(p, "nocapture") {
            self.is_nocapture = true;
        } else if same(p, "nonnull") {
            self.is_nonnull = true;
        } else if same(p, "zeroext") || same(p, "signext") || same(p, "noundef") || same(
            p,
            "inreg",
        ) || same(p, "align") {
        } else if starts_with(p, "sret(") || same(p, "sret") {
            self.is_sret = true;
        } else if starts_with(p, "dereferenceable(") {
            self.deref_size = read_deref_bytes(p);
        } else if (starts_with(p, "%") || starts_with(p, "@")) && !ends_with(p, "*")
            && !self.type_str.as_str().is_empty() {
            self.name = owned(trim_start(p, CharSet::Is('%')));
        } else if !self.type_str.as_str().is_empty() {
            put2(&mut self.type_str, " ", p);
        } else {
            put(&mut self.type_str, p);
        }
    }

    fn annotations(&self) -> (r: Vec<Annotation>)
        ensures
            annotations_view(r@) == word_annotations(self@),
    {
        broadcast use {group_append, group_views};
        let mut r: Vec<Annotation> = Vec::new();
        assert(annotations_view(r@) =~= Seq::empty());
        if self.is_noalias {
            r.push(Annotation::NoAlias);
            assert(annotations_view(r@) =~= seq![AnnotationView::NoAlias]);
        }
        let ghost a = annotations_view(r@);
        if self.is_nocapture {
            r.push(Annotation::NoCapture);
            assert(annotations_view(r@) =~= a.push(AnnotationView::NoCapture));
        }
        let ghost b = annotations_view(r@);
        if let Some(n) = self.deref_size {
            r.push(Annotation::Dereferenceable(n));
            assert(annotations_view(r@) =~= b.push(AnnotationView::Dereferenceable(n)));
        }
        let ghost c = annotations_view(r@);
        if self.is_sret {
            r.push(Annotation::Custom(owned("sret")));
            assert(annotations_view(r@) =~= c.push(AnnotationView::Custom("sret"@)));
        }
        r
    }

    fn param(self, inner: TypeInfo) -> (r: ParamInfo)
        ensures
            r@ == words_param(self@, inner@),
    {
        proof {
            reveal_with_fuel(type_view, 2);
        }
        let annotations = self.annotations();
        let is_ptr = contains(self.type_str.as_str(), "*") || same(self.type_str.as_str(), "ptr");
        let ty = if is_ptr {
            TypeInfo::Pointer(Box::new(inner))
        } else {
            inner
        };
        let mutability = if self.is_writeonly || self.is_sret {
            Mutability::WriteOnly
        } else if self.is_readonly {
            Mutability::Readonly
        } else if is_ptr {
            Mutability::Mutable
        } else {
            Mutability::Readonly
        };
        let nullable = if self.is_nonnull || self.is_sret || !is_ptr {
            Nullability::NonNull
        } else {
            Nullability::Nullable
        };
        ParamInfo { name: self.name, ty, mutability, nullable, annotations }
    }
}

/// The parameter of a text, with its number; `None` for a blank text.
pub fn parse_ir_param_resolved(
    param_str: &str,
    idx: usize,
    defs: &[(String, IrStructDef)],
) -> (r: Result<Option<ParamInfo>, IrError>)
    ensures
        match r {
            Ok(Some(p)) => param_of(param_str@, idx as nat, defs_view(defs@)) == Ok::<
                Option<ParamView>,
                IrError,
            >(Some(p@)),
            Ok(None) => param_of(param_str@, idx as nat, defs_view(defs@)) == Ok::<
                Option<ParamView>,
                IrError,
            >(None),
            Err(e) => param_of(param_str@, idx as nat, defs_view(defs@)) == Err::<
                Option<ParamView>,
                IrError,
            >(e),
        },
{
    let parts = split_whitespace(param_str);
    if parts.len() == 0 {
        return Ok(None);
    }
    let ghost ws = words(param_str@);
    let ghost first = no_words(idx as nat);
    let mut w = ParamWords::new(idx);
    let mut i: usize = 0;
    while i < parts.len()
        invariant
            ws == views(parts@),
            i <= parts@.len(),
            w@ == words_read(ws, i as nat, first),
        decreases parts@.len() - i,
    {
        assert(ws[i as int] == parts@[i as int]@);
        w.read(parts[i].as_str());
        i += 1;
    }
    match resolve_ir_type(w.type_str.as_str(), defs) {
        Ok(inner) => Ok(Some(w.param(inner))),
        Err(e) => Err(e),
    }
}

/// The number of the items among the first `n` that are not `...`.
pub open spec fn numbered(items: Seq<Seq<char>>, n: nat) -> nat
    decreases n,
{
    if n == 0 {
        0
    } else if trim_text(items[n - 1]) == "..."@ {
        numbered(items, (n - 1) as nat)
    } else {
        numbered(items, (n - 1) as nat) + 1
    }
}

/// The parameters of the first `n` items. An item `...` has no number,
/// and a blank one is no parameter.
pub open spec fn params_of(
    items: Seq<Seq<char>>,
    n: nat,
    defs: Seq<(Seq<char>, DefView)>,
) -> Result<Seq<ParamView>, IrError>
    decreases n,
{
    if n == 0 {
        Ok(Seq::empty())
    } else {
        match params_of(items, (n - 1) as nat, defs) {
            Ok(rest) => {
                let item = trim_text(items[n - 1]);
                if item == "..."@ {
                    Ok(rest)
                } else {
                    match param_of(item, numbered(items, (n - 1) as nat), defs) {
                        Ok(Some(p)) => Ok(rest.push(p)),
                        Ok(None) => Ok(rest),
                        Err(e) => Err(e),
                    }
                }
            },
            Err(e) => Err(e),
        }
    }
}

/// The parameters of a list.
pub open spec fn list_params(s: Seq<char>, defs: Seq<(Seq<char>, DefView)>) -> Result<
    Seq<ParamView>,
    IrError,
> {
    if trim_text(s).len() == 0 || trim_text(s) == "..."@ {
        Ok(Seq::empty())
    } else {
        params_of(list_items(s), list_items(s).len(), defs)
    }
}

pub open spec fn params_result(r: Result<Vec<ParamInfo>, IrError>) -> Result<
    Seq<ParamView>,
    IrError,
> {
    match r {
        Ok(v) => Ok(params_view(v@)),
        Err(e) => Err(e),
    }
}

proof fn lemma_param_errors(
    items: Seq<Seq<char>>,
    i: nat,
    n: nat,
    defs: Seq<(Seq<char>, DefView)>,
)
    requires
        i <= n,
        params_of(items, i, defs) is Err,
    ensures
        params_of(items, n, defs) == params_of(items, i, defs),
    decreases n,
{
    if i < n {
        lemma_param_errors(items, i, (n - 1) as nat, defs);
    }
}

/// The parameters of a list.
pub fn parse_ir_params_resolved(params_str: &str, defs: &[(String, IrStructDef)]) -> (r: Result<
    Vec<ParamInfo>,
    IrError,
>)
    ensures
        params_result(r) == list_params(params_str@, defs_view(defs@)),
{
    broadcast use {group_append, group_views};
    let mut params: Vec<ParamInfo> = Vec::new();
    assert(params_view(params@) =~= Seq::empty());
    let all = trim(params_str);
    if all.is_empty() || same(all, "...") {
        return Ok(params);
    }
    let items = split_ir_params(params_str);
    let ghost v = list_items(params_str@);
    let ghost d = defs_view(defs@);
    let mut idx: usize = 0;
    let mut i: usize = 0;
    while i < items.len()
        invariant
            v == views(items@),
            d == defs_view(defs@),
            list_params(params_str@, d) == params_of(v, v.len(), d),
            idx <= i <= items@.len(),
            idx == numbered(v, i as nat),
            params_of(v, i as nat, d) == Ok::<Seq<ParamView>, IrError>(params_view(params@)),
        decreases items@.len() - i,
    {
        assert(v[i as int] == items@[i as int]@);
        let item = trim(items[i].as_str());
        if !same(item, "...") {
            match parse_ir_param_resolved(item, idx, defs) {
                Ok(Some(p)) => {
                    let ghost before = params_view(params@);
                    let ghost e = p@;
                    params.push(p);
                    assert(params_view(params@) =~= before.push(e));
                },
                Ok(None) => {},
                Err(e) => {
                    proof {
                        lemma_param_errors(v, (i + 1) as nat, v.len(), d);
                    }
                    return Err(e);
                },
            }
            idx += 1;
        }
        i += 1;
    }
    Ok(params)
}

// ---------------------------------------------------------------------
// Functions
// ---------------------------------------------------------------------

/// The position of the bracket that closes the one at `i`, given the
/// nesting before it.
pub open spec fn closing_paren(s: Seq<char>, i: int, depth: int) -> Option<int>
    decreases s.len() - i,
{
    if i < 0 || i >= s.len() {
        None
    } else if s[i] == '(' {
        closing_paren(s, i + 1, depth + 1)
    } else if s[i] == ')' {
        if depth - 1 == 0 {
            Some(i)
        } else {
            closing_paren(s, i + 1, depth - 1)
        }
    } else {
        closing_paren(s, i + 1, depth)
    }
}

/// The position of the bracket that closes the one at `open_pos`.
pub fn find_matching_paren(cs: &Vec<char>, open_pos: usize) -> (r: Option<usize>)
    requires
        open_pos <= cs@.len(),
    ensures
        match r {
            Some(k) => closing_paren(cs@, open_pos as int, 0) == Some(k as int) && open_pos <= k
                && k < cs@.len() && cs@[k as int] == ')',
            None => closing_paren(cs@, open_pos as int, 0) is None,
        },
{
    let n: usize = cs.len();
    let mut depth: i128 = 0;
    let mut i: usize = open_pos;
    while i < n
        invariant
            n == cs@.len(),
            open_pos <= i <= n,
            -(i as int) <= depth <= i,
            closing_paren(cs@, open_pos as int, 0) == closing_paren(
                cs@,
                i as int,
                depth as int,
            ),
        decreases n - i,
    {
        let c: char = cs[i];
        if c == '(' {
            depth += 1;
        } else if c == ')' {
            depth -= 1;
            if depth == 0 {
                return Some(i);
            }
        }
        i += 1;
    }
    None
}

/// Is the word one of those that stand before a return type?
pub open spec fn linkage_word(p: Seq<char>) -> bool {
    p == "private"@ || p == "internal"@ || p == "available_externally"@ || p == "linkonce"@ || p
        == "weak"@ || p == "common"@ || p == "appending"@ || p == "extern_weak"@ || p
        == "linkonce_odr"@ || p == "weak_odr"@ || p == "external"@ || p == "default"@ || p
        == "hidden"@ || p == "protected"@ || p == "dso_local"@ || p == "dso_preemptable"@ || p
        == "ccc"@ || p == "fastcc"@ || p == "coldcc"@ || p == "x86_stdcallcc"@ || p == "win64cc"@
        || p == "swiftcc"@ || p == "zeroext"@ || p == "signext"@ || p == "noundef"@
}

/// The words of a return type.
pub open spec fn type_words(v: Seq<Seq<char>>) -> Seq<Seq<char>>
    decreases v.len(),
{
    if v.len() == 0 {
        Seq::empty()
    } else if linkage_word(v.last()) || starts(v.last(), "#"@) {
        type_words(v.drop_last())
    } else {
        type_words(v.drop_last()).push(v.last())
    }
}

/// The return type of a declaration or definition, which ends before the
/// position `at`.
pub open spec fn return_type_text(line: Seq<char>, at: int) -> Seq<char> {
    let skipped = if starts(line, "declare "@) {
        Some(8int)
    } else if starts(line, "define "@) {
        Some(7int)
    } else {
        None
    };
    match skipped {
        Some(k) => trim_text(joined(type_words(words(line.subrange(k, at))), " "@)),
        None => "void"@,
    }
}

fn is_linkage_word(p: &str) -> (r: bool)
    ensures
        r == linkage_word(p@),
{
    same(p, "private") || same(p, "internal") || same(p, "available_externally") || same(
        p,
        "linkonce",
    ) || same(p, "weak") || same(p, "common") || same(p, "appending") || same(p, "extern_weak")
        || same(p, "linkonce_odr") || same(p, "weak_odr") || same(p, "external") || same(
        p,
        "default",
    ) || same(p, "hidden") || same(p, "protected") || same(p, "dso_local") || same(
        p,
        "dso_preemptable",
    ) || same(p, "ccc") || same(p, "fastcc") || same(p, "coldcc") || same(p, "x86_stdcallcc")
        || same(p, "win64cc") || same(p, "swiftcc") || same(p, "zeroext") || same(p, "signext")
        || same(p, "noundef")
}

fn keep_type_words(v: &Vec<String>) -> (r: Vec<String>)
    ensures
        views(r@) == type_words(views(v@)),
{
    broadcast use {group_append, group_views};
    let ghost all = views(v@);
    let mut r: Vec<String> = Vec::new();
    let mut i: usize = 0;
    assert(all.take(0) =~= Seq::empty());
    while i < v.len()
        invariant
            all == views(v@),
            i <= v@.len(),
            views(r@) == type_words(all.take(i as int)),
        decreases v@.len() - i,
    {
        assert(all.take(i + 1).drop_last() =~= all.take(i as int));
        assert(all.take(i + 1).last() == v@[i as int]@);
        if !is_linkage_word(v[i].as_str()) && !starts_with(v[i].as_str(), "#") {
            r.push(v[i].clone());
        }
        i += 1;
    }
    assert(all.take(all.len() as int) =~= all);
    r
}

/// The first `@` of a line does not stand in its keyword.
proof fn lemma_at_behind_keyword(line: Seq<char>, at: int)
    requires
        find(line, "@"@) == Some(at),
    ensures
        starts(line, "declare "@) ==> 8 <= at,
        starts(line, "define "@) ==> 7 <= at,
        0 <= at < line.len(),
{
    reveal_strlit("@");
    reveal_strlit("declare ");
    reveal_strlit("define ");
    lemma_find_from(line, "@"@, 0);
    assert(line[at] == line.subrange(at, at + 1)[0]);
    assert(line[at] == '@');
    if starts(line, "declare "@) && at < 8 {
        assert(line[at] == line.subrange(0, 8)[at]);
        assert("declare "@[at] != '@');
    }
    if starts(line, "define "@) && at < 7 {
        assert(line[at] == line.subrange(0, 7)[at]);
        assert("define "@[at] != '@');
    }
}

/// The return type of a declaration or definition, which ends before the
/// position `at_pos` of the first `@`.
pub fn extract_return_type(line: &str, at_pos: usize) -> (r: String)
    requires
        find(line@, "@"@) == Some(at_pos as int),
    ensures
        r@ == return_type_text(line@, at_pos as int),
{
    broadcast use {group_append, group_views};
    proof {
        lemma_at_behind_keyword(line@, at_pos as int);
    }
    let cs = to_chars(line);
    let from: usize = if starts_with(line, "declare ") {
        8
    } else if starts_with(line, "define ") {
        7
    } else {
        return owned("void");
    };
    let text = from_chars(&cs, from, at_pos);
    let parts = keep_type_words(&split_whitespace(text.as_str()));
    let joined_parts = join(&parts, " ");
    owned(trim(joined_parts.as_str()))
}

/// Does the parameter hold the result?
pub open spec fn holds_result(p: ParamView) -> bool {
    p.annotations.contains(AnnotationView::Custom("sret"@))
}

/// The first parameter from `i` on that holds the result.
pub open spec fn result_param(params: Seq<ParamView>, i: int) -> Option<int>
    decreases params.len() - i,
{
    if i < 0 || i >= params.len() {
        None
    } else if holds_result(params[i]) {
        Some(i)
    } else {
        result_param(params, i + 1)
    }
}

/// The annotations that do not say that the parameter holds the result.
pub open spec fn without_sret(v: Seq<AnnotationView>) -> Seq<AnnotationView>
    decreases v.len(),
{
    if v.len() == 0 {
        Seq::empty()
    } else if v.last() == AnnotationView::Custom("sret"@) {
        without_sret(v.drop_last())
    } else {
        without_sret(v.drop_last()).push(v.last())
    }
}

/// The parameter that holds the result, as an output.
pub open spec fn output_param(p: ParamView) -> ParamView {
    ParamView {
        mutability: Mutability::WriteOnly,
        nullable: Nullability::NonNull,
        annotations: without_sret(p.annotations),
        ..p
    }
}

/// The parameters with the one that holds the result first.
pub open spec fn result_first(params: Seq<ParamView>) -> Seq<ParamView> {
    match result_param(params, 0) {
        Some(k) => seq![output_param(params[k])] + params.remove(k),
        None => params,
    }
}

fn is_sret_annotation(a: &Annotation) -> (r: bool)
    ensures
        r == (a@ == AnnotationView::Custom("sret"@)),
{
    match a {
        Annotation::Custom(s) => same(s.as_str(), "sret"),
        _ => false,
    }
}

fn is_result(p: &ParamInfo) -> (r: bool)
    ensures
        r == holds_result(p@),
{
    let ghost v = annotations_view(p.annotations@);
    let mut i: usize = 0;
    while i < p.annotations.len()
        invariant
            v == annotations_view(p.annotations@),
            i <= p.annotations@.len(),
            forall|k: int| 0 <= k < i ==> #[trigger] v[k] != AnnotationView::Custom("sret"@),
        decreases p.annotations@.len() - i,
    {
        assert(v[i as int] == p.annotations@[i as int]@);
        if is_sret_annotation(&p.annotations[i]) {
            return true;
        }
        i += 1;
    }
    false
}

fn drop_sret(v: Vec<Annotation>) -> (r: Vec<Annotation>)
    ensures
        annotations_view(r@) == without_sret(annotations_view(v@)),
{
    broadcast use {group_append, group_views};
    let ghost all = annotations_view(v@);
    let ghost given = v@;
    let mut r: Vec<Annotation> = Vec::new();
    assert(all.take(0) =~= Seq::empty());
    assert(annotations_view(r@) =~= Seq::empty());
    for a in it: v.into_iter()
        invariant
            it.seq() == given,
            all == annotations_view(given),
            annotations_view(r@) == without_sret(all.take(it.index() as int)),
    {
        proof {
            let i = it.index() as int;
            assert(all.take(i + 1).drop_last() =~= all.take(i));
            assert(all.take(i + 1).last() == a@);
        }
        if !is_sret_annotation(&a) {
            let ghost before = annotations_view(r@);
            let ghost e = a@;
            r.push(a);
            assert(annotations_view(r@) =~= before.push(e));
        }
    }
    assert(all.take(all.len() as int) =~= all);
    r
}

fn find_result(params: &Vec<ParamInfo>) -> (r: Option<usize>)
    ensures
        match r {
            Some(k) => k < params@.len() && result_param(params_view(params@), 0) == Some(k as int),
            None => result_param(params_view(params@), 0) is None,
        },
{
    let ghost v = params_view(params@);
    let mut i: usize = 0;
    while i < params.len()
        invariant
            v == params_view(params@),
            i <= params@.len(),
            result_param(v, 0) == result_param(v, i as int),
        decreases params@.len() - i,
    {
        assert(v[i as int] == params@[i as int]@);
        if is_result(&params[i]) {
            return Some(i);
        }
        i += 1;
    }
    None
}

/// Puts the parameter that holds the result first, as an output, and says
/// whether there is one. The function then returns nothing itself.
pub fn extract_sret(params: Vec<ParamInfo>) -> (r: (Vec<ParamInfo>, bool))
    ensures
        params_view(r.0@) == result_first(params_view(params@)),
        r.1 == (result_param(params_view(params@), 0) is Some),
{
    let ghost v = params_view(params@);
    match find_result(&params) {
        Some(k) => {
            let mut rest = params;
            let p = rest.remove(k);
            assert(p@ == v[k as int]);
            let out = ParamInfo {
                name: p.name,
                ty: p.ty,
                mutability: Mutability::WriteOnly,
                nullable: Nullability::NonNull,
                annotations: drop_sret(p.annotations),
            };
            let ghost o = out@;
            rest.insert(0, out);
            assert(params_view(rest@) =~= seq![o] + v.remove(k as int));
            (rest, true)
        },
        None => (params, false),
    }
}

/// The function with its parameters and its result, given their texts.
pub open spec fn signature_of(
    name: Seq<char>,
    params: Seq<char>,
    result: Seq<char>,
    defs: Seq<(Seq<char>, DefView)>,
    line: Seq<char>,
) -> Result<FunctionView, IrError> {
    match resolved(result, defs, defs.len()) {
        Ok(ret) => match list_params(params, defs) {
            Ok(ps) => Ok(
                FunctionView {
                    name,
                    mangled_name: None,
                    params: result_first(ps),
                    return_type: if result_param(ps, 0) is Some {
                        TypeView::Void
                    } else {
                        ret
                    },
                    can_throw: !mentions(line, "nounwind"@),
                    is_virtual: false,
                    has_body: starts(line, "define "@),
                    is_system: false,
                    called_functions: Seq::empty(),
                    referenced_globals: Seq::empty(),
                    annotations: if mentions(line, "nounwind"@) {
                        seq![AnnotationView::NoThrow]
                    } else {
                        Seq::empty()
                    },
                },
            ),
            Err(e) => Err(e),
        },
        Err(e) => Err(e),
    }
}

/// The positions in a line of the first `@`, of the bracket behind it, and
/// of the one that closes it.
pub open spec fn signature_places(line: Seq<char>) -> Option<(int, int, int)> {
    match find(line, "@"@) {
        Some(at) => match find_from(line, "("@, at) {
            Some(open) => match closing_paren(line, open, 0) {
                Some(close) => Some((at, open, close)),
                None => None,
            },
            None => None,
        },
        None => None,
    }
}

/// The function that a line declares or defines.
pub open spec fn function_in(line: Seq<char>, defs: Seq<(Seq<char>, DefView)>) -> Result<
    Option<FunctionView>,
    IrError,
> {
    match signature_places(line) {
        Some((at, open, close)) => match signature_of(
            line.subrange(at + 1, open),
            line.subrange(open + 1, close),
            return_type_text(line, at),
            defs,
            line,
        ) {
            Ok(s) => Ok(Some(s)),
            Err(e) => Err(e),
        },
        None => Ok(None),
    }
}

fn make_function(
    name: String,
    params_str: &str,
    ret_str: &str,
    defs: &[(String, IrStructDef)],
    line: &str,
) -> (r: Result<FunctionInfo, IrError>)
    ensures
        match (r, signature_of(name@, params_str@, ret_str@, defs_view(defs@), line@)) {
            (Ok(f), Ok(s)) => f@ == s,
            (Err(e), Err(x)) => e == x,
            _ => false,
        },
{
    let has_nounwind = contains(line, "nounwind");
    let return_type = match resolve_ir_type(ret_str, defs) {
        Ok(t) => t,
        Err(e) => {
            return Err(e);
        },
    };
    let params = match parse_ir_params_resolved(params_str, defs) {
        Ok(p) => p,
        Err(e) => {
            return Err(e);
        },
    };
    let (params, is_sret) = extract_sret(params);
    let mut annotations: Vec<Annotation> = Vec::new();
    assert(annotations_view(annotations@) =~= Seq::empty());
    if has_nounwind {
        annotations.push(Annotation::NoThrow);
        assert(annotations_view(annotations@) =~= seq![AnnotationView::NoThrow]);
    }
    let f = FunctionInfo {
        name,
        mangled_name: None,
        params,
        return_type: if is_sret {
            TypeInfo::Void
        } else {
            return_type
        },
        can_throw: !has_nounwind,
        is_virtual: false,
        has_body: starts_with(line, "define "),
        is_system: false,
        called_functions: Vec::new(),
        referenced_globals: Vec::new(),
        annotations,
    };
    assert(globals_view(f.referenced_globals@) =~= Seq::empty());
    Ok(f)
}

/// The positions in a line of the first `@`, of the bracket behind it, and
/// of the one that closes it.
pub fn find_signature(line: &str) -> (r: Option<(usize, usize, usize)>)
    ensures
        match r {
            Some((at, open, close)) => signature_places(line@) == Some(
                (at as int, open as int, close as int),
            ) && at < open && open < close && close < line@.len() && find(line@, "@"@) == Some(
                at as int,
            ),
            None => signature_places(line@) is None,
        },
{
    proof {
        reveal_strlit("(");
        reveal_strlit("@");
    }
    let cs = to_chars(line);
    let at_pos: usize = match find_chars(&cs, &to_chars("@"), 0) {
        Some(k) => k,
        None => {
            return None;
        },
    };
    proof {
        lemma_find_from(line@, "@"@, 0);
    }
    let open: usize = match find_chars(&cs, &to_chars("("), at_pos) {
        Some(k) => k,
        None => {
            return None;
        },
    };
    proof {
        lemma_find_from(line@, "("@, at_pos as int);
        assert(line@[at_pos as int] == line@.subrange(at_pos as int, at_pos + 1)[0]);
        assert(line@[open as int] == line@.subrange(open as int, open + 1)[0]);
        assert(at_pos != open);
    }
    let close: usize = match find_matching_paren(&cs, open) {
        Some(k) => k,
        None => {
            return None;
        },
    };
    assert(open != close);
    Some((at_pos, open, close))
}

/// The function that a line declares or defines; `None` for a line
/// without a parameter list.
pub fn parse_ir_function(line: &str, defs: &[(String, IrStructDef)]) -> (r: Result<
    Option<FunctionInfo>,
    IrError,
>)
    ensures
        match (r, function_in(line@, defs_view(defs@))) {
            (Ok(Some(f)), Ok(Some(s))) => f@ == s,
            (Ok(None), Ok(None)) => true,
            (Err(e), Err(x)) => e == x,
            _ => false,
        },
{
    let (at_pos, open, close) = match find_signature(line) {
        Some(places) => places,
        None => {
            return Ok(None);
        },
    };
    let cs = to_chars(line);
    let name = from_chars(&cs, at_pos + 1, open);
    let params_str = from_chars(&cs, open + 1, close);
    let ret_str = extract_return_type(line, at_pos);
    match make_function(name, params_str.as_str(), ret_str.as_str(), defs, line) {
        Ok(f) => Ok(Some(f)),
        Err(e) => Err(e),
    }
}

/// Does the line declare or define a function?
pub open spec fn function_line(line: Seq<char>) -> bool {
    starts(line, "declare "@) || starts(line, "define "@)
}

/// Is the function asked for?
pub open spec fn asked_for(name: Seq<char>, filter: Option<Seq<char>>) -> bool {
    match filter {
        Some(f) => mentions(name, f),
        None => true,
    }
}

/// The functions of the first `n` lines that are asked for.
pub open spec fn functions_in(
    lines: Seq<Seq<char>>,
    n: nat,
    filter: Option<Seq<char>>,
    defs: Seq<(Seq<char>, DefView)>,
) -> Result<Seq<FunctionView>, IrError>
    decreases n,
{
    if n == 0 {
        Ok(Seq::empty())
    } else {
        match functions_in(lines, (n - 1) as nat, filter, defs) {
            Ok(rest) => {
                let line = trim_text(lines[n - 1]);
                if function_line(line) {
                    match function_in(line, defs) {
                        Ok(Some(s)) => if asked_for(s.name, filter) {
                            Ok(rest.push(s))
                        } else {
                            Ok(rest)
                        },
                        Ok(None) => Ok(rest),
                        Err(e) => Err(e),
                    }
                } else {
                    Ok(rest)
                }
            },
            Err(e) => Err(e),
        }
    }
}

/// The functions of IR text that are asked for.
pub open spec fn ir_functions(ir: Seq<char>, filter: Option<Seq<char>>) -> Result<
    Seq<FunctionView>,
    IrError,
> {
    functions_in(lines_of(ir), lines_of(ir).len(), filter, defs_in(lines_of(ir)))
}

proof fn lemma_function_errors(
    lines: Seq<Seq<char>>,
    i: nat,
    n: nat,
    filter: Option<Seq<char>>,
    defs: Seq<(Seq<char>, DefView)>,
)
    requires
        i <= n,
        functions_in(lines, i, filter, defs) is Err,
    ensures
        functions_in(lines, n, filter, defs) == functions_in(lines, i, filter, defs),
    decreases n,
{
    if i < n {
        lemma_function_errors(lines, i, (n - 1) as nat, filter, defs);
    }
}

/// The functions that IR text declares or defines, in order: those whose
/// names contain the filter. An error comes exactly where a type that one
/// of them uses has no layout.
pub fn extract_functions(ir: &str, filter: Option<&str>) -> (r: Result<Vec<FunctionInfo>, IrError>)
    ensures
        match (r, ir_functions(ir@, opt_view(filter))) {
            (Ok(v), Ok(s)) => functions_view(v@) == s,
            (Err(e), Err(x)) => e == x,
            _ => false,
        },
{
    let defs = parse_struct_types(ir);
    let all = lines(ir);
    let ghost v = lines_of(ir@);
    let ghost d = defs_view(defs@);
    let ghost f = opt_view(filter);
    let mut functions: Vec<FunctionInfo> = Vec::new();
    assert(functions_view(functions@) =~= Seq::empty());
    let mut i: usize = 0;
    while i < all.len()
        invariant
            v == views(all@),
            d == defs_view(defs@),
            f == opt_view(filter),
            ir_functions(ir@, f) == functions_in(v, v.len(), f, d),
            i <= all@.len(),
            functions_in(v, i as nat, f, d) == Ok::<Seq<FunctionView>, IrError>(
                functions_view(functions@),
            ),
        decreases all@.len() - i,
    {
        assert(v[i as int] == all@[i as int]@);
        let line = trim(all[i].as_str());
        if starts_with(line, "declare ") || starts_with(line, "define ") {
            match parse_ir_function(line, defs.as_slice()) {
                Ok(Some(func)) => {
                    let matches = match filter {
                        Some(p) => contains(func.name.as_str(), p),
                        None => true,
                    };
                    if matches {
                        let ghost before = functions_view(functions@);
                        let ghost e = func@;
                        functions.push(func);
                        assert(functions_view(functions@) =~= before.push(e));
                    }
                },
                Ok(None) => {},
                Err(e) => {
                    proof {
                        lemma_function_errors(v, (i + 1) as nat, v.len(), f, d);
                    }
                    return Err(e);
                },
            }
        }
        i += 1;
    }
    Ok(functions)
}

/// A filter only leaves functions out: it changes neither their order nor
/// what is refused.
pub proof fn law_ir_filter_selects(
    lines: Seq<Seq<char>>,
    n: nat,
    filter: Option<Seq<char>>,
    defs: Seq<(Seq<char>, DefView)>,
)
    ensures
        functions_in(lines, n, filter, defs) == match functions_in(lines, n, None, defs) {
            Ok(all) => Ok::<Seq<FunctionView>, IrError>(
                all.filter(|f: FunctionView| asked_for(f.name, filter)),
            ),
            Err(e) => Err(e),
        },
    decreases n,
{
    let keep = |f: FunctionView| asked_for(f.name, filter);
    reveal(Seq::filter);
    if n > 0 {
        law_ir_filter_selects(lines, (n - 1) as nat, filter, defs);
        if let Ok(rest) = functions_in(lines, (n - 1) as nat, None, defs) {
            if let Ok(Some(f)) = function_in(trim_text(lines[n - 1]), defs) {
                assert(rest.push(f).drop_last() =~= rest);
            }
        }
    }
}

/// A function whose result is held by a parameter returns nothing itself,
/// and that parameter comes first, written and never null.
pub proof fn law_result_parameter_comes_first(
    name: Seq<char>,
    params: Seq<char>,
    result: Seq<char>,
    defs: Seq<(Seq<char>, DefView)>,
    line: Seq<char>,
)
    requires
        signature_of(name, params, result, defs, line) is Ok,
        result_param(list_params(params, defs)->Ok_0, 0) is Some,
    ensures
        ({
            let s = signature_of(name, params, result, defs, line)->Ok_0;
            &&& s.return_type is Void
            &&& s.params.len() == list_params(params, defs)->Ok_0.len()
            &&& s.params[0].mutability is WriteOnly
            &&& s.params[0].nullable is NonNull
            &&& !holds_result(s.params[0])
        }),
{
    let ps = list_params(params, defs)->Ok_0;
    lemma_result_param(ps, 0);
    let k = result_param(ps, 0)->0;
    lemma_without_sret(ps[k].annotations);
}

proof fn lemma_result_param(params: Seq<ParamView>, i: int)
    requires
        0 <= i,
    ensures
        result_param(params, i) matches Some(k) ==> i <= k < params.len(),
    decreases params.len() - i,
{
    if i < params.len() && !holds_result(params[i]) {
        lemma_result_param(params, i + 1);
    }
}

proof fn lemma_without_sret(v: Seq<AnnotationView>)
    ensures
        !without_sret(v).contains(AnnotationView::Custom("sret"@)),
    decreases v.len(),
{
    if v.len() > 0 {
        lemma_without_sret(v.drop_last());
    }
}

/// The size in bytes above which IR text is not read.
pub const MAX_IR_FILE_SIZE: u64 = 209715200;

/// What is said of a file of IR text that is too large.
pub open spec fn ir_size_text(path: Seq<char>, size: nat) -> Seq<char> {
    "LLVM IR file "@ + path + " is too large ("@ + dec(size / 1048576) + " MB, limit is "@
        + dec(MAX_IR_FILE_SIZE as nat / 1048576) + " MB). To reduce size, try:\n\n"@
        + "  1. Use opt --passes=internalize,globaldce to strip unused functions\n\n"@
        + "  2. Use llvm-extract to pull out specific functions\n\n"@
        + "  3. Use --filter to process only matching functions after loading"@
}

/// What is said of a file of IR text of the given size, where it is too
/// large.
pub fn ir_size_error(path: &str, size: u64) -> (r: Option<String>)
    ensures
        opt_string(r) == if size > MAX_IR_FILE_SIZE {
            Some(ir_size_text(path@, size as nat))
        } else {
            None
        },
{
    if size <= MAX_IR_FILE_SIZE {
        return None;
    }
    let mut r = String::new();
    put3(&mut r, "LLVM IR file ", path, " is too large (");
    put_dec(&mut r, (size / 1048576) as u128);
    put(&mut r, " MB, limit is ");
    put_dec(&mut r, (MAX_IR_FILE_SIZE / 1048576) as u128);
    put(&mut r, " MB). To reduce size, try:\n\n");
    put(&mut r, "  1. Use opt --passes=internalize,globaldce to strip unused functions\n\n");
    put(&mut r, "  2. Use llvm-extract to pull out specific functions\n\n");
    put(&mut r, "  3. Use --filter to process only matching functions after loading");
    Some(r)
}

} // verus!
