//! The compiled Rust function that is to be verified: its symbol, its
//! signature, and the global variables of its module.

use vstd::prelude::*;
use vstd::utf8::*;

use crate::constraints::{
    functions_view, params_view, type_view, FunctionInfo, FunctionView, Mutability, ParamInfo,
    ParamView, TypeInfo, TypeView,
};
use crate::gen_verify_rust_classify::{
    ReturnView, RustReturnKind, classify_return, classify_sret_return, direct_return,
    format_return_llvm_type, hidden_return, int_type, int_width, make_int_type, opt_kind,
    return_ir, type_int_bits,
};
use crate::ir_layout::{
    defs_in, defs_view, parse_struct_types, resolve_ir_type, resolved, DefView, IrError, IrStructDef,
};
use crate::json::{
    JsonView, all_held, array_value, json_held, members_held, null_value, number_value,
    object_value, pretty_text, text_value, to_pretty,
};
use crate::llvm_ir::{extract_functions, find_signature, ir_functions, signature_places};
use crate::text::{
    CharSet, after_prefix, all_chars, all_in, contains, cut, dec, ends, ends_with, from_chars,
    group_append, group_views, join, joined, lines, lines_of, list_has, mentions, opt_string,
    owned, parse_bounded, parsed, pieces, put, put2, put3, put5, put_dec, same, split, split_once,
    split_whitespace, starts, starts_with, strip_prefix, to_chars, trim, trim_start, trim_text,
    trimmed_start, views, words,
};

verus! {

/// A parameter of the verified function.
#[derive(Debug, PartialEq, Eq)]
pub struct RustVerifyParam {
    pub index: usize,
    pub name: String,
    pub bits: u32,
    pub llvm_type: String,
    /// The values that the compiler promises: from the first on, below the
    /// second.
    pub range: Option<(u64, u64)>,
}

/// A parameter of the verified function, apart from how it is stored.
pub ghost struct VerifyParamView {
    pub index: nat,
    pub name: Seq<char>,
    pub bits: u32,
    pub llvm_type: Seq<char>,
    pub range: Option<(u64, u64)>,
}

impl View for RustVerifyParam {
    type V = VerifyParamView;

    open spec fn view(&self) -> VerifyParamView {
        VerifyParamView {
            index: self.index as nat,
            name: self.name@,
            bits: self.bits,
            llvm_type: self.llvm_type@,
            range: self.range,
        }
    }
}

pub open spec fn verify_params_view(v: Seq<RustVerifyParam>) -> Seq<VerifyParamView> {
    Seq::new(v.len(), |i: int| v[i]@)
}

/// What is known of the verified function.
#[derive(Debug, PartialEq, Eq)]
pub struct RustVerifyArtifacts {
    pub mangled_name: String,
    pub params: Vec<RustVerifyParam>,
    pub return_kind: RustReturnKind,
    pub return_llvm_type: String,
    pub globals: Vec<String>,
}

/// What is known of the verified function, apart from how it is stored.
pub ghost struct ArtifactsView {
    pub mangled_name: Seq<char>,
    pub params: Seq<VerifyParamView>,
    pub return_kind: ReturnView,
    pub return_llvm_type: Seq<char>,
    pub globals: Seq<Seq<char>>,
}

impl View for RustVerifyArtifacts {
    type V = ArtifactsView;

    open spec fn view(&self) -> ArtifactsView {
        ArtifactsView {
            mangled_name: self.mangled_name@,
            params: verify_params_view(self.params@),
            return_kind: self.return_kind@,
            return_llvm_type: self.return_llvm_type@,
            globals: views(self.globals@),
        }
    }
}

// ---------------------------------------------------------------------
// Ranges of parameters
// ---------------------------------------------------------------------

/// The items of a parameter list, the current one having begun at
/// `start`: commas outside round brackets part them. A blank item at the
/// end is none.
pub open spec fn bracketed_items(s: Seq<char>, start: int, i: int, depth: int) -> Seq<Seq<char>>
    decreases s.len() - i,
{
    if i < 0 || i >= s.len() {
        let last = trim_text(s.subrange(start, s.len() as int));
        if last.len() == 0 {
            Seq::empty()
        } else {
            seq![last]
        }
    } else if s[i] == '(' {
        bracketed_items(s, start, i + 1, depth + 1)
    } else if s[i] == ')' {
        bracketed_items(s, start, i + 1, depth - 1)
    } else if s[i] == ',' && depth == 0 {
        seq![trim_text(s.subrange(start, i))] + bracketed_items(s, i + 1, i + 1, depth)
    } else {
        bracketed_items(s, start, i + 1, depth)
    }
}

/// Splits a parameter list at the commas outside round brackets.
pub fn split_ir_params(s: &str) -> (r: Vec<String>)
    ensures
        views(r@) == bracketed_items(s@, 0, 0, 0),
{
    broadcast use {group_append, group_views};
    let cs = to_chars(s);
    let n: usize = cs.len();
    let ghost want = bracketed_items(s@, 0, 0, 0);
    let mut r: Vec<String> = Vec::new();
    let mut start: usize = 0;
    let mut i: usize = 0;
    let mut depth: i128 = 0;
    assert(views(r@) + want =~= want);
    while i < n
        invariant
            cs@ == s@,
            n == cs@.len(),
            start <= i <= n,
            -(i as int) <= depth <= i,
            views(r@) + bracketed_items(s@, start as int, i as int, depth as int) == want,
        decreases n - i,
    {
        let c: char = cs[i];
        if c == '(' {
            depth += 1;
        } else if c == ')' {
            depth -= 1;
        } else if c == ',' && depth == 0 {
            let item = from_chars(&cs, start, i);
            r.push(owned(trim(item.as_str())));
            start = i + 1;
            assert(views(r@) + bracketed_items(s@, i + 1, i + 1, depth as int) =~= want);
        }
        i += 1;
    }
    let item = from_chars(&cs, start, n);
    let last = trim(item.as_str());
    if !last.is_empty() {
        r.push(owned(last));
    }
    assert(views(r@) =~= want);
    r
}

/// The range of a parameter, where one is written.
pub open spec fn range_in(param: Seq<char>) -> Option<(u64, u64)> {
    match cut(param, "range("@) {
        Some((_, rest)) => match cut(rest, ")"@) {
            Some((inner, _)) => {
                let ps = pieces(inner, CharSet::Is(','));
                if ps.len() >= 2 {
                    match (
                        parsed(trim_text(ps[0]), u64::MAX as nat),
                        parsed(trim_text(ps[1]), u64::MAX as nat),
                    ) {
                        (Some(lo), Some(hi)) => Some((lo as u64, hi as u64)),
                        _ => None,
                    }
                } else {
                    None
                }
            },
            None => None,
        },
        None => None,
    }
}

/// The ranges of the parameters of a list.
pub open spec fn ranges_in(params: Seq<char>) -> Seq<Option<(u64, u64)>> {
    let items = bracketed_items(params, 0, 0, 0);
    Seq::new(items.len(), |i: int| range_in(items[i]))
}

/// The range of a parameter, where one is written.
pub fn extract_single_range(param: &str) -> (r: Option<(u64, u64)>)
    ensures
        r == range_in(param@),
{
    match split_once(param, "range(") {
        Some((_, rest)) => match split_once(rest, ")") {
            Some((inner, _)) => {
                let ps = split(inner, CharSet::Is(','));
                if ps.len() < 2 {
                    return None;
                }
                match (
                    parse_bounded(trim(ps[0].as_str()), u64::MAX),
                    parse_bounded(trim(ps[1].as_str()), u64::MAX),
                ) {
                    (Some(lo), Some(hi)) => Some((lo, hi)),
                    _ => None,
                }
            },
            None => None,
        },
        None => None,
    }
}

/// The ranges of the parameters of a list.
pub fn extract_param_ranges(params_str: &str) -> (r: Vec<Option<(u64, u64)>>)
    ensures
        r@ == ranges_in(params_str@),
{
    broadcast use {group_append, group_views};
    let items = split_ir_params(params_str);
    let ghost v = bracketed_items(params_str@, 0, 0, 0);
    let mut r: Vec<Option<(u64, u64)>> = Vec::new();
    let mut i: usize = 0;
    while i < items.len()
        invariant
            v == views(items@),
            i <= items@.len(),
            r@.len() == i,
            forall|k: int| 0 <= k < i ==> #[trigger] r@[k] == range_in(v[k]),
        decreases items@.len() - i,
    {
        assert(v[i as int] == items@[i as int]@);
        r.push(extract_single_range(items[i].as_str()));
        i += 1;
    }
    assert(r@ =~= ranges_in(params_str@));
    r
}

// ---------------------------------------------------------------------
// Parameter lists
// ---------------------------------------------------------------------

/// The parameter list in the line that defines the function of the given
/// name.
pub open spec fn line_list(line: Seq<char>, name: Seq<char>) -> Option<Seq<char>> {
    let t = trim_text(line);
    if starts(t, "define "@) {
        match signature_places(t) {
            Some((at, open, close)) => if t.subrange(at + 1, open) == name {
                Some(t.subrange(open + 1, close))
            } else {
                None
            },
            None => None,
        }
    } else {
        None
    }
}

/// The parameter list of the function of the given name: that of its last
/// definition among the first `n` lines.
pub open spec fn list_of(lines: Seq<Seq<char>>, name: Seq<char>, n: int) -> Option<Seq<char>>
    decreases n,
{
    if n <= 0 || n > lines.len() {
        None
    } else if line_list(lines[n - 1], name) is Some {
        line_list(lines[n - 1], name)
    } else {
        list_of(lines, name, n - 1)
    }
}

fn read_line_list(line: &str, name: &str) -> (r: Option<String>)
    ensures
        opt_string(r) == line_list(line@, name@),
{
    let t = trim(line);
    if !starts_with(t, "define ") {
        return None;
    }
    match find_signature(t) {
        Some((at_pos, open, close)) => {
            let cs = to_chars(t);
            if same(from_chars(&cs, at_pos + 1, open).as_str(), name) {
                Some(from_chars(&cs, open + 1, close))
            } else {
                None
            }
        },
        None => None,
    }
}

fn find_list(lines: &Vec<String>, name: &str) -> (r: Option<String>)
    ensures
        opt_string(r) == list_of(views(lines@), name@, lines@.len() as int),
{
    broadcast use {group_append, group_views};
    let ghost all = views(lines@);
    let mut n: usize = lines.len();
    while n > 0
        invariant
            all == views(lines@),
            n <= lines@.len(),
            list_of(all, name@, all.len() as int) == list_of(all, name@, n as int),
        decreases n,
    {
        assert(all[n - 1] == lines@[n - 1]@);
        let found = read_line_list(lines[n - 1].as_str(), name);
        if found.is_some() {
            return found;
        }
        n -= 1;
    }
    None
}

/// The ranges of the parameters, where the list is known.
pub open spec fn ranges_of(list: Option<Seq<char>>) -> Option<Seq<Option<(u64, u64)>>> {
    match list {
        Some(text) => Some(ranges_in(text)),
        None => None,
    }
}

fn parse_range_attrs(list: &Option<String>) -> (r: Option<Vec<Option<(u64, u64)>>>)
    ensures
        opt_ranges(r) == ranges_of(opt_string(*list)),
{
    match list {
        Some(text) => Some(extract_param_ranges(text.as_str())),
        None => None,
    }
}

/// The type of the result that a parameter list says to be returned
/// through memory.
pub open spec fn memory_result(list: Seq<char>, defs: Seq<(Seq<char>, DefView)>) -> Option<TypeView> {
    match cut(list, "sret("@) {
        Some((_, rest)) => match cut(rest, ")"@) {
            Some((ty, _)) => match resolved(ty, defs, defs.len()) {
                Ok(t) => Some(t),
                Err(_) => None,
            },
            None => None,
        },
        None => None,
    }
}

pub open spec fn opt_type(o: Option<TypeInfo>) -> Option<TypeView> {
    match o {
        Some(t) => Some(t@),
        None => None,
    }
}

fn read_memory_result(list: &str, defs: &[(String, IrStructDef)]) -> (r: Option<TypeInfo>)
    ensures
        opt_type(r) == memory_result(list@, defs_view(defs@)),
{
    match split_once(list, "sret(") {
        Some((_, rest)) => match split_once(rest, ")") {
            Some((ty, _)) => match resolve_ir_type(ty, defs) {
                Ok(t) => Some(t),
                Err(_) => None,
            },
            None => None,
        },
        None => None,
    }
}

// ---------------------------------------------------------------------
// Global variables
// ---------------------------------------------------------------------

/// Do the words from `i` on say that a variable is defined which may be
/// changed?
pub open spec fn defines_variable(words: Seq<Seq<char>>, i: int) -> bool
    decreases words.len() - i,
{
    if i < 0 || i >= words.len() {
        false
    } else if !all_in(words[i], CharSet::Word) {
        false
    } else if words[i] == "global"@ {
        true
    } else if words[i] == "constant"@ || words[i] == "alias"@ || words[i] == "ifunc"@ {
        false
    } else {
        defines_variable(words, i + 1)
    }
}

/// Does the text say that a variable is defined which may be changed?
pub fn contains_global_keyword(tail: &str) -> (r: bool)
    ensures
        r == defines_variable(words(tail@), 0),
{
    broadcast use {group_append, group_views};
    let toks = split_whitespace(tail);
    let ghost v = words(tail@);
    let mut i: usize = 0;
    while i < toks.len()
        invariant
            v == views(toks@),
            v == words(tail@),
            i <= toks@.len(),
            defines_variable(v, 0) == defines_variable(v, i as int),
        decreases toks@.len() - i,
    {
        assert(v[i as int] == toks@[i as int]@);
        let tok = toks[i].as_str();
        if !all_chars(tok, CharSet::Word) {
            return false;
        }
        if same(tok, "global") {
            return true;
        }
        if same(tok, "constant") || same(tok, "alias") || same(tok, "ifunc") {
            return false;
        }
        i += 1;
    }
    false
}

/// A name without the quotes around it.
pub open spec fn unquoted(name: Seq<char>) -> Seq<char> {
    if starts(name, "\""@) && ends(name, "\""@) && name.len() >= 2 {
        name.subrange(1, name.len() - 1)
    } else {
        name
    }
}

/// The variable that a line defines, where it may be changed and is not
/// one of an import table.
pub open spec fn variable_in(line: Seq<char>) -> Option<Seq<char>> {
    match after_prefix(trimmed_start(line, CharSet::Space), "@"@) {
        Some(rest) => match cut(rest, "="@) {
            Some((head, tail)) => {
                let name = unquoted(trim_text(head));
                if trim_text(head).len() > 0 && !mentions(name, "__imp_"@) && defines_variable(
                    words(trimmed_start(tail, CharSet::Space)),
                    0,
                ) {
                    Some(name)
                } else {
                    None
                }
            },
            None => None,
        },
        None => None,
    }
}

/// The variables that the lines define, each once.
pub open spec fn variables_in(lines: Seq<Seq<char>>) -> Seq<Seq<char>>
    decreases lines.len(),
{
    if lines.len() == 0 {
        Seq::empty()
    } else {
        let rest = variables_in(lines.drop_last());
        match variable_in(lines.last()) {
            Some(name) => if rest.contains(name) {
                rest
            } else {
                rest.push(name)
            },
            None => rest,
        }
    }
}

/// Each variable is listed once, and none is left out.
pub proof fn law_variables_listed_once(lines: Seq<Seq<char>>)
    ensures
        variables_in(lines).no_duplicates(),
        forall|i: int|
            0 <= i < lines.len() ==> (variable_in(#[trigger] lines[i]) matches Some(name)
                ==> variables_in(lines).contains(name)),
    decreases lines.len(),
{
    if lines.len() > 0 {
        law_variables_listed_once(lines.drop_last());
        let rest = variables_in(lines.drop_last());
        let all = variables_in(lines);
        assert forall|i: int| 0 <= i < lines.len() implies (variable_in(#[trigger] lines[i]) matches Some(
            name,
        ) ==> all.contains(name)) by {
            if let Some(name) = variable_in(lines[i]) {
                if i < lines.len() - 1 {
                    assert(lines.drop_last()[i] == lines[i]);
                    let k = choose|k: int| 0 <= k < rest.len() && rest[k] == name;
                    assert(all[k] == name);
                } else if !rest.contains(name) {
                    assert(all[all.len() - 1] == name);
                }
            }
        }
    }
}

fn read_variable(line: &str) -> (r: Option<String>)
    ensures
        opt_string(r) == variable_in(line@),
{
    match strip_prefix(trim_start(line, CharSet::Space), "@") {
        Some(rest) => match split_once(rest, "=") {
            Some((head, tail)) => {
                let head = trim(head);
                if head.is_empty() {
                    return None;
                }
                let n: usize = head.unicode_len();
                let name = if starts_with(head, "\"") && ends_with(head, "\"") && n >= 2 {
                    head.substring_char(1, n - 1)
                } else {
                    head
                };
                if contains(name, "__imp_") {
                    return None;
                }
                if contains_global_keyword(trim_start(tail, CharSet::Space)) {
                    Some(owned(name))
                } else {
                    None
                }
            },
            None => None,
        },
        None => None,
    }
}

/// The global variables of IR text that may be changed.
pub fn scan_globals(ir: &str) -> (r: Vec<String>)
    ensures
        views(r@) == variables_in(lines_of(ir@)),
{
    broadcast use {group_append, group_views};
    let all = lines(ir);
    let ghost v = lines_of(ir@);
    let mut r: Vec<String> = Vec::new();
    let mut i: usize = 0;
    assert(v.take(0) =~= Seq::empty());
    while i < all.len()
        invariant
            v == views(all@),
            i <= all@.len(),
            views(r@) == variables_in(v.take(i as int)),
        decreases all@.len() - i,
    {
        assert(v.take(i + 1).drop_last() =~= v.take(i as int));
        assert(v.take(i + 1).last() == all@[i as int]@);
        if let Some(name) = read_variable(all[i].as_str()) {
            if !list_has(&r, name.as_str()) {
                r.push(name);
            }
        }
        i += 1;
    }
    assert(v.take(v.len() as int) =~= v);
    r
}

// ---------------------------------------------------------------------
// Candidates
// ---------------------------------------------------------------------

/// A function that may be the verified one.
struct ResolvedCandidate {
    name: String,
    params: Vec<RustVerifyParam>,
    return_kind: RustReturnKind,
    return_llvm_type: String,
}

/// A function that may be the verified one.
pub ghost struct CandidateView {
    pub name: Seq<char>,
    pub params: Seq<VerifyParamView>,
    pub return_kind: ReturnView,
    pub return_llvm_type: Seq<char>,
}

impl View for ResolvedCandidate {
    type V = CandidateView;

    closed spec fn view(&self) -> CandidateView {
        CandidateView {
            name: self.name@,
            params: verify_params_view(self.params@),
            return_kind: self.return_kind@,
            return_llvm_type: self.return_llvm_type@,
        }
    }
}

/// Does the first parameter hold the result?
pub open spec fn has_hidden_result(params: Seq<ParamView>) -> bool {
    params.len() > 0 && params[0].mutability is WriteOnly && int_width(params[0].ty) is None
}

/// The range at a place, where there is one.
pub open spec fn range_at(ranges: Option<Seq<Option<(u64, u64)>>>, i: int) -> Option<(u64, u64)> {
    match ranges {
        Some(v) => if 0 <= i < v.len() {
            v[i]
        } else {
            None
        },
        None => None,
    }
}

/// A parameter of the verified function: its number, its width, and its
/// range.
pub open spec fn verify_param(i: nat, bits: u32, range: Option<(u64, u64)>) -> VerifyParamView {
    VerifyParamView { index: i, name: "x"@ + dec(i), bits, llvm_type: int_type(bits), range }
}

/// The parameters behind the first `skip`, the first `n` of them; `None`
/// where one is no integer.
pub open spec fn verify_params(
    params: Seq<ParamView>,
    skip: nat,
    ranges: Option<Seq<Option<(u64, u64)>>>,
    n: nat,
) -> Option<Seq<VerifyParamView>>
    decreases n,
{
    if n == 0 {
        Some(Seq::empty())
    } else {
        let i = (n - 1) as nat;
        match (verify_params(params, skip, ranges, i), int_width(params[(skip + i) as int].ty)) {
            (Some(rest), Some(bits)) => Some(
                rest.push(verify_param(i, bits, range_at(ranges, (skip + i) as int))),
            ),
            _ => None,
        }
    }
}

/// The type of the result of a function that returns it through memory.
pub open spec fn promoted_return(
    f: FunctionView,
    list: Option<Seq<char>>,
    defs: Seq<(Seq<char>, DefView)>,
) -> TypeView {
    match list {
        Some(text) => match memory_result(text, defs) {
            Some(ty) => ty,
            None => f.return_type,
        },
        None => f.return_type,
    }
}

/// The function as a candidate; `None` where its signature is not
/// handled.
pub open spec fn candidate_of(
    f: FunctionView,
    list: Option<Seq<char>>,
    defs: Seq<(Seq<char>, DefView)>,
) -> Option<CandidateView> {
    let skip: nat = if has_hidden_result(f.params) {
        1
    } else {
        0
    };
    let kind = if has_hidden_result(f.params) {
        hidden_return(promoted_return(f, list, defs))
    } else {
        direct_return(f.return_type)
    };
    match (verify_params(f.params, skip, ranges_of(list), (f.params.len() - skip) as nat), kind) {
        (Some(params), Some(return_kind)) => Some(
            CandidateView {
                name: f.name,
                params,
                return_kind,
                return_llvm_type: return_ir(return_kind),
            },
        ),
        _ => None,
    }
}

fn make_verify_param(i: usize, bits: u32, range: Option<(u64, u64)>) -> (r: RustVerifyParam)
    ensures
        r@ == verify_param(i as nat, bits, range),
{
    broadcast use {group_append, group_views};
    let mut name = String::new();
    put(&mut name, "x");
    put_dec(&mut name, i as u128);
    RustVerifyParam { index: i, name, bits, llvm_type: make_int_type(bits), range }
}

proof fn lemma_no_params(
    params: Seq<ParamView>,
    skip: nat,
    ranges: Option<Seq<Option<(u64, u64)>>>,
    i: nat,
    n: nat,
)
    requires
        i <= n,
        verify_params(params, skip, ranges, i) is None,
    ensures
        verify_params(params, skip, ranges, n) is None,
    decreases n,
{
    if i < n {
        lemma_no_params(params, skip, ranges, i, (n - 1) as nat);
    }
}

pub open spec fn opt_ranges(o: Option<Vec<Option<(u64, u64)>>>) -> Option<
    Seq<Option<(u64, u64)>>,
> {
    match o {
        Some(v) => Some(v@),
        None => None,
    }
}

fn find_range(ranges: &Option<Vec<Option<(u64, u64)>>>, i: usize) -> (r: Option<(u64, u64)>)
    ensures
        r == range_at(opt_ranges(*ranges), i as int),
{
    match ranges {
        Some(v) => if i < v.len() {
            v[i]
        } else {
            None
        },
        None => None,
    }
}

fn make_verify_params(
    params: &Vec<ParamInfo>,
    skip: usize,
    ranges: &Option<Vec<Option<(u64, u64)>>>,
) -> (r: Option<Vec<RustVerifyParam>>)
    requires
        skip <= params@.len(),
    ensures
        match r {
            Some(v) => verify_params(
                params_view(params@),
                skip as nat,
                opt_ranges(*ranges),
                (params@.len() - skip) as nat,
            ) == Some(verify_params_view(v@)),
            None => verify_params(
                params_view(params@),
                skip as nat,
                opt_ranges(*ranges),
                (params@.len() - skip) as nat,
            ) is None,
        },
{
    let ghost ps = params_view(params@);
    let ghost rs = opt_ranges(*ranges);
    let total: usize = params.len();
    let n: usize = total - skip;
    let mut r: Vec<RustVerifyParam> = Vec::new();
    assert(verify_params_view(r@) =~= Seq::empty());
    let mut i: usize = 0;
    while i < n
        invariant
            ps == params_view(params@),
            rs == opt_ranges(*ranges),
            total == params@.len(),
            skip + n == total,
            i <= n,
            verify_params(ps, skip as nat, rs, i as nat) == Some(verify_params_view(r@)),
        decreases n - i,
    {
        assert(ps[skip + i] == params@[skip + i]@);
        match type_int_bits(&params[skip + i].ty) {
            Some(bits) => {
                let ghost before = verify_params_view(r@);
                let p = make_verify_param(i, bits, find_range(ranges, skip + i));
                let ghost e = p@;
                r.push(p);
                assert(verify_params_view(r@) =~= before.push(e));
            },
            None => {
                proof {
                    lemma_no_params(ps, skip as nat, rs, (i + 1) as nat, n as nat);
                }
                return None;
            },
        }
        i += 1;
    }
    Some(r)
}

fn classify_promoted(
    f: &FunctionInfo,
    list: &Option<String>,
    defs: &[(String, IrStructDef)],
) -> (r: Option<RustReturnKind>)
    ensures
        opt_kind(r) == hidden_return(
            promoted_return(f@, opt_string(*list), defs_view(defs@)),
        ),
{
    if let Some(text) = list {
        if let Some(ty) = read_memory_result(text.as_str(), defs) {
            return classify_sret_return(&ty);
        }
    }
    classify_sret_return(&f.return_type)
}

fn try_resolve_candidate(
    f: &FunctionInfo,
    list: &Option<String>,
    defs: &[(String, IrStructDef)],
) -> (r: Option<ResolvedCandidate>)
    ensures
        match r {
            Some(c) => candidate_of(f@, opt_string(*list), defs_view(defs@)) == Some(c@),
            None => candidate_of(f@, opt_string(*list), defs_view(defs@)) is None,
        },
{
    let ghost ps = params_view(f.params@);
    assert(ps.len() > 0 ==> ps[0] == f.params@[0]@);
    let has_sret = f.params.len() > 0 && match f.params[0].mutability {
        Mutability::WriteOnly => true,
        _ => false,
    } && type_int_bits(&f.params[0].ty).is_none();
    let skip: usize = if has_sret {
        1
    } else {
        0
    };
    let ranges = parse_range_attrs(list);
    let params = match make_verify_params(&f.params, skip, &ranges) {
        Some(p) => p,
        None => {
            return None;
        },
    };
    let kind = if has_sret {
        classify_promoted(f, list, defs)
    } else {
        classify_return(&f.return_type)
    };
    match kind {
        Some(return_kind) => {
            let return_llvm_type = format_return_llvm_type(&return_kind);
            Some(
                ResolvedCandidate { name: f.name.clone(), params, return_kind, return_llvm_type },
            )
        },
        None => None,
    }
}

// ---------------------------------------------------------------------
// The verified function
// ---------------------------------------------------------------------

/// The end of the mangled name of a function: its length in bytes and its
/// name.
pub open spec fn name_suffix(function: Seq<char>) -> Seq<char> {
    dec(encode_utf8(function).len()) + function
}

/// Is the function defined, under a mangled name that ends so?
pub open spec fn name_matches(f: FunctionView, suffix: Seq<char>) -> bool {
    f.has_body && ends(f.name, suffix)
}

/// The names of those of the first `n` functions that match.
pub open spec fn matching_names(fs: Seq<FunctionView>, suffix: Seq<char>, n: nat) -> Seq<Seq<char>>
    decreases n,
{
    if n == 0 {
        Seq::empty()
    } else if name_matches(fs[n - 1], suffix) {
        matching_names(fs, suffix, (n - 1) as nat).push(fs[n - 1].name)
    } else {
        matching_names(fs, suffix, (n - 1) as nat)
    }
}

/// The candidates among the first `n` functions.
pub open spec fn candidates_in(
    fs: Seq<FunctionView>,
    suffix: Seq<char>,
    lines: Seq<Seq<char>>,
    n: nat,
) -> Seq<CandidateView>
    decreases n,
{
    if n == 0 {
        Seq::empty()
    } else {
        let rest = candidates_in(fs, suffix, lines, (n - 1) as nat);
        let f = fs[n - 1];
        if name_matches(f, suffix) {
            match candidate_of(f, list_of(lines, f.name, lines.len() as int), defs_in(lines)) {
                Some(c) => rest.push(c),
                None => rest,
            }
        } else {
            rest
        }
    }
}

/// The length of a name in bytes.
pub open spec fn name_len(c: CandidateView) -> nat {
    encode_utf8(c.name).len()
}

/// The least length among the first `n` candidates.
pub open spec fn least_len(cs: Seq<CandidateView>, n: nat) -> nat
    decreases n,
{
    if n <= 1 {
        name_len(cs[0])
    } else {
        let rest = least_len(cs, (n - 1) as nat);
        if name_len(cs[n - 1]) < rest {
            name_len(cs[n - 1])
        } else {
            rest
        }
    }
}

/// The candidates of the given length among the first `n`.
pub open spec fn of_len(cs: Seq<CandidateView>, len: nat, n: nat) -> Seq<CandidateView>
    decreases n,
{
    if n == 0 {
        Seq::empty()
    } else if name_len(cs[n - 1]) == len {
        of_len(cs, len, (n - 1) as nat).push(cs[n - 1])
    } else {
        of_len(cs, len, (n - 1) as nat)
    }
}

pub open spec fn candidate_names(cs: Seq<CandidateView>) -> Seq<Seq<char>> {
    Seq::new(cs.len(), |i: int| cs[i].name)
}

/// Why the verified function cannot be told.
#[derive(Debug, PartialEq, Eq)]
pub enum ResolveError {
    /// A type has no layout.
    Ir(IrError),
    /// No defined function has such a name.
    NoSymbol,
    /// No function of such a name has a signature that is handled.
    NoCompatible { names: Vec<String> },
    /// More than one has, and their names are of one length.
    Ambiguous { tied: Vec<String> },
}

/// Why the verified function cannot be told, apart from how that is
/// stored.
pub ghost enum ResolveErrorView {
    Ir(IrError),
    NoSymbol,
    NoCompatible { names: Seq<Seq<char>> },
    Ambiguous { tied: Seq<Seq<char>> },
}

impl View for ResolveError {
    type V = ResolveErrorView;

    open spec fn view(&self) -> ResolveErrorView {
        match *self {
            ResolveError::Ir(e) => ResolveErrorView::Ir(e),
            ResolveError::NoSymbol => ResolveErrorView::NoSymbol,
            ResolveError::NoCompatible { names } => ResolveErrorView::NoCompatible {
                names: views(names@),
            },
            ResolveError::Ambiguous { tied } => ResolveErrorView::Ambiguous { tied: views(tied@) },
        }
    }
}

/// The candidate with the shortest name, where there is only one.
pub open spec fn chosen(cs: Seq<CandidateView>, names: Seq<Seq<char>>) -> Result<
    CandidateView,
    ResolveErrorView,
> {
    if names.len() == 0 {
        Err(ResolveErrorView::NoSymbol)
    } else if cs.len() == 0 {
        Err(ResolveErrorView::NoCompatible { names })
    } else {
        let tied = of_len(cs, least_len(cs, cs.len()), cs.len());
        if tied.len() >= 2 {
            Err(ResolveErrorView::Ambiguous { tied: candidate_names(tied) })
        } else {
            Ok(tied[0])
        }
    }
}

proof fn lemma_least_is_least(cs: Seq<CandidateView>, n: nat, j: int)
    requires
        n <= cs.len(),
        0 <= j < n,
    ensures
        least_len(cs, n) <= name_len(cs[j]),
    decreases n,
{
    if j < n - 1 {
        lemma_least_is_least(cs, (n - 1) as nat, j);
    }
}

proof fn lemma_of_len(cs: Seq<CandidateView>, len: nat, n: nat)
    requires
        n <= cs.len(),
    ensures
        of_len(cs, len, n).len() == 0 ==> forall|j: int|
            0 <= j < n ==> name_len(#[trigger] cs[j]) != len,
        of_len(cs, len, n).len() == 1 ==> exists|k: int|
            #![trigger cs[k]]
            0 <= k < n && cs[k] == of_len(cs, len, n)[0] && name_len(cs[k]) == len && forall|j: int|
                0 <= j < n && j != k ==> name_len(#[trigger] cs[j]) != len,
    decreases n,
{
    if n > 0 {
        lemma_of_len(cs, len, (n - 1) as nat);
        if of_len(cs, len, n).len() == 1 {
            if name_len(cs[n - 1]) == len {
                assert(cs[n - 1] == of_len(cs, len, n)[0]);
            } else {
                let k = choose|k: int|
                    #![trigger cs[k]]
                    0 <= k < n - 1 && cs[k] == of_len(cs, len, (n - 1) as nat)[0] && name_len(
                        cs[k],
                    ) == len && forall|j: int|
                        0 <= j < n - 1 && j != k ==> name_len(#[trigger] cs[j]) != len;
                assert(cs[k] == of_len(cs, len, n)[0]);
            }
        }
    }
}

/// The chosen candidate is the only one with the shortest name: every
/// other name is longer.
pub proof fn law_shortest_name_wins(cs: Seq<CandidateView>, names: Seq<Seq<char>>)
    requires
        chosen(cs, names) is Ok,
    ensures
        exists|k: int|
            #![trigger cs[k]]
            0 <= k < cs.len() && chosen(cs, names) == Ok::<CandidateView, ResolveErrorView>(cs[k])
                && forall|j: int|
                0 <= j < cs.len() && j != k ==> name_len(#[trigger] cs[j]) > name_len(cs[k]),
{
    let least = least_len(cs, cs.len());
    lemma_least_is_met(cs, cs.len());
    lemma_of_len(cs, least, cs.len());
    let k = choose|k: int|
        #![trigger cs[k]]
        0 <= k < cs.len() && cs[k] == of_len(cs, least, cs.len())[0] && name_len(cs[k]) == least
            && forall|j: int|
            0 <= j < cs.len() && j != k ==> name_len(#[trigger] cs[j]) != least;
    assert forall|j: int| 0 <= j < cs.len() && j != k implies name_len(#[trigger] cs[j])
        > name_len(cs[k]) by {
        lemma_least_is_least(cs, cs.len(), j);
    }
    assert(chosen(cs, names) == Ok::<CandidateView, ResolveErrorView>(cs[k]));
}

/// What is known of the verified function.
pub open spec fn target_in(ir: Seq<char>, function: Seq<char>) -> Result<
    ArtifactsView,
    ResolveErrorView,
> {
    match ir_functions(ir, None) {
        Ok(fs) => {
            let suffix = name_suffix(function);
            let cs = candidates_in(fs, suffix, lines_of(ir), fs.len());
            match chosen(cs, matching_names(fs, suffix, fs.len())) {
                Ok(c) => Ok(
                    ArtifactsView {
                        mangled_name: c.name,
                        params: c.params,
                        return_kind: c.return_kind,
                        return_llvm_type: c.return_llvm_type,
                        globals: variables_in(lines_of(ir)),
                    },
                ),
                Err(e) => Err(e),
            }
        },
        Err(e) => Err(ResolveErrorView::Ir(e)),
    }
}

fn make_name_suffix(function: &str) -> (r: String)
    ensures
        r@ == name_suffix(function@),
{
    broadcast use {group_append, group_views};
    let mut r = String::new();
    put_dec(&mut r, function.as_bytes().len() as u128);
    put(&mut r, function);
    r
}

spec fn candidates_view(v: Seq<ResolvedCandidate>) -> Seq<CandidateView> {
    Seq::new(v.len(), |i: int| v[i]@)
}

fn collect_candidates(
    funcs: &Vec<FunctionInfo>,
    suffix: &str,
    lines: &Vec<String>,
    defs: &[(String, IrStructDef)],
) -> (r: (Vec<String>, Vec<ResolvedCandidate>))
    requires
        defs_view(defs@) == defs_in(views(lines@)),
    ensures
        views(r.0@) == matching_names(functions_view(funcs@), suffix@, funcs@.len()),
        candidates_view(r.1@) == candidates_in(
            functions_view(funcs@),
            suffix@,
            views(lines@),
            funcs@.len(),
        ),
{
    broadcast use {group_append, group_views};
    let ghost fs = functions_view(funcs@);
    let ghost ls = views(lines@);
    let mut names: Vec<String> = Vec::new();
    let mut cs: Vec<ResolvedCandidate> = Vec::new();
    assert(candidates_view(cs@) =~= Seq::empty());
    let mut i: usize = 0;
    while i < funcs.len()
        invariant
            fs == functions_view(funcs@),
            ls == views(lines@),
            defs_view(defs@) == defs_in(ls),
            i <= funcs@.len(),
            views(names@) == matching_names(fs, suffix@, i as nat),
            candidates_view(cs@) == candidates_in(fs, suffix@, ls, i as nat),
        decreases funcs@.len() - i,
    {
        assert(fs[i as int] == funcs@[i as int]@);
        let f = &funcs[i];
        if f.has_body && ends_with(f.name.as_str(), suffix) {
            names.push(f.name.clone());
            let list = find_list(lines, f.name.as_str());
            if let Some(c) = try_resolve_candidate(f, &list, defs) {
                let ghost before = candidates_view(cs@);
                let ghost e = c@;
                cs.push(c);
                assert(candidates_view(cs@) =~= before.push(e));
            }
        }
        i += 1;
    }
    (names, cs)
}

fn find_least_len(cs: &Vec<ResolvedCandidate>) -> (r: usize)
    requires
        cs@.len() > 0,
    ensures
        r == least_len(candidates_view(cs@), cs@.len()),
{
    let ghost v = candidates_view(cs@);
    assert(v[0] == cs@[0]@);
    let mut least: usize = cs[0].name.as_str().as_bytes().len();
    let mut i: usize = 1;
    while i < cs.len()
        invariant
            v == candidates_view(cs@),
            1 <= i <= cs@.len(),
            least == least_len(v, i as nat),
        decreases cs@.len() - i,
    {
        assert(v[i as int] == cs@[i as int]@);
        let n: usize = cs[i].name.as_str().as_bytes().len();
        if n < least {
            least = n;
        }
        i += 1;
    }
    least
}

proof fn lemma_least_is_met(cs: Seq<CandidateView>, n: nat)
    requires
        1 <= n <= cs.len(),
    ensures
        of_len(cs, least_len(cs, n), n).len() >= 1,
    decreases n,
{
    if n > 1 {
        lemma_least_is_met(cs, (n - 1) as nat);
    } else {
        assert(of_len(cs, least_len(cs, n), 0).len() == 0);
    }
}

/// The names of the candidates of the given length, and the place of the
/// last of them.
fn find_of_len(cs: &Vec<ResolvedCandidate>, len: usize) -> (r: (Vec<String>, usize))
    requires
        cs@.len() > 0,
    ensures
        views(r.0@) == candidate_names(of_len(candidates_view(cs@), len as nat, cs@.len())),
        r.1 < cs@.len(),
        r.0@.len() > 0 ==> of_len(candidates_view(cs@), len as nat, cs@.len()).last()
            == candidates_view(cs@)[r.1 as int],
{
    broadcast use {group_append, group_views};
    let ghost v = candidates_view(cs@);
    let mut names: Vec<String> = Vec::new();
    let mut last: usize = 0;
    let mut i: usize = 0;
    assert(views(names@) =~= candidate_names(of_len(v, len as nat, 0)));
    while i < cs.len()
        invariant
            v == candidates_view(cs@),
            i <= cs@.len(),
            last < cs@.len(),
            views(names@) == candidate_names(of_len(v, len as nat, i as nat)),
            names@.len() > 0 ==> of_len(v, len as nat, i as nat).last() == v[last as int],
        decreases cs@.len() - i,
    {
        assert(v[i as int] == cs@[i as int]@);
        if cs[i].name.as_str().as_bytes().len() == len {
            let ghost before = of_len(v, len as nat, i as nat);
            names.push(cs[i].name.clone());
            last = i;
            assert(candidate_names(before.push(v[i as int])) =~= candidate_names(before).push(
                v[i as int].name,
            ));
        }
        i += 1;
    }
    (names, last)
}

fn choose_candidate(names: Vec<String>, cs: Vec<ResolvedCandidate>) -> (r: Result<
    ResolvedCandidate,
    ResolveError,
>)
    ensures
        match (r, chosen(candidates_view(cs@), views(names@))) {
            (Ok(c), Ok(d)) => c@ == d,
            (Err(e), Err(x)) => e@ == x,
            _ => false,
        },
{
    if names.len() == 0 {
        return Err(ResolveError::NoSymbol);
    }
    if cs.len() == 0 {
        return Err(ResolveError::NoCompatible { names });
    }
    let ghost v = candidates_view(cs@);
    let least: usize = find_least_len(&cs);
    proof {
        lemma_least_is_met(v, v.len());
    }
    let (tied, last) = find_of_len(&cs, least);
    assert(tied@.len() == views(tied@).len());
    if tied.len() >= 2 {
        Err(ResolveError::Ambiguous { tied })
    } else {
        let mut cs = cs;
        Ok(cs.remove(last))
    }
}

/// The function of the given name in IR text: the defined function whose
/// mangled name ends with it and is the shortest, of those whose
/// parameters are integers and whose result is an integer, an aggregate of
/// integers, or returned through memory.
pub fn resolve_target(ir: &str, function: &str) -> (r: Result<RustVerifyArtifacts, ResolveError>)
    ensures
        match (r, target_in(ir@, function@)) {
            (Ok(a), Ok(v)) => a@ == v,
            (Err(e), Err(x)) => e@ == x,
            _ => false,
        },
{
    let funcs = match extract_functions(ir, None) {
        Ok(f) => f,
        Err(e) => {
            return Err(ResolveError::Ir(e));
        },
    };
    let suffix = make_name_suffix(function);
    let all = lines(ir);
    let defs = parse_struct_types(ir);
    let (names, cs) = collect_candidates(&funcs, suffix.as_str(), &all, defs.as_slice());
    match choose_candidate(names, cs) {
        Ok(c) => Ok(
            RustVerifyArtifacts {
                mangled_name: c.name,
                params: c.params,
                return_kind: c.return_kind,
                return_llvm_type: c.return_llvm_type,
                globals: scan_globals(ir),
            },
        ),
        Err(e) => Err(e),
    }
}

/// The names, one on each line, behind two spaces.
pub open spec fn indented_names(names: Seq<Seq<char>>) -> Seq<Seq<char>> {
    Seq::new(names.len(), |i: int| "  "@ + names[i])
}

/// What is said of the error.
pub open spec fn error_text(e: ResolveErrorView, function: Seq<char>) -> Seq<char> {
    let suffix = name_suffix(function);
    match e {
        ResolveErrorView::Ir(IrError::EndlessStruct) => "parsing LLVM IR functions: a struct type contains itself"@,
        ResolveErrorView::Ir(IrError::SizeTooLarge) => "parsing LLVM IR functions: a type exceeds the address space"@,
        ResolveErrorView::NoSymbol => "Could not find a defined function whose mangled name ends with '"@ + suffix
            + "'.\n"@ + "Make sure --llvm-ir points at the disassembled bitcode for the same\n"@
            + "crate that defines `"@ + function + "`."@,
        ResolveErrorView::NoCompatible { names } => "Found symbol(s) ending in '"@ + suffix
            + "' but none have a compatible signature for this verifier.\n"@
            + "Candidates were:\n"@ + joined(indented_names(names), "\n"@),
        ResolveErrorView::Ambiguous { tied } => "Ambiguous '"@ + function
            + "': multiple matching symbols of equal length. Qualify the function name (e.g. `mod::"@
            + function + "`) or rename one.\n"@ + "Tied candidates:\n"@ + joined(indented_names(tied), "\n"@),
    }
}

fn indent_names(names: &Vec<String>) -> (r: Vec<String>)
    ensures
        views(r@) == indented_names(views(names@)),
{
    broadcast use {group_append, group_views};
    let mut r: Vec<String> = Vec::new();
    let ghost want = indented_names(views(names@));
    let mut i: usize = 0;
    while i < names.len()
        invariant
            want == indented_names(views(names@)),
            i <= names@.len(),
            r@.len() == i,
            forall|k: int| 0 <= k < i ==> (#[trigger] r@[k])@ == want[k],
        decreases names@.len() - i,
    {
        let mut line = String::new();
        put2(&mut line, "  ", names[i].as_str());
        r.push(line);
        i += 1;
    }
    assert(views(r@) =~= want);
    r
}

impl ResolveError {
    /// What is said of the error.
    pub fn message(&self, function: &str) -> (r: String)
        ensures
            r@ == error_text(self@, function@),
    {
        broadcast use {group_append, group_views};
        let suffix_text = make_name_suffix(function);
        let suffix = suffix_text.as_str();
        let mut r = String::new();
        match self {
            ResolveError::Ir(IrError::EndlessStruct) => {
                put(&mut r, "parsing LLVM IR functions: a struct type contains itself");
            },
            ResolveError::Ir(IrError::SizeTooLarge) => {
                put(&mut r, "parsing LLVM IR functions: a type exceeds the address space");
            },
            ResolveError::NoSymbol => {
                put3(
                    &mut r,
                    "Could not find a defined function whose mangled name ends with '",
                    suffix,
                    "'.\n",
                );
                put(
                    &mut r,
                    "Make sure --llvm-ir points at the disassembled bitcode for the same\n",
                );
                put3(&mut r, "crate that defines `", function, "`.");
            },
            ResolveError::NoCompatible { names } => {
                put3(
                    &mut r,
                    "Found symbol(s) ending in '",
                    suffix,
                    "' but none have a compatible signature for this verifier.\n",
                );
                put(&mut r, "Candidates were:\n");
                let list = join(&indent_names(names), "\n");
                put(&mut r, list.as_str());
            },
            ResolveError::Ambiguous { tied } => {
                put5(
                    &mut r,
                    "Ambiguous '",
                    function,
                    "': multiple matching symbols of equal length. Qualify the function name (e.g. `mod::",
                    function,
                    "`) or rename one.\n",
                );
                put(&mut r, "Tied candidates:\n");
                let list = join(&indent_names(tied), "\n");
                put(&mut r, list.as_str());
            },
        }
        r
    }
}

// ---------------------------------------------------------------------
// The description of the verified function
// ---------------------------------------------------------------------

/// The width of the result, where it is one integer.
pub open spec fn result_bits(kind: ReturnView) -> Option<u32> {
    match kind {
        ReturnView::Scalar { bits } => Some(bits),
        _ => None,
    }
}

impl RustVerifyArtifacts {
    /// The width of the result, where it is one integer.
    pub fn return_bits(&self) -> (r: Option<u32>)
        ensures
            r == result_bits(self@.return_kind),
    {
        match &self.return_kind {
            RustReturnKind::Scalar { bits } => Some(*bits),
            _ => None,
        }
    }
}

/// The description of a parameter.
pub open spec fn param_json(p: VerifyParamView) -> JsonView {
    JsonView::Object(
        Map::empty().insert("index"@, JsonView::Unsigned(p.index as u64)).insert(
            "name"@,
            JsonView::Text(p.name),
        ).insert("bits"@, JsonView::Unsigned(p.bits as u64)).insert(
            "llvm_type"@,
            JsonView::Text(p.llvm_type),
        ),
    )
}

/// The description of the verified function.
pub open spec fn meta_json(function: Seq<char>, cryptol_fn: Seq<char>, a: ArtifactsView) -> JsonView {
    JsonView::Object(
        Map::empty().insert("schema_version"@, JsonView::Unsigned(1)).insert(
            "function"@,
            JsonView::Text(function),
        ).insert("cryptol_fn"@, JsonView::Text(cryptol_fn)).insert(
            "mangled_name"@,
            JsonView::Text(a.mangled_name),
        ).insert(
            "params"@,
            JsonView::Array(Seq::new(a.params.len(), |i: int| param_json(a.params[i]))),
        ).insert(
            "return_bits"@,
            match result_bits(a.return_kind) {
                Some(b) => JsonView::Unsigned(b as u64),
                None => JsonView::Null,
            },
        ).insert("return_llvm_type"@, JsonView::Text(a.return_llvm_type)).insert(
            "globals"@,
            JsonView::Array(Seq::new(a.globals.len(), |i: int| JsonView::Text(a.globals[i]))),
        ),
    )
}

fn param_value(p: &RustVerifyParam) -> (r: serde_json::Value)
    ensures
        json_held(r) == param_json(p@),
{
    broadcast use {group_append, group_views};
    let mut m: Vec<(String, serde_json::Value)> = Vec::new();
    m.push((owned("index"), number_value(p.index as u64)));
    m.push((owned("name"), text_value(p.name.clone())));
    m.push((owned("bits"), number_value(p.bits as u64)));
    m.push((owned("llvm_type"), text_value(p.llvm_type.clone())));
    proof {
        reveal_with_fuel(members_held, 5);
        reveal_strlit("index");
        reveal_strlit("name");
        reveal_strlit("bits");
        reveal_strlit("llvm_type");
        assert(m@[0].0@ == "index"@ && m@[1].0@ == "name"@ && m@[2].0@ == "bits"@ && m@[3].0@
            == "llvm_type"@);
        assert("name"@[0] != "bits"@[0]);
    }
    object_value(m)
}

fn params_value(params: &Vec<RustVerifyParam>) -> (r: serde_json::Value)
    ensures
        json_held(r) == JsonView::Array(
            Seq::new(
                verify_params_view(params@).len(),
                |i: int| param_json(verify_params_view(params@)[i]),
            ),
        ),
{
    broadcast use {group_append, group_views};
    let ghost v = verify_params_view(params@);
    let mut items: Vec<serde_json::Value> = Vec::new();
    let mut i: usize = 0;
    while i < params.len()
        invariant
            v == verify_params_view(params@),
            i <= params@.len(),
            items@.len() == i,
            forall|k: int| 0 <= k < i ==> json_held(#[trigger] items@[k]) == param_json(v[k]),
        decreases params@.len() - i,
    {
        items.push(param_value(&params[i]));
        i += 1;
    }
    assert(all_held(items@) =~= Seq::new(v.len(), |k: int| param_json(v[k])));
    array_value(items)
}

fn texts_value(texts: &Vec<String>) -> (r: serde_json::Value)
    ensures
        json_held(r) == JsonView::Array(
            Seq::new(views(texts@).len(), |i: int| JsonView::Text(views(texts@)[i])),
        ),
{
    broadcast use {group_append, group_views};
    let ghost v = views(texts@);
    let mut items: Vec<serde_json::Value> = Vec::new();
    let mut i: usize = 0;
    while i < texts.len()
        invariant
            v == views(texts@),
            i <= texts@.len(),
            items@.len() == i,
            forall|k: int| 0 <= k < i ==> json_held(#[trigger] items@[k]) == JsonView::Text(v[k]),
        decreases texts@.len() - i,
    {
        items.push(text_value(texts[i].clone()));
        i += 1;
    }
    assert(all_held(items@) =~= Seq::new(v.len(), |k: int| JsonView::Text(v[k])));
    array_value(items)
}

fn meta_value(function: &str, cryptol_fn: &str, arts: &RustVerifyArtifacts) -> (r: serde_json::Value)
    ensures
        json_held(r) == meta_json(function@, cryptol_fn@, arts@),
{
    broadcast use {group_append, group_views};
    let bits = match arts.return_bits() {
        Some(b) => number_value(b as u64),
        None => null_value(),
    };
    let mut m: Vec<(String, serde_json::Value)> = Vec::new();
    m.push((owned("schema_version"), number_value(1)));
    m.push((owned("function"), text_value(owned(function))));
    m.push((owned("cryptol_fn"), text_value(owned(cryptol_fn))));
    m.push((owned("mangled_name"), text_value(arts.mangled_name.clone())));
    m.push((owned("params"), params_value(&arts.params)));
    m.push((owned("return_bits"), bits));
    m.push((owned("return_llvm_type"), text_value(arts.return_llvm_type.clone())));
    m.push((owned("globals"), texts_value(&arts.globals)));
    proof {
        reveal_with_fuel(members_held, 9);
        reveal_strlit("schema_version");
        reveal_strlit("function");
        reveal_strlit("cryptol_fn");
        reveal_strlit("mangled_name");
        reveal_strlit("params");
        reveal_strlit("return_bits");
        reveal_strlit("return_llvm_type");
        reveal_strlit("globals");
        assert(m@[0].0@.len() == 14 && m@[1].0@.len() == 8 && m@[2].0@.len() == 10
            && m@[3].0@.len() == 12 && m@[4].0@.len() == 6 && m@[5].0@.len() == 11
            && m@[6].0@.len() == 16 && m@[7].0@.len() == 7);
    }
    object_value(m)
}

/// The description of the verified function as a JSON document.
pub fn meta_document(function: &str, cryptol_fn: &str, arts: &RustVerifyArtifacts) -> (r: String)
    ensures
        r@ == pretty_text(meta_json(function@, cryptol_fn@, arts@)) + "\n"@,
{
    to_pretty(&meta_value(function, cryptol_fn, arts))
}

} // verus!
