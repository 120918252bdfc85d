//! The model of a string: its size field.
//!
//! The field is addressed by its index: field names would need debug
//! information. What a string holds is not modelled; a view of its bytes
//! is a fresh pointer.

use vstd::prelude::*;

use crate::bitcode_overrides_functional::{method_text, vector_method, StlMethod};
use crate::ir_layout::IrStructDef;
use crate::text::{
    contains, dec, ends, group_append, group_views, joined, lemma_append_assoc, lemma_joined_push,
    mentions, nil, numeral, owned, put, put3, put5, put6, same, starts, starts_with, trim,
    trim_text,
};

verus! {

/// The layout of a string: the alias of its struct, and the index of its
/// size field.
#[derive(Debug, PartialEq, Eq)]
pub struct StringLayout {
    pub alias: String,
    pub size_field_index: usize,
}

pub open spec fn layout_view(l: Option<StringLayout>) -> Option<(Seq<char>, int)> {
    match l {
        Some(s) => Some((s.alias@, s.size_field_index as int)),
        None => None,
    }
}

/// Is the struct that of a string?
pub open spec fn string_alias(n: Seq<char>) -> bool {
    &&& starts(n, "class.std::"@) || starts(n, "class.std."@)
    &&& mentions(n, "basic_string"@)
    &&& !mentions(n, "_Alloc_hider"@)
    &&& !mentions(n, "basic_stringbuf"@)
    &&& !mentions(n, "basic_stringstream"@)
}

fn is_basic_string_alias(n: &str) -> (r: bool)
    ensures
        r == string_alias(n@),
{
    (starts_with(n, "class.std::") || starts_with(n, "class.std.")) && contains(n, "basic_string")
        && !contains(n, "_Alloc_hider") && !contains(n, "basic_stringbuf") && !contains(
        n,
        "basic_stringstream",
    )
}

/// Is the type of a field that of a size?
pub open spec fn size_type(f: Seq<char>) -> bool {
    trim_text(f) == "i64"@ || trim_text(f) == "i32"@
}

/// The first field from `i` on whose type is that of a size.
pub open spec fn size_field(fields: Seq<String>, i: int) -> Option<int>
    decreases fields.len() - i,
{
    if i < 0 || i >= fields.len() {
        None
    } else if size_type(fields[i]@) {
        Some(i)
    } else {
        size_field(fields, i + 1)
    }
}

/// The layout of the first string struct from `i` on.
pub open spec fn layout_from(defs: Seq<(String, IrStructDef)>, i: int) -> Option<(Seq<char>, int)>
    decreases defs.len() - i,
{
    if i < 0 || i >= defs.len() {
        None
    } else if string_alias(defs[i].0@) {
        match size_field(defs[i].1.fields@, 0) {
            Some(k) => Some((defs[i].0@, k)),
            None => None,
        }
    } else {
        layout_from(defs, i + 1)
    }
}

/// The layout of the first string struct.
pub open spec fn string_layout_of(defs: Seq<(String, IrStructDef)>) -> Option<(Seq<char>, int)> {
    layout_from(defs, 0)
}

fn find_size_field(fields: &Vec<String>) -> (r: Option<usize>)
    ensures
        match r {
            Some(k) => size_field(fields@, 0) == Some(k as int),
            None => size_field(fields@, 0) is None,
        },
{
    let mut i: usize = 0;
    while i < fields.len()
        invariant
            i <= fields@.len(),
            size_field(fields@, 0) == size_field(fields@, i as int),
        decreases fields@.len() - i,
    {
        let f = trim(fields[i].as_str());
        if same(f, "i64") || same(f, "i32") {
            return Some(i);
        }
        i += 1;
    }
    None
}

/// Looks for the struct of a string among the structs of the bitcode, and
/// for its size field. `None` where there is no such struct, or where the
/// first one has no such field.
pub fn discover_string_layout(struct_defs: &Vec<(String, IrStructDef)>) -> (r: Option<StringLayout>)
    ensures
        layout_view(r) == string_layout_of(struct_defs@),
{
    let mut i: usize = 0;
    while i < struct_defs.len()
        invariant
            i <= struct_defs@.len(),
            string_layout_of(struct_defs@) == layout_from(struct_defs@, i as int),
        decreases struct_defs@.len() - i,
    {
        let alias = struct_defs[i].0.as_str();
        if is_basic_string_alias(alias) {
            return match find_size_field(&struct_defs[i].1.fields) {
                Some(k) => Some(StringLayout { alias: owned(alias), size_field_index: k }),
                None => None,
            };
        }
        i += 1;
    }
    None
}

/// One statement of the model of a string `s`.
pub ghost enum StringStep {
    /// A variable is bound.
    Fresh { name: Seq<char>, value: Seq<char> },
    /// The method is called.
    Call { args: Seq<char> },
    /// The size field of the string holds the term.
    Size { term: Seq<char> },
    /// The size field of the string that is copied holds its size.
    SourceSize,
    /// The method returns the value.
    Return { value: Seq<char> },
}

/// The start of a statement on the size field of the string.
pub open spec fn size_head(idx: Seq<char>) -> Seq<char> {
    "    llvm_points_to (llvm_elem s "@ + idx + ") "@
}

#[verifier::opaque]
pub open spec fn fresh_text(name: Seq<char>, value: Seq<char>) -> Seq<char> {
    "    "@ + name + " <- "@ + value + ";\n"@
}

#[verifier::opaque]
pub open spec fn call_text(args: Seq<char>) -> Seq<char> {
    "    llvm_execute_func ["@ + args + "];\n"@
}

#[verifier::opaque]
pub open spec fn size_text(idx: Seq<char>, term: Seq<char>) -> Seq<char> {
    size_head(idx) + "("@ + term + ");\n"@
}

#[verifier::opaque]
pub open spec fn source_size_text(idx: Seq<char>) -> Seq<char> {
    "    llvm_points_to (llvm_elem src "@ + idx + ") (llvm_term sz_src);\n"@
}

#[verifier::opaque]
pub open spec fn return_text(value: Seq<char>) -> Seq<char> {
    "    llvm_return "@ + value + ";\n"@
}

/// The text of a statement, where the size field has the given index.
pub open spec fn step_text(step: StringStep, idx: Seq<char>) -> Seq<char> {
    match step {
        StringStep::Fresh { name, value } => fresh_text(name, value),
        StringStep::Call { args } => call_text(args),
        StringStep::Size { term } => size_text(idx, term),
        StringStep::SourceSize => source_size_text(idx),
        StringStep::Return { value } => return_text(value),
    }
}

/// The text of the statements, in order.
pub open spec fn steps_text(steps: Seq<StringStep>, idx: Seq<char>) -> Seq<char>
    decreases steps.len(),
{
    if steps.len() == 0 {
        nil()
    } else {
        steps_text(steps.drop_last(), idx) + step_text(steps.last(), idx)
    }
}

/// The string that is copied.
pub open spec fn source_string(alias: Seq<char>) -> StringStep {
    StringStep::Fresh {
        name: "src"@,
        value: source_value(alias),
    }
}

/// A new string has the size 0.
pub open spec fn empty_string() -> Seq<StringStep> {
    seq![
        StringStep::Call { args: "s"@ },
        StringStep::Size { term: "llvm_term {{ 0 : [64] }}"@ },
    ]
}

/// Nothing is said of a string that has ended.
pub open spec fn ended_string() -> Seq<StringStep> {
    seq![
        StringStep::Call { args: "s"@ },
    ]
}

/// The size field is read, and something is returned.
pub open spec fn size_query(value: Seq<char>) -> Seq<StringStep> {
    seq![
        StringStep::Fresh { name: "sz"@, value: "llvm_fresh_var \"sz\" (llvm_int 64)"@ },
        StringStep::Size { term: "llvm_term sz"@ },
        StringStep::Call { args: "s"@ },
        StringStep::Return { value },
    ]
}

/// The size becomes the one that is given.
pub open spec fn resized_string() -> Seq<StringStep> {
    seq![
        StringStep::Fresh { name: "n"@, value: "llvm_fresh_var \"n\" (llvm_int 64)"@ },
        StringStep::Call { args: "s, llvm_term n"@ },
        StringStep::Size { term: "llvm_term n"@ },
    ]
}

/// A view of the bytes is a fresh pointer.
pub open spec fn byte_view() -> Seq<StringStep> {
    seq![
        StringStep::Call { args: "s"@ },
        StringStep::Fresh { name: "d"@, value: "llvm_fresh_pointer (llvm_int 8)"@ },
        StringStep::Return { value: "d"@ },
    ]
}

/// A view of the bytes from an index on is a fresh pointer.
pub open spec fn indexed_view() -> Seq<StringStep> {
    seq![
        StringStep::Fresh { name: "idx"@, value: "llvm_fresh_var \"idx\" (llvm_int 64)"@ },
        StringStep::Call { args: "s, llvm_term idx"@ },
        StringStep::Fresh { name: "d"@, value: "llvm_fresh_pointer (llvm_int 8)"@ },
        StringStep::Return { value: "d"@ },
    ]
}

/// The string becomes a copy of a C string of any size.
pub open spec fn cstr_copy() -> Seq<StringStep> {
    seq![
        StringStep::Fresh { name: "src"@, value: "llvm_fresh_pointer (llvm_int 8)"@ },
        StringStep::Fresh { name: "n"@, value: "llvm_fresh_var \"n\" (llvm_int 64)"@ },
        StringStep::Call { args: "s, src"@ },
        StringStep::Size { term: "llvm_term n"@ },
    ]
}

/// The string becomes a copy of a string, with its size.
pub open spec fn string_copy(alias: Seq<char>) -> Seq<StringStep> {
    seq![
        source_string(alias),
        StringStep::Fresh { name: "sz_src"@, value: "llvm_fresh_var \"sz_src\" (llvm_int 64)"@ },
        StringStep::SourceSize,
        StringStep::Call { args: "s, src"@ },
        StringStep::Size { term: "llvm_term sz_src"@ },
    ]
}

/// A number is returned that is not the size.
pub open spec fn scalar_query() -> Seq<StringStep> {
    seq![
        StringStep::Fresh { name: "cap"@, value: "llvm_fresh_var \"cap\" (llvm_int 64)"@ },
        StringStep::Call { args: "s"@ },
        StringStep::Return { value: "(llvm_term cap)"@ },
    ]
}

/// Memory is reserved.
pub open spec fn size_kept() -> Seq<StringStep> {
    seq![
        StringStep::Fresh { name: "n"@, value: "llvm_fresh_var \"n\" (llvm_int 64)"@ },
        StringStep::Call { args: "s, llvm_term n"@ },
    ]
}

/// The methods that assign return the string itself.
pub open spec fn returns_string() -> StringStep {
    StringStep::Return { value: "s"@ }
}

/// What the model of each method says of a string `s`.
pub open spec fn string_steps(method: StlMethod, alias: Seq<char>) -> Seq<StringStep> {
    match method {
        StlMethod::BasicStringCtorDefault => empty_string(),
        StlMethod::BasicStringDtor => ended_string(),
        StlMethod::BasicStringSize => size_query("(llvm_term sz)"@),
        StlMethod::BasicStringResize => resized_string(),
        StlMethod::BasicStringByteViewNoArg => byte_view(),
        StlMethod::BasicStringByteViewIndexArg => indexed_view(),
        StlMethod::BasicStringCtorFromCStr => cstr_copy(),
        StlMethod::BasicStringCtorCopy => string_copy(alias),
        StlMethod::BasicStringAssignCStr => cstr_copy().push(returns_string()),
        StlMethod::BasicStringOpEqCStr => cstr_copy().push(returns_string()),
        StlMethod::BasicStringAssignStr => string_copy(alias).push(returns_string()),
        StlMethod::BasicStringOpEqStr => string_copy(alias).push(returns_string()),
        StlMethod::BasicStringEmpty => size_query("(llvm_term {{ sz == 0 }})"@),
        StlMethod::BasicStringSizeNeutralScalarQuery => scalar_query(),
        StlMethod::BasicStringSizeNeutralMutator => size_kept(),
        _ => Seq::empty(),
    }
}

/// What the model of each method says of a string `s` whose size field has
/// the given index.
pub open spec fn string_body(method: StlMethod, alias: Seq<char>, idx: Seq<char>) -> Seq<char> {
    steps_text(string_steps(method, alias), idx)
}

/// One more statement is one more text.
proof fn lemma_steps_push(steps: Seq<StringStep>, step: StringStep, idx: Seq<char>)
    ensures
        steps_text(steps.push(step), idx) == steps_text(steps, idx) + step_text(step, idx),
{
    assert(steps.push(step).drop_last() =~= steps);
}

fn put_fresh(out: &mut String, name: &str, value: &str)
    ensures
        final(out)@ == old(out)@ + fresh_text(name@, value@),
{
    broadcast use {group_append, group_views};
    reveal(fresh_text);
    put5(out, "    ", name, " <- ", value, ";\n");
}

/// The pointer to the string that is copied.
pub open spec fn source_value(alias: Seq<char>) -> Seq<char> {
    "llvm_fresh_pointer (llvm_alias \""@ + alias + "\")"@
}

fn put_source_string(out: &mut String, alias: &str)
    ensures
        final(out)@ == old(out)@ + fresh_text("src"@, source_value(alias@)),
{
    broadcast use {group_append, group_views};
    let mut value = String::new();
    put3(&mut value, "llvm_fresh_pointer (llvm_alias \"", alias, "\")");
    put_fresh(out, "src", value.as_str());
}

fn put_call(out: &mut String, args: &str)
    ensures
        final(out)@ == old(out)@ + call_text(args@),
{
    broadcast use {group_append, group_views};
    reveal(call_text);
    put3(out, "    llvm_execute_func [", args, "];\n");
}

fn put_size(out: &mut String, idx: &str, term: &str)
    ensures
        final(out)@ == old(out)@ + size_text(idx@, term@),
{
    broadcast use {group_append, group_views};
    reveal(size_text);
    put3(out, "    llvm_points_to (llvm_elem s ", idx, ") ");
    put3(out, "(", term, ");\n");
}

fn put_source_size(out: &mut String, idx: &str)
    ensures
        final(out)@ == old(out)@ + source_size_text(idx@),
{
    broadcast use {group_append, group_views};
    reveal(source_size_text);
    put3(out, "    llvm_points_to (llvm_elem src ", idx, ") (llvm_term sz_src);\n");
}

fn put_return(out: &mut String, value: &str)
    ensures
        final(out)@ == old(out)@ + return_text(value@),
{
    broadcast use {group_append, group_views};
    reveal(return_text);
    put3(out, "    llvm_return ", value, ";\n");
}

/// The text of a list of statements that follows another text.
spec fn after(head: Seq<char>, steps: Seq<StringStep>, idx: Seq<char>) -> Seq<char> {
    head + steps_text(steps, idx)
}

proof fn lemma_after(head: Seq<char>, steps: Seq<StringStep>, k: int, idx: Seq<char>)
    requires
        0 <= k < steps.len(),
    ensures
        after(head, steps.take(k + 1), idx) == after(head, steps.take(k), idx) + step_text(
            steps[k],
            idx,
        ),
        k == 0 ==> after(head, steps.take(0), idx) == head,
        k + 1 == steps.len() ==> steps.take(k + 1) == steps,
{
    lemma_steps_push(steps.take(k), steps[k], idx);
    assert(steps.take(k).push(steps[k]) =~= steps.take(k + 1));
    lemma_append_assoc(head, steps_text(steps.take(k), idx), step_text(steps[k], idx));
    if k == 0 {
        assert(head + nil() =~= head);
    }
    if k + 1 == steps.len() {
        assert(steps.take(k + 1) =~= steps);
    }
}

fn put_empty_string(out: &mut String, idx: &str)
    ensures
        final(out)@ == old(out)@ + steps_text(empty_string(), idx@),
{
    let ghost steps = empty_string();
    proof {
        lemma_after(old(out)@, steps, 0, idx@);
    }
    put_call(out, "s");
    proof {
        lemma_after(old(out)@, steps, 1, idx@);
    }
    put_size(out, idx, "llvm_term {{ 0 : [64] }}");
}

fn put_ended_string(out: &mut String, Ghost(idx): Ghost<Seq<char>>)
    ensures
        final(out)@ == old(out)@ + steps_text(ended_string(), idx),
{
    let ghost steps = ended_string();
    proof {
        lemma_after(old(out)@, steps, 0, idx);
    }
    put_call(out, "s");
}

fn put_size_query(out: &mut String, idx: &str, value: &str)
    ensures
        final(out)@ == old(out)@ + steps_text(size_query(value@), idx@),
{
    let ghost steps = size_query(value@);
    proof {
        lemma_after(old(out)@, steps, 0, idx@);
    }
    put_fresh(out, "sz", "llvm_fresh_var \"sz\" (llvm_int 64)");
    proof {
        lemma_after(old(out)@, steps, 1, idx@);
    }
    put_size(out, idx, "llvm_term sz");
    proof {
        lemma_after(old(out)@, steps, 2, idx@);
    }
    put_call(out, "s");
    proof {
        lemma_after(old(out)@, steps, 3, idx@);
    }
    put_return(out, value);
}

fn put_resized_string(out: &mut String, idx: &str)
    ensures
        final(out)@ == old(out)@ + steps_text(resized_string(), idx@),
{
    let ghost steps = resized_string();
    proof {
        lemma_after(old(out)@, steps, 0, idx@);
    }
    put_fresh(out, "n", "llvm_fresh_var \"n\" (llvm_int 64)");
    proof {
        lemma_after(old(out)@, steps, 1, idx@);
    }
    put_call(out, "s, llvm_term n");
    proof {
        lemma_after(old(out)@, steps, 2, idx@);
    }
    put_size(out, idx, "llvm_term n");
}

fn put_byte_view(out: &mut String, Ghost(idx): Ghost<Seq<char>>)
    ensures
        final(out)@ == old(out)@ + steps_text(byte_view(), idx),
{
    let ghost steps = byte_view();
    proof {
        lemma_after(old(out)@, steps, 0, idx);
    }
    put_call(out, "s");
    proof {
        lemma_after(old(out)@, steps, 1, idx);
    }
    put_fresh(out, "d", "llvm_fresh_pointer (llvm_int 8)");
    proof {
        lemma_after(old(out)@, steps, 2, idx);
    }
    put_return(out, "d");
}

fn put_indexed_view(out: &mut String, Ghost(idx): Ghost<Seq<char>>)
    ensures
        final(out)@ == old(out)@ + steps_text(indexed_view(), idx),
{
    let ghost steps = indexed_view();
    proof {
        lemma_after(old(out)@, steps, 0, idx);
    }
    put_fresh(out, "idx", "llvm_fresh_var \"idx\" (llvm_int 64)");
    proof {
        lemma_after(old(out)@, steps, 1, idx);
    }
    put_call(out, "s, llvm_term idx");
    proof {
        lemma_after(old(out)@, steps, 2, idx);
    }
    put_fresh(out, "d", "llvm_fresh_pointer (llvm_int 8)");
    proof {
        lemma_after(old(out)@, steps, 3, idx);
    }
    put_return(out, "d");
}

fn put_cstr_copy(out: &mut String, idx: &str)
    ensures
        final(out)@ == old(out)@ + steps_text(cstr_copy(), idx@),
{
    let ghost steps = cstr_copy();
    proof {
        lemma_after(old(out)@, steps, 0, idx@);
    }
    put_fresh(out, "src", "llvm_fresh_pointer (llvm_int 8)");
    proof {
        lemma_after(old(out)@, steps, 1, idx@);
    }
    put_fresh(out, "n", "llvm_fresh_var \"n\" (llvm_int 64)");
    proof {
        lemma_after(old(out)@, steps, 2, idx@);
    }
    put_call(out, "s, src");
    proof {
        lemma_after(old(out)@, steps, 3, idx@);
    }
    put_size(out, idx, "llvm_term n");
}

fn put_string_copy(out: &mut String, alias: &str, idx: &str)
    ensures
        final(out)@ == old(out)@ + steps_text(string_copy(alias@), idx@),
{
    let ghost steps = string_copy(alias@);
    proof {
        lemma_after(old(out)@, steps, 0, idx@);
    }
    put_source_string(out, alias);
    proof {
        lemma_after(old(out)@, steps, 1, idx@);
    }
    put_fresh(out, "sz_src", "llvm_fresh_var \"sz_src\" (llvm_int 64)");
    proof {
        lemma_after(old(out)@, steps, 2, idx@);
    }
    put_source_size(out, idx);
    proof {
        lemma_after(old(out)@, steps, 3, idx@);
    }
    put_call(out, "s, src");
    proof {
        lemma_after(old(out)@, steps, 4, idx@);
    }
    put_size(out, idx, "llvm_term sz_src");
}

fn put_scalar_query(out: &mut String, Ghost(idx): Ghost<Seq<char>>)
    ensures
        final(out)@ == old(out)@ + steps_text(scalar_query(), idx),
{
    let ghost steps = scalar_query();
    proof {
        lemma_after(old(out)@, steps, 0, idx);
    }
    put_fresh(out, "cap", "llvm_fresh_var \"cap\" (llvm_int 64)");
    proof {
        lemma_after(old(out)@, steps, 1, idx);
    }
    put_call(out, "s");
    proof {
        lemma_after(old(out)@, steps, 2, idx);
    }
    put_return(out, "(llvm_term cap)");
}

fn put_size_kept(out: &mut String, Ghost(idx): Ghost<Seq<char>>)
    ensures
        final(out)@ == old(out)@ + steps_text(size_kept(), idx),
{
    let ghost steps = size_kept();
    proof {
        lemma_after(old(out)@, steps, 0, idx);
    }
    put_fresh(out, "n", "llvm_fresh_var \"n\" (llvm_int 64)");
    proof {
        lemma_after(old(out)@, steps, 1, idx);
    }
    put_call(out, "s, llvm_term n");
}

fn put_string_body(out: &mut String, method: StlMethod, alias: &str, idx: &str)
    ensures
        final(out)@ == old(out)@ + string_body(method, alias@, idx@),
{
    proof {
        lemma_steps_push(cstr_copy(), returns_string(), idx@);
        lemma_steps_push(string_copy(alias@), returns_string(), idx@);
        lemma_append_assoc(out@, steps_text(cstr_copy(), idx@), step_text(returns_string(), idx@));
        lemma_append_assoc(
            out@,
            steps_text(string_copy(alias@), idx@),
            step_text(returns_string(), idx@),
        );
        assert(out@ + nil() =~= out@);
    }
    match method {
        StlMethod::BasicStringCtorDefault => put_empty_string(out, idx),
        StlMethod::BasicStringDtor => put_ended_string(out, Ghost(idx@)),
        StlMethod::BasicStringSize => put_size_query(out, idx, "(llvm_term sz)"),
        StlMethod::BasicStringResize => put_resized_string(out, idx),
        StlMethod::BasicStringByteViewNoArg => put_byte_view(out, Ghost(idx@)),
        StlMethod::BasicStringByteViewIndexArg => put_indexed_view(out, Ghost(idx@)),
        StlMethod::BasicStringCtorFromCStr => put_cstr_copy(out, idx),
        StlMethod::BasicStringCtorCopy => put_string_copy(out, alias, idx),
        StlMethod::BasicStringAssignCStr | StlMethod::BasicStringOpEqCStr => {
            put_cstr_copy(out, idx);
            put_return(out, "s");
        },
        StlMethod::BasicStringAssignStr | StlMethod::BasicStringOpEqStr => {
            put_string_copy(out, alias, idx);
            put_return(out, "s");
        },
        StlMethod::BasicStringEmpty => put_size_query(out, idx, "(llvm_term {{ sz == 0 }})"),
        StlMethod::BasicStringSizeNeutralScalarQuery => put_scalar_query(out, Ghost(idx@)),
        StlMethod::BasicStringSizeNeutralMutator => put_size_kept(out, Ghost(idx@)),
        _ => {},
    }
}

/// Does the method read the size of the string?
pub open spec fn reads_size(m: StlMethod) -> bool {
    m is BasicStringSize || m is BasicStringEmpty
}

/// Does the method set the size of the string?
pub open spec fn writes_size(m: StlMethod) -> bool {
    ||| m is BasicStringCtorDefault
    ||| m is BasicStringCtorFromCStr
    ||| m is BasicStringCtorCopy
    ||| m is BasicStringResize
    ||| m is BasicStringAssignCStr
    ||| m is BasicStringAssignStr
    ||| m is BasicStringOpEqCStr
    ||| m is BasicStringOpEqStr
}

/// Does the method leave the size of the string alone?
pub open spec fn leaves_size(m: StlMethod) -> bool {
    ||| m is BasicStringDtor
    ||| m is BasicStringByteViewNoArg
    ||| m is BasicStringByteViewIndexArg
    ||| m is BasicStringSizeNeutralScalarQuery
    ||| m is BasicStringSizeNeutralMutator
}

/// Does the method return nothing?
pub open spec fn returns_nothing(m: StlMethod) -> bool {
    ||| m is BasicStringCtorDefault
    ||| m is BasicStringCtorFromCStr
    ||| m is BasicStringCtorCopy
    ||| m is BasicStringDtor
    ||| m is BasicStringResize
    ||| m is BasicStringSizeNeutralMutator
}

/// The statements of the model of a method, as texts.
pub open spec fn string_lines(method: StlMethod, alias: Seq<char>, idx: Seq<char>) -> Seq<Seq<char>> {
    string_steps(method, alias).map_values(|step: StringStep| step_text(step, idx))
}

/// Is the statement the call of the method?
pub open spec fn is_call(line: Seq<char>) -> bool {
    starts(line, "    llvm_execute_func ["@)
}

/// Does the statement say what memory holds?
pub open spec fn is_points_to(line: Seq<char>) -> bool {
    starts(line, "    llvm_points_to "@)
}

/// Does the statement say what the method returns?
pub open spec fn is_return(line: Seq<char>) -> bool {
    starts(line, "    llvm_return "@)
}

/// Texts that differ in a place where both have a character: the one does
/// not begin with the other.
proof fn lemma_differs(s: Seq<char>, p: Seq<char>, k: int)
    requires
        0 <= k < p.len(),
        k < s.len() ==> s[k] != p[k],
    ensures
        !starts(s, p),
{
    if starts(s, p) {
        assert(s.subrange(0, p.len() as int)[k] == s[k]);
    }
}

/// What a statement begins with depends on its kind.
pub open spec fn told_apart(step: StringStep, idx: Seq<char>) -> bool {
    let t = step_text(step, idx);
    &&& is_call(t) == (step is Call)
    &&& is_points_to(t) == (step is Size || step is SourceSize)
    &&& is_return(t) == (step is Return)
    &&& starts(t, size_head(idx)) == (step is Size)
    &&& ends(t, ";\n"@)
}

proof fn lemma_heads(idx: Seq<char>)
    ensures
        "    llvm_execute_func ["@.len() == 23,
        "    llvm_execute_func ["@[4] == 'l' && "    llvm_execute_func ["@[9] == 'e',
        "    llvm_points_to "@.len() == 19,
        "    llvm_points_to "@[4] == 'l' && "    llvm_points_to "@[9] == 'p',
        "    llvm_return "@.len() == 16,
        "    llvm_return "@[4] == 'l' && "    llvm_return "@[9] == 'r',
        size_head(idx).len() > 31,
        size_head(idx)[4] == 'l' && size_head(idx)[9] == 'p' && size_head(idx)[31] == ' ',
{
    reveal_strlit("    llvm_execute_func [");
    reveal_strlit("    llvm_points_to ");
    reveal_strlit("    llvm_points_to (llvm_elem s ");
    reveal_strlit("    llvm_return ");
    reveal_strlit(") ");
}

proof fn lemma_ended(a: Seq<char>, b: Seq<char>)
    requires
        b.len() >= 2,
        b[b.len() - 2] == ';',
        b[b.len() - 1] == '\n',
    ensures
        ends(a + b, ";\n"@),
{
    reveal_strlit(";\n");
    let t = a + b;
    assert(t.subrange(t.len() - 2, t.len() as int) =~= ";\n"@);
}

proof fn lemma_fresh_told(name: Seq<char>, value: Seq<char>, idx: Seq<char>)
    requires
        name.len() > 0,
        name[0] != 'l',
    ensures
        told_apart(StringStep::Fresh { name, value }, idx),
{
    reveal(fresh_text);
    reveal_strlit("    ");
    reveal_strlit(";\n");
    let t = fresh_text(name, value);
    lemma_ended("    "@ + name + " <- "@ + value, ";\n"@);
    assert(t[4] == name[0]);
    lemma_heads(idx);
    lemma_differs(t, "    llvm_execute_func ["@, 4);
    lemma_differs(t, "    llvm_points_to "@, 4);
    lemma_differs(t, "    llvm_return "@, 4);
    lemma_differs(t, size_head(idx), 4);
}

proof fn lemma_call_told(args: Seq<char>, idx: Seq<char>)
    ensures
        told_apart(StringStep::Call { args }, idx),
{
    reveal(call_text);
    reveal_strlit("];\n");
    let t = call_text(args);
    let head = "    llvm_execute_func ["@;
    lemma_ended(head + args, "];\n"@);
    lemma_heads(idx);
    assert(t[9] == head[9]);
    assert(t.subrange(0, head.len() as int) =~= head);
    lemma_differs(t, "    llvm_points_to "@, 9);
    lemma_differs(t, "    llvm_return "@, 9);
    lemma_differs(t, size_head(idx), 9);
}

proof fn lemma_return_told(value: Seq<char>, idx: Seq<char>)
    ensures
        told_apart(StringStep::Return { value }, idx),
{
    reveal(return_text);
    reveal_strlit(";\n");
    let t = return_text(value);
    let head = "    llvm_return "@;
    lemma_ended(head + value, ";\n"@);
    lemma_heads(idx);
    assert(t[9] == head[9]);
    assert(t.subrange(0, head.len() as int) =~= head);
    lemma_differs(t, "    llvm_points_to "@, 9);
    lemma_differs(t, "    llvm_execute_func ["@, 9);
    lemma_differs(t, size_head(idx), 9);
}

/// The start of a statement on memory.
proof fn lemma_points_to_heads(idx: Seq<char>)
    ensures
        size_head(idx).subrange(0, 19) == "    llvm_points_to "@,
        "    llvm_points_to (llvm_elem src "@.len() == 34,
        "    llvm_points_to (llvm_elem src "@.subrange(0, 19) == "    llvm_points_to "@,
        "    llvm_points_to (llvm_elem src "@[9] == 'p',
        "    llvm_points_to (llvm_elem src "@[31] == 'r',
{
    reveal_strlit("    llvm_points_to ");
    reveal_strlit("    llvm_points_to (llvm_elem s ");
    reveal_strlit("    llvm_points_to (llvm_elem src ");
    assert(size_head(idx).subrange(0, 19) =~= "    llvm_points_to (llvm_elem s "@.subrange(0, 19));
    assert("    llvm_points_to (llvm_elem s "@.subrange(0, 19) =~= "    llvm_points_to "@);
    assert("    llvm_points_to (llvm_elem src "@.subrange(0, 19) =~= "    llvm_points_to "@);
}

proof fn lemma_size_told(term: Seq<char>, idx: Seq<char>)
    ensures
        told_apart(StringStep::Size { term }, idx),
{
    reveal(size_text);
    reveal_strlit(");\n");
    let t = size_text(idx, term);
    let head = size_head(idx);
    lemma_ended(head + "("@ + term, ");\n"@);
    lemma_heads(idx);
    lemma_points_to_heads(idx);
    assert(t[9] == head[9]);
    assert(t.subrange(0, head.len() as int) =~= head);
    assert(t.subrange(0, 19) =~= head.subrange(0, 19));
    lemma_differs(t, "    llvm_return "@, 9);
    lemma_differs(t, "    llvm_execute_func ["@, 9);
}

proof fn lemma_source_told(idx: Seq<char>)
    ensures
        told_apart(StringStep::SourceSize, idx),
{
    reveal(source_size_text);
    reveal_strlit(") (llvm_term sz_src);\n");
    let t = source_size_text(idx);
    let head = "    llvm_points_to (llvm_elem src "@;
    lemma_ended(head + idx, ") (llvm_term sz_src);\n"@);
    lemma_heads(idx);
    lemma_points_to_heads(idx);
    assert(t[9] == head[9]);
    assert(t[31] == head[31]);
    assert(t.subrange(0, 19) =~= head.subrange(0, 19));
    lemma_differs(t, "    llvm_return "@, 9);
    lemma_differs(t, "    llvm_execute_func ["@, 9);
    lemma_differs(t, size_head(idx), 31);
}

/// Is a variable that the statement binds told from the commands?
pub open spec fn well_named(step: StringStep) -> bool {
    step matches StringStep::Fresh { name, .. } ==> name.len() > 0 && name[0] != 'l'
}

proof fn lemma_told_apart(step: StringStep, idx: Seq<char>)
    requires
        well_named(step),
    ensures
        told_apart(step, idx),
{
    match step {
        StringStep::Fresh { name, value } => lemma_fresh_told(name, value, idx),
        StringStep::Call { args } => lemma_call_told(args, idx),
        StringStep::Size { term } => lemma_size_told(term, idx),
        StringStep::SourceSize => lemma_source_told(idx),
        StringStep::Return { value } => lemma_return_told(value, idx),
    }
}

proof fn lemma_well_named(method: StlMethod, alias: Seq<char>)
    ensures
        forall|i: int|
            0 <= i < string_steps(method, alias).len() ==> well_named(
                #[trigger] string_steps(method, alias)[i],
            ),
{
    reveal_strlit("sz");
    reveal_strlit("n");
    reveal_strlit("d");
    reveal_strlit("idx");
    reveal_strlit("src");
    reveal_strlit("sz_src");
    reveal_strlit("cap");
}

/// The place of the call among the statements of a model.
pub open spec fn call_place(method: StlMethod) -> int {
    match method {
        StlMethod::BasicStringCtorDefault | StlMethod::BasicStringDtor
        | StlMethod::BasicStringByteViewNoArg => 0,
        StlMethod::BasicStringResize | StlMethod::BasicStringByteViewIndexArg
        | StlMethod::BasicStringSizeNeutralScalarQuery
        | StlMethod::BasicStringSizeNeutralMutator => 1,
        StlMethod::BasicStringCtorCopy | StlMethod::BasicStringAssignStr
        | StlMethod::BasicStringOpEqStr => 3,
        _ => 2,
    }
}

/// A query reads the size field before the call and says nothing of memory
/// after it; a method that sets the size says what the field holds after
/// the call and not before it; any other says nothing of memory. What a
/// method returns is stated after the call, where it returns something.
pub proof fn law_size_field(method: StlMethod, alias: Seq<char>, idx: Seq<char>)
    requires
        !vector_method(method),
    ensures
        ({
            let lines = string_lines(method, alias, idx);
            let c = call_place(method);
            &&& 0 <= c < lines.len()
            &&& forall|i: int| 0 <= i < lines.len() ==> (is_call(#[trigger] lines[i]) <==> i == c)
            &&& reads_size(method) ==> {
                &&& exists|i: int| 0 <= i < c && starts(#[trigger] lines[i], size_head(idx))
                &&& forall|i: int| c <= i < lines.len() ==> !is_points_to(#[trigger] lines[i])
            }
            &&& writes_size(method) ==> {
                &&& exists|i: int|
                    c < i < lines.len() && starts(#[trigger] lines[i], size_head(idx))
                &&& forall|i: int| 0 <= i <= c ==> !starts(#[trigger] lines[i], size_head(idx))
            }
            &&& leaves_size(method) ==> forall|i: int|
                0 <= i < lines.len() ==> !is_points_to(#[trigger] lines[i])
            &&& returns_nothing(method) ==> forall|i: int|
                0 <= i < lines.len() ==> !is_return(#[trigger] lines[i])
            &&& !returns_nothing(method) ==> exists|i: int|
                c < i < lines.len() && is_return(#[trigger] lines[i])
        }),
        reads_size(method) || writes_size(method) || leaves_size(method),
{
    let steps = string_steps(method, alias);
    let lines = string_lines(method, alias, idx);
    let c = call_place(method);
    lemma_well_named(method, alias);
    assert forall|i: int| 0 <= i < lines.len() implies #[trigger] lines[i] == step_text(
        steps[i],
        idx,
    ) && told_apart(steps[i], idx) by {
        lemma_told_apart(steps[i], idx);
    }
    if reads_size(method) {
        assert(steps[1] is Size && starts(lines[1], size_head(idx)));
    }
    if writes_size(method) {
        assert(steps[c + 1] is Size && starts(lines[c + 1], size_head(idx)));
    }
    if !returns_nothing(method) {
        assert(steps.last() is Return && is_return(lines[lines.len() - 1]));
    }
}

/// The lines of a model, one behind the other, are its body.
pub proof fn law_lines_make_the_body(method: StlMethod, alias: Seq<char>, idx: Seq<char>)
    ensures
        string_body(method, alias, idx) == joined(string_lines(method, alias, idx), nil()),
        forall|i: int|
            0 <= i < string_lines(method, alias, idx).len() ==> ends(
                #[trigger] string_lines(method, alias, idx)[i],
                ";\n"@,
            ),
{
    let steps = string_steps(method, alias);
    let lines = string_lines(method, alias, idx);
    lemma_well_named(method, alias);
    assert forall|i: int| 0 <= i < lines.len() implies ends(#[trigger] lines[i], ";\n"@) by {
        lemma_told_apart(steps[i], idx);
    }
    lemma_steps_joined(steps, idx);
}

proof fn lemma_steps_joined(steps: Seq<StringStep>, idx: Seq<char>)
    ensures
        steps_text(steps, idx) == joined(
            steps.map_values(|step: StringStep| step_text(step, idx)),
            nil(),
        ),
    decreases steps.len(),
{
    broadcast use group_append;
    if steps.len() > 0 {
        let rest = steps.drop_last();
        lemma_steps_joined(rest, idx);
        let v = rest.map_values(|step: StringStep| step_text(step, idx));
        let t = step_text(steps.last(), idx);
        lemma_joined_push(v, nil(), t);
        assert(steps.map_values(|step: StringStep| step_text(step, idx)) =~= v.push(t));
        assert(nil() + t =~= t);
        if rest.len() == 0 {
            assert(steps_text(rest, idx) + t =~= t);
        } else {
            assert(joined(v, nil()) + nil() + t =~= joined(v, nil()) + t);
        }
    }
}

/// The model of a string method.
pub open spec fn string_text(
    method: StlMethod,
    layout: &StringLayout,
    symbol: Seq<char>,
    safe: Seq<char>,
    ov_name: Seq<char>,
) -> Seq<char> {
    let alias = layout.alias@;
    "\n// override: "@ + symbol + "  [stl-functional: "@ + method_text(method) + "]\n"@
        + "let "@ + safe + "_spec = do {\n"@ + "    s <- llvm_fresh_pointer (llvm_alias \""@
        + alias + "\");\n"@ + string_body(method, alias, dec(layout.size_field_index as nat))
        + "};\n"@ + ov_name + " <- llvm_unsafe_assume_spec m \""@ + symbol + "\" "@ + safe
        + "_spec;\n"@
}

/// Emits the model of a string method.
pub fn emit_string_override(
    out: &mut String,
    method: StlMethod,
    layout: &StringLayout,
    symbol: &str,
    safe: &str,
    ov_name: &str,
)
    requires
        !vector_method(method),
    ensures
        final(out)@ == old(out)@ + string_text(method, layout, symbol@, safe@, ov_name@),
{
    broadcast use {group_append, group_views};
    let alias = layout.alias.as_str();
    let kind = method.name();
    let idx = numeral(layout.size_field_index as u128);
    put5(out, "\n// override: ", symbol, "  [stl-functional: ", kind, "]\n");
    put3(out, "let ", safe, "_spec = do {\n");
    put3(out, "    s <- llvm_fresh_pointer (llvm_alias \"", alias, "\");\n");
    put_string_body(out, method, alias, idx.as_str());
    put(out, "};\n");
    put6(out, ov_name, " <- llvm_unsafe_assume_spec m \"", symbol, "\" ", safe, "_spec;\n");
}

} // verus!
