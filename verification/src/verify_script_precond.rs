//! Preconditions of the parameters of the verified function.

use vstd::prelude::*;

use crate::text::{
    CharSet, group_append, group_views, lemma_append_assoc, lemma_append_nothing, nil, put3, same,
    starts, starts_with, trim_start, trimmed_start,
};

verus! {

/// One precondition: a comment as it is, a clause as a statement, a blank
/// line not at all.
pub open spec fn precondition_text(pre: Seq<char>) -> Seq<char> {
    let t = trimmed_start(pre, CharSet::Space);
    if t.len() == 0 {
        nil()
    } else if starts(t, "//"@) {
        "    "@ + pre + "\n"@
    } else {
        "    "@ + pre + ";\n"@
    }
}

fn put_precondition(out: &mut String, pre: &str)
    ensures
        final(out)@ == old(out)@ + precondition_text(pre@),
{
    broadcast use {group_append, group_views};
    let t = trim_start(pre, CharSet::Space);
    if t.is_empty() {
    } else if starts_with(t, "//") {
        put3(out, "    ", pre, "\n");
    } else {
        put3(out, "    ", pre, ";\n");
    }
}

/// The preconditions of a parameter.
pub open spec fn preconditions(v: Seq<String>) -> Seq<char>
    decreases v.len(),
{
    if v.len() == 0 {
        nil()
    } else {
        preconditions(v.drop_last()) + precondition_text(v.last()@)
    }
}

/// The preconditions of a parameter.
pub fn emit_param_preconditions(out: &mut String, v: &[String])
    ensures
        final(out)@ == old(out)@ + preconditions(v@),
{
    broadcast use lemma_append_nothing;
    let mut i: usize = 0;
    assert(preconditions(v@.take(0)) =~= nil());
    while i < v.len()
        invariant
            i <= v@.len(),
            out@ == old(out)@ + preconditions(v@.take(i as int)),
        decreases v@.len() - i,
    {
        proof {
            assert(v@.take(i + 1).drop_last() =~= v@.take(i as int));
            lemma_append_assoc(old(out)@, preconditions(v@.take(i as int)), precondition_text(v@[i as int]@));
        }
        put_precondition(out, v[i].as_str());
        i += 1;
    }
    assert(v@.take(v@.len() as int) =~= v@);
}

/// The first line of the note on a pointer without a known length.
pub open spec fn length_note(param: Seq<char>) -> Seq<char> {
    "// TODO[saw-spec-gen]: pointer parameter `"@ + param + "` has no length annotation."@
}

/// The end of the continuation lines of a note that stand from `i` on.
pub open spec fn note_end(v: Seq<String>, i: int) -> int
    decreases v.len() - i,
{
    if i < 0 || i >= v.len() {
        v.len() as int
    } else if starts(trimmed_start(v[i]@, CharSet::Space), "//   "@) {
        note_end(v, i + 1)
    } else {
        i
    }
}

pub proof fn lemma_note_end(v: Seq<String>, i: int)
    requires
        0 <= i <= v.len(),
    ensures
        i <= note_end(v, i) <= v.len(),
    decreases v.len() - i,
{
    if i < v.len() && starts(trimmed_start(v[i]@, CharSet::Space), "//   "@) {
        lemma_note_end(v, i + 1);
    }
}

/// The preconditions from `i` on without the given note.
pub open spec fn noteless(v: Seq<String>, note: Seq<char>, i: int) -> Seq<char>
    decreases v.len() - i,
{
    if i < 0 || i >= v.len() {
        nil()
    } else if trimmed_start(v[i]@, CharSet::Space) == note {
        proof {
            lemma_note_end(v, i + 1);
        }
        noteless(v, note, note_end(v, i + 1))
    } else {
        precondition_text(v[i]@) + noteless(v, note, i + 1)
    }
}

/// Emits the preconditions of a parameter without the note on its unknown
/// length: the user has declared the length.
pub fn emit_param_preconditions_filtered(out: &mut String, preconditions: &[String], param_name: &str)
    ensures
        final(out)@ == old(out)@ + noteless(preconditions@, length_note(param_name@), 0),
{
    broadcast use {group_append, group_views};
    let v = preconditions;
    let mut note = String::new();
    put3(
        &mut note,
        "// TODO[saw-spec-gen]: pointer parameter `",
        param_name,
        "` has no length annotation.",
    );
    let mut i: usize = 0;
    while i < v.len()
        invariant
            v == preconditions,
            note@ == length_note(param_name@),
            i <= v@.len(),
            out@ + noteless(v@, note@, i as int) == old(out)@ + noteless(v@, note@, 0),
        decreases v@.len() - i,
    {
        if same(trim_start(v[i].as_str(), CharSet::Space), note.as_str()) {
            i += 1;
            let ghost from = i as int;
            proof {
                lemma_note_end(v@, from);
            }
            while i < v.len() && starts_with(trim_start(v[i].as_str(), CharSet::Space), "//   ")
                invariant
                    v == preconditions,
                    from <= i <= v@.len(),
                    note_end(v@, from) == note_end(v@, i as int),
                decreases v@.len() - i,
            {
                i += 1;
            }
        } else {
            put_precondition(out, v[i].as_str());
            i += 1;
        }
    }
}

} // verus!
