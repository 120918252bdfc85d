//! What the models of functions of the runtime library say, line by line.

use vstd::prelude::*;

use crate::bitcode_overrides_functional::StlMethod;
use crate::bitcode_overrides_functional_string::{
    StringLayout, call_text, fresh_text, law_lines_make_the_body, return_text, size_text,
    source_size_text, string_body, string_lines, string_text,
};
use crate::bitcode_overrides_functional_vector::{vector_body, vector_text};
use crate::memcmp_override::memcmp_text;
use crate::text::{dec, group_append, nil};
use crate::text_order::{
    group_order, in_order, lemma_five_in_order, lemma_four_in_order, lemma_in_order_first,
    lemma_in_order_later, lemma_joined_in_order, lemma_six_in_order,
};

verus! {

/// The model of `memcmp` takes two buffers of the length that is passed, each
/// of which holds a fresh variable, and returns 0 where these are equal and 1
/// where they are not.
pub proof fn law_memcmp_compares_both_buffers(safe: Seq<char>, ov_name: Seq<char>, n: Seq<char>)
    ensures
        in_order(
            memcmp_text(safe, ov_name, n),
            seq![
                "    p0 <- llvm_alloc_readonly (llvm_array "@ + n + " (llvm_int 8));\n"@
                    + "    a <- llvm_fresh_var \"a\" (llvm_array "@ + n + " (llvm_int 8));\n"@
                    + "    llvm_points_to p0 (llvm_term a);\n"@,
                "    p1 <- llvm_alloc_readonly (llvm_array "@ + n + " (llvm_int 8));\n"@
                    + "    b <- llvm_fresh_var \"b\" (llvm_array "@ + n + " (llvm_int 8));\n"@
                    + "    llvm_points_to p1 (llvm_term b);\n"@,
                "    llvm_execute_func [p0, p1, llvm_term {{ "@ + n + " : [64] }}];\n"@,
                "    llvm_return (llvm_term {{ if a == b then (0 : [32]) else (1 : [32]) }});\n"@,
                ov_name + " <- llvm_unsafe_assume_spec m \"memcmp\" "@ + safe + "_spec;\n"@,
            ],
        ),
{
    let head = "\n// override: memcmp  [faithful; fixed length "@ + n + "]\n"@ + "let "@ + safe
        + "_spec = do {\n"@;
    let a = "    p0 <- llvm_alloc_readonly (llvm_array "@ + n + " (llvm_int 8));\n"@
        + "    a <- llvm_fresh_var \"a\" (llvm_array "@ + n + " (llvm_int 8));\n"@
        + "    llvm_points_to p0 (llvm_term a);\n"@;
    let b = "    p1 <- llvm_alloc_readonly (llvm_array "@ + n + " (llvm_int 8));\n"@
        + "    b <- llvm_fresh_var \"b\" (llvm_array "@ + n + " (llvm_int 8));\n"@
        + "    llvm_points_to p1 (llvm_term b);\n"@;
    let c = "    llvm_execute_func [p0, p1, llvm_term {{ "@ + n + " : [64] }}];\n"@;
    let d = "    llvm_return (llvm_term {{ if a == b then (0 : [32]) else (1 : [32]) }});\n"@;
    let e = ov_name + " <- llvm_unsafe_assume_spec m \"memcmp\" "@ + safe + "_spec;\n"@;
    lemma_five_in_order(head, a, nil(), b, nil(), c, nil(), d, "};\n"@, e, nil());
    lemma_memcmp_parts(safe, ov_name, n);
    lemma_memcmp_row(head, a, b, c, d, "};\n"@, e);
}

proof fn lemma_memcmp_row(
    head: Seq<char>,
    a: Seq<char>,
    b: Seq<char>,
    c: Seq<char>,
    d: Seq<char>,
    end: Seq<char>,
    e: Seq<char>,
)
    ensures
        head + a + nil() + b + nil() + c + nil() + d + end + e + nil() == head + a + b + c + d + end
            + e,
{
    broadcast use group_append;

}

proof fn lemma_memcmp_parts(safe: Seq<char>, ov_name: Seq<char>, n: Seq<char>)
    ensures
        memcmp_text(safe, ov_name, n) == ("\n// override: memcmp  [faithful; fixed length "@ + n + "]\n"@ + "let "@ + safe
            + "_spec = do {\n"@) + ("    p0 <- llvm_alloc_readonly (llvm_array "@ + n + " (llvm_int 8));\n"@
               + "    a <- llvm_fresh_var \"a\" (llvm_array "@ + n + " (llvm_int 8));\n"@
               + "    llvm_points_to p0 (llvm_term a);\n"@) + ("    p1 <- llvm_alloc_readonly (llvm_array "@ + n + " (llvm_int 8));\n"@
               + "    b <- llvm_fresh_var \"b\" (llvm_array "@ + n + " (llvm_int 8));\n"@
               + "    llvm_points_to p1 (llvm_term b);\n"@) + ("    llvm_execute_func [p0, p1, llvm_term {{ "@ + n + " : [64] }}];\n"@)
            + "    llvm_return (llvm_term {{ if a == b then (0 : [32]) else (1 : [32]) }});\n"@
            + "};\n"@ + (ov_name + " <- llvm_unsafe_assume_spec m \"memcmp\" "@ + safe + "_spec;\n"@),
{
    broadcast use group_append;

}

/// The model of `push_back` keeps the element that it is given, and that of
/// `back` returns a pointer to the element that was kept, and goes on keeping
/// it: the one gives back what the other took.
pub proof fn law_back_returns_what_was_pushed(
    bits: u32,
    symbol: Seq<char>,
    safe: Seq<char>,
    ov_name: Seq<char>,
)
    ensures
        ({
            let b = bits as nat;
            &&& in_order(
                vector_text(StlMethod::VectorPushBackRvalue, bits, symbol, safe, ov_name),
                seq![
                    "    x <- llvm_fresh_var \"x\" (llvm_int "@ + dec(b) + ");\n"@,
                    "    llvm_points_to x_ptr (llvm_term x);\n"@,
                    "    llvm_execute_func [v, x_ptr];\n"@,
                    "    llvm_ghost_value vec_last x;\n"@,
                ],
            )
            &&& in_order(
                vector_text(StlMethod::VectorBack, bits, symbol, safe, ov_name),
                seq![
                    "    x <- llvm_fresh_var \"x\" (llvm_int "@ + dec(b) + ");\n"@,
                    "    llvm_ghost_value vec_last x;\n"@,
                    "    llvm_execute_func [v];\n"@,
                    "    llvm_points_to r (llvm_term x);\n"@,
                    "    llvm_ghost_value vec_last x;\n"@,
                    "    llvm_return r;\n"@,
                ],
            )
        }),
{
    let n = dec(bits as nat);
    let x = "    x <- llvm_fresh_var \"x\" (llvm_int "@ + n + ");\n"@;
    let ghost_x = "    llvm_ghost_value vec_last x;\n"@;
    let a = "    x_ptr <- llvm_alloc_readonly (llvm_int "@ + n + ");\n"@;
    let b = "    llvm_points_to x_ptr (llvm_term x);\n"@;
    let c = "    llvm_execute_func [v, x_ptr];\n"@;
    let pushed = vector_body(StlMethod::VectorPushBackRvalue, n);
    lemma_four_in_order(a, x, nil(), b, nil(), c, nil(), ghost_x, nil());
    assert(pushed == a + x + nil() + b + nil() + c + nil() + ghost_x + nil()) by {
        broadcast use group_append;

    }
    let d = "    llvm_execute_func [v];\n"@;
    let e = "    r <- llvm_alloc (llvm_int "@ + n + ");\n"@;
    let f = "    llvm_points_to r (llvm_term x);\n"@;
    let g = "    llvm_return r;\n"@;
    let back = vector_body(StlMethod::VectorBack, n);
    lemma_six_in_order(nil(), x, nil(), ghost_x, nil(), d, e, f, nil(), ghost_x, nil(), g, nil());
    assert(back == nil() + x + nil() + ghost_x + nil() + d + e + f + nil() + ghost_x + nil() + g
        + nil()) by {
        broadcast use group_append;

    }
    lemma_vector_in_order(
        StlMethod::VectorPushBackRvalue,
        bits,
        symbol,
        safe,
        ov_name,
        seq![x, b, c, ghost_x],
    );
    lemma_vector_in_order(
        StlMethod::VectorBack,
        bits,
        symbol,
        safe,
        ov_name,
        seq![x, ghost_x, d, f, ghost_x, g],
    );
}

proof fn lemma_vector_in_order(
    method: StlMethod,
    bits: u32,
    symbol: Seq<char>,
    safe: Seq<char>,
    ov_name: Seq<char>,
    v: Seq<Seq<char>>,
)
    requires
        in_order(vector_body(method, dec(bits as nat)), v),
    ensures
        in_order(vector_text(method, bits, symbol, safe, ov_name), v),
{
    broadcast use group_order;

}

/// What the lines of the model of a string method say, the model says in the
/// same order.
proof fn lemma_string_in_order(
    method: StlMethod,
    layout: &StringLayout,
    symbol: Seq<char>,
    safe: Seq<char>,
    ov_name: Seq<char>,
)
    ensures
        in_order(
            string_text(method, layout, symbol, safe, ov_name),
            string_lines(method, layout.alias@, dec(layout.size_field_index as nat)),
        ),
{
    let idx = dec(layout.size_field_index as nat);
    let lines = string_lines(method, layout.alias@, idx);
    let text = string_body(method, layout.alias@, idx);
    law_lines_make_the_body(method, layout.alias@, idx);
    lemma_joined_in_order(lines);
    lemma_string_body_in_order(method, layout, symbol, safe, ov_name, lines);
}

proof fn lemma_string_body_in_order(
    method: StlMethod,
    layout: &StringLayout,
    symbol: Seq<char>,
    safe: Seq<char>,
    ov_name: Seq<char>,
    v: Seq<Seq<char>>,
)
    requires
        in_order(string_body(method, layout.alias@, dec(layout.size_field_index as nat)), v),
    ensures
        in_order(string_text(method, layout, symbol, safe, ov_name), v),
{
    broadcast use group_order;

}

/// The statement on the size field of the string.
pub open spec fn size_line(idx: nat, term: Seq<char>) -> Seq<char> {
    "    llvm_points_to (llvm_elem s "@ + dec(idx) + ") "@ + "("@ + term + ");\n"@
}

/// The models of `size` and `empty` return what the size field holds, and
/// whether that is 0.
pub proof fn law_size_is_what_the_field_holds(
    layout: &StringLayout,
    symbol: Seq<char>,
    safe: Seq<char>,
    ov_name: Seq<char>,
)
    ensures
        ({
            let idx = layout.size_field_index as nat;
            let fresh = "    "@ + "sz"@ + " <- "@ + "llvm_fresh_var \"sz\" (llvm_int 64)"@ + ";\n"@;
            let call = "    llvm_execute_func ["@ + "s"@ + "];\n"@;
            &&& in_order(
                string_text(StlMethod::BasicStringSize, layout, symbol, safe, ov_name),
                seq![
                    fresh,
                    size_line(idx, "llvm_term sz"@),
                    call,
                    "    llvm_return "@ + "(llvm_term sz)"@ + ";\n"@,
                ],
            )
            &&& in_order(
                string_text(StlMethod::BasicStringEmpty, layout, symbol, safe, ov_name),
                seq![
                    fresh,
                    size_line(idx, "llvm_term sz"@),
                    call,
                    "    llvm_return "@ + "(llvm_term {{ sz == 0 }})"@ + ";\n"@,
                ],
            )
        }),
{
    reveal(fresh_text);
    reveal(call_text);
    reveal(size_text);
    reveal(return_text);
    let alias = layout.alias@;
    let idx = dec(layout.size_field_index as nat);
    lemma_string_in_order(StlMethod::BasicStringSize, layout, symbol, safe, ov_name);
    lemma_string_in_order(StlMethod::BasicStringEmpty, layout, symbol, safe, ov_name);
    let fresh = "    "@ + "sz"@ + " <- "@ + "llvm_fresh_var \"sz\" (llvm_int 64)"@ + ";\n"@;
    let call = "    llvm_execute_func ["@ + "s"@ + "];\n"@;
    assert(string_lines(StlMethod::BasicStringSize, alias, idx) =~= seq![
        fresh,
        size_line(layout.size_field_index as nat, "llvm_term sz"@),
        call,
        "    llvm_return "@ + "(llvm_term sz)"@ + ";\n"@,
    ]);
    assert(string_lines(StlMethod::BasicStringEmpty, alias, idx) =~= seq![
        fresh,
        size_line(layout.size_field_index as nat, "llvm_term sz"@),
        call,
        "    llvm_return "@ + "(llvm_term {{ sz == 0 }})"@ + ";\n"@,
    ]);
}

/// After `resize` the size field holds the number that was given, and a new
/// string has the size 0.
pub proof fn law_resize_sets_the_field(
    layout: &StringLayout,
    symbol: Seq<char>,
    safe: Seq<char>,
    ov_name: Seq<char>,
)
    ensures
        ({
            let idx = layout.size_field_index as nat;
            &&& in_order(
                string_text(StlMethod::BasicStringResize, layout, symbol, safe, ov_name),
                seq![
                    "    "@ + "n"@ + " <- "@ + "llvm_fresh_var \"n\" (llvm_int 64)"@ + ";\n"@,
                    "    llvm_execute_func ["@ + "s, llvm_term n"@ + "];\n"@,
                    size_line(idx, "llvm_term n"@),
                ],
            )
            &&& in_order(
                string_text(StlMethod::BasicStringCtorDefault, layout, symbol, safe, ov_name),
                seq![
                    "    llvm_execute_func ["@ + "s"@ + "];\n"@,
                    size_line(idx, "llvm_term {{ 0 : [64] }}"@),
                ],
            )
        }),
{
    reveal(fresh_text);
    reveal(call_text);
    reveal(size_text);
    let alias = layout.alias@;
    let idx = dec(layout.size_field_index as nat);
    lemma_string_in_order(StlMethod::BasicStringResize, layout, symbol, safe, ov_name);
    lemma_string_in_order(StlMethod::BasicStringCtorDefault, layout, symbol, safe, ov_name);
    assert(string_lines(StlMethod::BasicStringResize, alias, idx) =~= seq![
        "    "@ + "n"@ + " <- "@ + "llvm_fresh_var \"n\" (llvm_int 64)"@ + ";\n"@,
        "    llvm_execute_func ["@ + "s, llvm_term n"@ + "];\n"@,
        size_line(layout.size_field_index as nat, "llvm_term n"@),
    ]);
    assert(string_lines(StlMethod::BasicStringCtorDefault, alias, idx) =~= seq![
        "    llvm_execute_func ["@ + "s"@ + "];\n"@,
        size_line(layout.size_field_index as nat, "llvm_term {{ 0 : [64] }}"@),
    ]);
}

/// A copy of a string has the size of that string: the same variable stands
/// for the size field of the source before the call and for that of the copy
/// after it.
pub proof fn law_copy_has_the_size_of_the_source(
    method: StlMethod,
    layout: &StringLayout,
    symbol: Seq<char>,
    safe: Seq<char>,
    ov_name: Seq<char>,
)
    requires
        method is BasicStringCtorCopy || method is BasicStringAssignStr
            || method is BasicStringOpEqStr,
    ensures
        ({
            let idx = layout.size_field_index as nat;
            in_order(
                string_text(method, layout, symbol, safe, ov_name),
                seq![
                    "    "@ + "sz_src"@ + " <- "@ + "llvm_fresh_var \"sz_src\" (llvm_int 64)"@ + ";\n"@,
                    "    llvm_points_to (llvm_elem src "@ + dec(idx)
                        + ") (llvm_term sz_src);\n"@,
                    "    llvm_execute_func ["@ + "s, src"@ + "];\n"@,
                    size_line(idx, "llvm_term sz_src"@),
                ],
            )
        }),
{
    reveal(fresh_text);
    reveal(call_text);
    reveal(size_text);
    reveal(source_size_text);
    let idx = dec(layout.size_field_index as nat);
    let lines = string_lines(method, layout.alias@, idx);
    let text = string_text(method, layout, symbol, safe, ov_name);
    lemma_string_in_order(method, layout, symbol, safe, ov_name);
    let wanted = seq![
        "    "@ + "sz_src"@ + " <- "@ + "llvm_fresh_var \"sz_src\" (llvm_int 64)"@ + ";\n"@,
        "    llvm_points_to (llvm_elem src "@ + idx + ") (llvm_term sz_src);\n"@,
        "    llvm_execute_func ["@ + "s, src"@ + "];\n"@,
        size_line(layout.size_field_index as nat, "llvm_term sz_src"@),
    ];
    assert(lines.subrange(1, 5) =~= wanted);
    lemma_in_order_later(text, lines, 1);
    assert(lines.skip(1) =~= wanted + lines.skip(5));
    lemma_in_order_first(text, wanted, lines.skip(5));
}

} // verus!
