//! What the script for an asynchronous function says, line by line.

use vstd::prelude::*;

use crate::gen_verify_rust::{VerifyParamView, verify_params_view};
use crate::gen_verify_rust_async::{
    AsyncResumeInfo, async_call, async_head, async_params, async_params_item, async_return,
    async_script, async_verify, await_overrides, await_stubs, await_stubs_item, ident_of,
    param_names,
};
use crate::text::{
    at, dec, group_append, joined, lemma_append_assoc, lemma_append_nothing, nil, only_if, views,
};
use crate::text_order::{
    in_order, lemma_in_order_ahead, lemma_in_order_behind, lemma_in_order_first,
    lemma_in_order_join, lemma_in_order_more, lemma_none_in_order, lemma_one_in_order,
    lemma_self_in_order, placed,
};
use crate::verify_script_steps::call_text;

verus! {

/// What stands before and behind the text of one item.
pub proof fn lemma_await_stubs_splits(v: Seq<String>, i: int) -> (r: (Seq<char>, Seq<char>))
    requires
        0 <= i < v.len(),
    ensures
        await_stubs(v) == r.0 + await_stubs_item(v[i]) + r.1,
    decreases v.len(),
{
    let last = await_stubs_item(v.last());
    if i == v.len() - 1 {
        lemma_append_nothing(await_stubs(v.drop_last()) + last);
        (await_stubs(v.drop_last()), nil())
    } else {
        let r = lemma_await_stubs_splits(v.drop_last(), i);
        lemma_append_assoc(r.0 + await_stubs_item(v[i]), r.1, last);
        (r.0, r.1 + last)
    }
}

/// What stands before and behind the text of one item.
pub proof fn lemma_async_params_splits(v: Seq<VerifyParamView>, i: int) -> (r: (Seq<char>, Seq<char>))
    requires
        0 <= i < v.len(),
    ensures
        async_params(v) == r.0 + async_params_item(v[i]) + r.1,
    decreases v.len(),
{
    let last = async_params_item(v.last());
    if i == v.len() - 1 {
        lemma_append_nothing(async_params(v.drop_last()) + last);
        (async_params(v.drop_last()), nil())
    } else {
        let r = lemma_async_params_splits(v.drop_last(), i);
        lemma_append_assoc(r.0 + async_params_item(v[i]), r.1, last);
        (r.0, r.1 + last)
    }
}

/// What the parts of the script hold, the script holds in this order.
proof fn lemma_async_in_order(
    function: Seq<char>,
    cryptol_fn: Seq<char>,
    mir_module: Seq<char>,
    cry_name: Seq<char>,
    info: &AsyncResumeInfo,
    v: Seq<Seq<char>>,
    w: Seq<Seq<char>>,
)
    requires
        in_order(await_stubs(info.sub_await_stubs@), v),
        in_order(async_params(verify_params_view(info.original_params@)), w),
    ensures
        ({
            let params = verify_params_view(info.original_params@);
            let call = call_text(cryptol_fn, param_names(params));
            let overrides = await_overrides(views(info.sub_await_stubs@));
            in_order(
                async_script(function, cryptol_fn, mir_module, cry_name, info),
                v + w + seq![
                    "    mir_execute_func [self_ref, cx_ref];\n\n"@,
                    "    mir_return (mir_term {{ Ready ("@ + call + ") }});\n"@,
                    "mir_verify m \""@ + info.resume_symbol@ + "\" ["@
                        + joined(overrides, ", "@) + "] false "@ + function
                        + "_async_spec z3;\n"@,
                ],
            )
        }),
{
    let params = verify_params_view(info.original_params@);
    let overrides = await_overrides(views(info.sub_await_stubs@));
    let call = call_text(cryptol_fn, param_names(params));
    let stubs_note = only_if(
        info.sub_await_stubs@.len() > 0,
        "// mir_unsafe_assume_spec stubs for .await sub-poll callees.\n"@,
    );
    let blank = only_if(info.original_params@.len() > 0, "\n"@);
    let head = async_head(function, cryptol_fn, mir_module, cry_name, info.resume_symbol@)
        + stubs_note;
    let a = await_stubs(info.sub_await_stubs@);
    let start = "let "@ + function + "_async_spec = do {\n"@;
    let b = async_params(params);
    let c = async_call(function, overrides);
    let d = async_return(call);
    let e = async_verify(function, info.resume_symbol@, overrides);
    let p = "    mir_execute_func [self_ref, cx_ref];\n\n"@;
    let q = "    mir_return (mir_term {{ Ready ("@ + call + ") }});\n"@;
    let r = "mir_verify m \""@ + info.resume_symbol@ + "\" ["@ + joined(overrides, ", "@)
        + "] false "@ + function + "_async_spec z3;\n"@;
    lemma_call_line(function, overrides);
    lemma_return_line(call);
    lemma_verify_line(function, info.resume_symbol@, overrides);
    let x = v + w;
    lemma_in_order_ahead(head, a, v);
    lemma_in_order_behind(head + a, start, v);
    lemma_in_order_join(head + a + start, v, b, w);
    let s = head + a + start + b;
    lemma_in_order_behind(s, blank, x);
    lemma_in_order_join(s + blank, x, c, seq![p]);
    lemma_in_order_join(s + blank + c, x + seq![p], d, seq![q]);
    lemma_in_order_join(s + blank + c + d, x + seq![p] + seq![q], e, seq![r]);
    assert(x + seq![p] + seq![q] + seq![r] =~= x + seq![p, q, r]);
    assert(async_script(function, cryptol_fn, mir_module, cry_name, info) == s + blank + c + d + e)
        by {
        lemma_start(head + a, "let "@, function, "_async_spec = do {\n"@);
    }
}

proof fn lemma_start(a: Seq<char>, b: Seq<char>, c: Seq<char>, d: Seq<char>)
    ensures
        a + b + c + d == a + (b + c + d),
{
    broadcast use group_append;

}

proof fn lemma_call_line(function: Seq<char>, overrides: Seq<Seq<char>>)
    ensures
        in_order(
            async_call(function, overrides),
            seq!["    mir_execute_func [self_ref, cx_ref];\n\n"@],
        ),
{
    let p = "    mir_execute_func [self_ref, cx_ref];\n\n"@;
    lemma_self_in_order(p);
    assert forall|a: Seq<char>| #[trigger] in_order(a + p, seq![p]) by {
        lemma_in_order_ahead(a, p, seq![p]);
    }
}

proof fn lemma_return_line(call: Seq<char>)
    ensures
        in_order(
            async_return(call),
            seq!["    mir_return (mir_term {{ Ready ("@ + call + ") }});\n"@],
        ),
{
    let note = "    // Assert Poll::Ready(result) == model(args).\n"@
        + "    // `Ready` is the Cryptol constructor for Poll::Ready (discriminant 0).\n"@
        + "    // If your spec returns T directly instead of Poll<T>, remove `Ready`.\n"@;
    let q = "    mir_return (mir_term {{ Ready ("@ + call + ") }});\n"@;
    lemma_one_in_order(note, q, "};\n\n"@);
    assert(async_return(call) == note + q + "};\n\n"@) by {
        broadcast use group_append;

    }
}

proof fn lemma_verify_line(function: Seq<char>, resume: Seq<char>, overrides: Seq<Seq<char>>)
    ensures
        in_order(
            async_verify(function, resume, overrides),
            seq![
                "mir_verify m \""@ + resume + "\" ["@ + joined(overrides, ", "@)
                    + "] false "@ + function + "_async_spec z3;\n"@,
            ],
        ),
{
    let a = "print \"BEGIN_PROOF "@ + function + "\";\n"@;
    let r = "mir_verify m \""@ + resume + "\" ["@ + joined(overrides, ", "@) + "] false "@
        + function + "_async_spec z3;\n"@;
    let b = "print \"PROVED "@ + function + "\";\n"@ + "print \"VERIFIED\";\n"@;
    lemma_one_in_order(a, r, b);
    assert(async_verify(function, resume, overrides) == a + r + b) by {
        broadcast use group_append;

    }
}

/// Every parameter of an asynchronous function is bound to a fresh variable of
/// its width before the coroutine is resumed, and what the resumption returns
/// is the result of the Cryptol function on all of these variables, in the
/// order of the parameters.
pub proof fn law_async_result_is_that_of_cryptol(
    function: Seq<char>,
    cryptol_fn: Seq<char>,
    mir_module: Seq<char>,
    cry_name: Seq<char>,
    info: &AsyncResumeInfo,
    i: int,
)
    requires
        0 <= i < info.original_params@.len(),
    ensures
        ({
            let p = info.original_params@[i];
            let names = Seq::new(
                info.original_params@.len(),
                |k: int| info.original_params@[k].name@,
            );
            let ty = if p.bits == 1 {
                "mir_bool"@
            } else {
                "mir_u"@ + dec(p.bits as nat)
            };
            in_order(
                async_script(function, cryptol_fn, mir_module, cry_name, info),
                seq![
                    "    "@ + p.name@ + " <- mir_fresh_var \""@ + p.name@ + "\" ("@ + ty
                        + ");\n"@,
                    "    mir_execute_func [self_ref, cx_ref];\n\n"@,
                    "    mir_return (mir_term {{ Ready ("@ + (cryptol_fn + " "@ + joined(names, " "@)) + ") }});\n"@,
                ],
            )
        }),
{
    let p = info.original_params@[i];
    let params = verify_params_view(info.original_params@);
    let names = Seq::new(info.original_params@.len(), |k: int| info.original_params@[k].name@);
    assert(param_names(params) =~= names);
    let none = Seq::<Seq<char>>::empty();
    let overrides = await_overrides(views(info.sub_await_stubs@));
    let line = async_params_item(params[i]);
    let a = "    mir_execute_func [self_ref, cx_ref];\n\n"@;
    let b = "    mir_return (mir_term {{ Ready ("@ + (cryptol_fn + " "@ + joined(names, " "@)) + ") }});\n"@;
    let c = "mir_verify m \""@ + info.resume_symbol@ + "\" ["@ + joined(overrides, ", "@)
        + "] false "@ + function + "_async_spec z3;\n"@;
    lemma_self_in_order(line);
    let s = lemma_async_params_splits(params, i);
    lemma_in_order_more(s.0, line, s.1, seq![line]);
    lemma_none_in_order(await_stubs(info.sub_await_stubs@));
    lemma_async_in_order(function, cryptol_fn, mir_module, cry_name, info, none, seq![line]);
    assert(none + seq![line] + seq![a, b, c] =~= seq![line, a, b] + seq![c]);
    lemma_in_order_first(
        async_script(function, cryptol_fn, mir_module, cry_name, info),
        seq![line, a, b],
        seq![c],
    );
}

/// Every future that the body awaits is assumed before the proof, and its
/// override is handed to the proof of the symbol that resumes the coroutine.
pub proof fn law_awaited_futures_are_assumed(
    function: Seq<char>,
    cryptol_fn: Seq<char>,
    mir_module: Seq<char>,
    cry_name: Seq<char>,
    info: &AsyncResumeInfo,
    i: int,
)
    requires
        0 <= i < info.sub_await_stubs@.len(),
    ensures
        ({
            let symbol = info.sub_await_stubs@[i]@;
            let safe = ident_of(symbol);
            let names = Seq::new(
                info.sub_await_stubs@.len(),
                |k: int| ident_of(info.sub_await_stubs@[k]@) + "_ov"@,
            );
            in_order(
                async_script(function, cryptol_fn, mir_module, cry_name, info),
                seq![
                    "    mir_execute_func [];\n"@ + "};\n"@ + safe
                        + "_ov <- mir_unsafe_assume_spec m \""@ + symbol + "\" "@ + safe
                        + "_stub_spec;\n\n"@,
                    "mir_verify m \""@ + info.resume_symbol@ + "\" ["@
                        + joined(names, ", "@) + "] false "@ + function + "_async_spec z3;\n"@,
                ],
            )
        }),
{
    let symbol = info.sub_await_stubs@[i]@;
    let safe = ident_of(symbol);
    let params = verify_params_view(info.original_params@);
    let call = call_text(cryptol_fn, param_names(params));
    let text = async_script(function, cryptol_fn, mir_module, cry_name, info);
    let names = Seq::new(
        info.sub_await_stubs@.len(),
        |k: int| ident_of(info.sub_await_stubs@[k]@) + "_ov"@,
    );
    assert(await_overrides(views(info.sub_await_stubs@)) =~= names);
    let none = Seq::<Seq<char>>::empty();
    let line = "    mir_execute_func [];\n"@ + "};\n"@ + safe + "_ov <- mir_unsafe_assume_spec m \""@
        + symbol + "\" "@ + safe + "_stub_spec;\n\n"@;
    let note = "let "@ + safe + "_stub_spec = do {\n"@
        + "    // TODO: tighten — currently havocs all state.\n"@;
    let a = "    mir_execute_func [self_ref, cx_ref];\n\n"@;
    let b = "    mir_return (mir_term {{ Ready ("@ + call + ") }});\n"@;
    let c = "mir_verify m \""@ + info.resume_symbol@ + "\" ["@ + joined(names, ", "@) + "] false "@
        + function + "_async_spec z3;\n"@;
    lemma_self_in_order(line);
    lemma_in_order_ahead(note, line, seq![line]);
    assert(await_stubs_item(info.sub_await_stubs@[i]) == note + line) by {
        broadcast use group_append;

    }
    let s = lemma_await_stubs_splits(info.sub_await_stubs@, i);
    lemma_in_order_more(s.0, await_stubs_item(info.sub_await_stubs@[i]), s.1, seq![line]);
    lemma_none_in_order(async_params(params));
    lemma_async_in_order(function, cryptol_fn, mir_module, cry_name, info, seq![line], none);
    assert(seq![line] + none + seq![a, b, c] =~= seq![line, a, b, c]);
    lemma_in_order_ends(text, line, a, b, c);
}

proof fn lemma_in_order_ends(
    s: Seq<char>,
    a: Seq<char>,
    b: Seq<char>,
    c: Seq<char>,
    d: Seq<char>,
)
    requires
        in_order(s, seq![a, b, c, d]),
    ensures
        in_order(s, seq![a, d]),
{
    reveal(in_order);
    let v = seq![a, b, c, d];
    let places = choose|places: Seq<int>| placed(s, v, places);
    let w = seq![a, d];
    let q = seq![places[0], places[3]];
    assert(at(s, v[0], places[0]) && at(s, v[3], places[3]));
    assert(places[0] + v[0].len() <= places[3]);
    assert(placed(s, w, q));
}

} // verus!
