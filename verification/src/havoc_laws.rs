//! What an adversarial specification says of each parameter, of the result
//! and of each global variable, line by line.

use vstd::prelude::*;

use crate::constraints::{
    Annotation, ClassConstructor, GlobalView, InterfaceMethod, Mutability, ParamInfo, TypeInfo,
    TypeView,
};
use crate::havoc::{
    args_of, behavior_of, call_args, cryptol_inputs, globals_block, havoc_text, havoced_globals,
    havoced_globals_item, header_text, post_expr, post_of, posts, return_block, setup_block,
    setup_of, setups, sret_saw,
};
use crate::havoc_params::{
    HavocBehavior, buffer_from, buffer_text, label, opaque_post, opaque_setup, sized_post,
    sized_setup, writes,
};
use crate::names::{sanitized, stub_name};
use crate::text::{
    dec, group_append, joined, lemma_append_assoc, lemma_append_nothing, nil, only_if, value,
};
use crate::text_order::{
    in_order, lemma_in_order_ahead, lemma_in_order_behind, lemma_in_order_first,
    lemma_in_order_join, lemma_in_order_more, lemma_list_of_five, lemma_list_of_four,
    lemma_list_of_three, lemma_list_of_two, lemma_none_in_order, lemma_one_in_order,
    lemma_self_in_order, lemma_three_in_order, lemma_two_in_order,
};
use crate::types::{pointee_text, saw_text};

verus! {

/// What stands before and behind the text of one item.
pub proof fn lemma_setups_splits(v: Seq<ParamInfo>, layout: Option<&ClassConstructor>, i: int) -> (r: (Seq<char>, Seq<char>))
    requires
        0 <= i < v.len(),
    ensures
        setups(v, layout) == r.0 + setup_of(&v[i], layout) + r.1,
    decreases v.len(),
{
    let last = setup_of(&v.last(), layout);
    if i == v.len() - 1 {
        lemma_append_nothing(setups(v.drop_last(), layout) + last);
        (setups(v.drop_last(), layout), nil())
    } else {
        let r = lemma_setups_splits(v.drop_last(), layout, i);
        lemma_append_assoc(r.0 + setup_of(&v[i], layout), r.1, last);
        (r.0, r.1 + last)
    }
}

/// What stands before and behind the text of one item.
pub proof fn lemma_posts_splits(v: Seq<ParamInfo>, layout: Option<&ClassConstructor>, post: Option<Seq<char>>, i: int) -> (r: (Seq<char>, Seq<char>))
    requires
        0 <= i < v.len(),
    ensures
        posts(v, layout, post) == r.0 + post_of(&v[i], layout, post) + r.1,
    decreases v.len(),
{
    let last = post_of(&v.last(), layout, post);
    if i == v.len() - 1 {
        lemma_append_nothing(posts(v.drop_last(), layout, post) + last);
        (posts(v.drop_last(), layout, post), nil())
    } else {
        let r = lemma_posts_splits(v.drop_last(), layout, post, i);
        lemma_append_assoc(r.0 + post_of(&v[i], layout, post), r.1, last);
        (r.0, r.1 + last)
    }
}

/// What stands before and behind the text of one item.
pub proof fn lemma_havoced_globals_splits(v: Seq<GlobalView>, i: int) -> (r: (Seq<char>, Seq<char>))
    requires
        0 <= i < v.len(),
    ensures
        havoced_globals(v) == r.0 + havoced_globals_item(v[i]) + r.1,
    decreases v.len(),
{
    let last = havoced_globals_item(v.last());
    if i == v.len() - 1 {
        lemma_append_nothing(havoced_globals(v.drop_last()) + last);
        (havoced_globals(v.drop_last()), nil())
    } else {
        let r = lemma_havoced_globals_splits(v.drop_last(), i);
        lemma_append_assoc(r.0 + havoced_globals_item(v[i]), r.1, last);
        (r.0, r.1 + last)
    }
}

/// What stands in the setup comes before the call, and what is said of the
/// result, of the parameters and of the global variables comes after it.
proof fn lemma_around_the_havoc_call(
    imethod: &InterfaceMethod,
    globals: Seq<GlobalView>,
    layout: Option<&ClassConstructor>,
    cryptol_fn: Option<Seq<char>>,
    v: Seq<Seq<char>>,
    q: Seq<Seq<char>>,
    w: Seq<Seq<char>>,
    u: Seq<Seq<char>>,
)
    requires
        in_order(setup_block(&imethod.method, layout), v),
        in_order(return_block(imethod.method.return_type@), q),
        in_order(
            posts(imethod.method.params@, layout, post_expr(imethod.method.params@, cryptol_fn)),
            w,
        ),
        in_order(only_if(globals.len() > 0, globals_block(globals)), u),
    ensures
        in_order(
            havoc_text(imethod, globals, layout, cryptol_fn),
            v + seq!["\n    llvm_execute_func ["@] + q + w + u,
        ),
        v.len() == 0 ==> in_order(
            havoc_text(imethod, globals, layout, cryptol_fn),
            seq!["\n    llvm_execute_func ["@ + joined(call_args(&imethod.method), ", "@) + "];\n"@],
        ),
{
    let func = &imethod.method;
    let safe = sanitized(stub_name(imethod.class_name@, imethod.method.name@));
    let post = post_expr(func.params@, cryptol_fn);
    let postconds = posts(func.params@, layout, post);
    let head = header_text(imethod.class_name@, imethod.method.name@) + "let "@ + safe
        + "_havoc : LLVMSetup () = do {\n"@;
    let setup = setup_block(func, layout);
    let call = "\n    llvm_execute_func ["@;
    let args = joined(call_args(func), ", "@);
    let result = return_block(func.return_type@);
    let note = "\n    // --- Postconditions ---\n"@;
    let after = only_if(postconds.len() > 0, note + postconds);
    let g = only_if(globals.len() > 0, globals_block(globals));
    lemma_in_order_ahead(head, setup, v);
    lemma_self_in_order(call);
    let a = head + setup;
    lemma_in_order_join(a, v, call, seq![call]);
    let b = a + call;
    lemma_in_order_behind(b, args, v + seq![call]);
    lemma_in_order_behind(b + args, "];\n"@, v + seq![call]);
    let c = b + args + "];\n"@;
    lemma_in_order_join(c, v + seq![call], result, q);
    if postconds.len() > 0 {
        lemma_in_order_ahead(note, postconds, w);
    } else {
        assert(postconds =~= nil());
    }
    lemma_in_order_join(c + result, v + seq![call] + q, after, w);
    lemma_in_order_join(c + result + after, v + seq![call] + q + w, g, u);
    lemma_in_order_behind(c + result + after + g, "};\n"@, v + seq![call] + q + w + u);
    assert(havoc_text(imethod, globals, layout, cryptol_fn) == c + result + after + g + "};\n"@);
    if v.len() == 0 {
        let line = "\n    llvm_execute_func ["@ + args + "];\n"@;
        lemma_line_in_order(a, call, args, "];\n"@);
        lemma_in_order_behind(c, result, seq![line]);
        lemma_in_order_behind(c + result, after, seq![line]);
        lemma_in_order_behind(c + result + after, g, seq![line]);
        lemma_in_order_behind(c + result + after + g, "};\n"@, seq![line]);
    }
}

proof fn lemma_line_in_order(a: Seq<char>, p: Seq<char>, q: Seq<char>, r: Seq<char>)
    ensures
        in_order(a + p + q + r, seq![p + q + r]),
{
    lemma_self_in_order(p + q + r);
    lemma_in_order_ahead(a, p + q + r, seq![p + q + r]);
    assert(a + (p + q + r) =~= a + p + q + r);
}

/// The call takes every parameter in its place: a pointer as such, any other
/// as a term. The pointer to a returned aggregate stands behind the first.
pub proof fn law_havoc_call_takes_every_parameter(
    imethod: &InterfaceMethod,
    globals: Seq<GlobalView>,
    layout: Option<&ClassConstructor>,
    cryptol_fn: Option<Seq<char>>,
)
    ensures
        ({
            let params = imethod.method.params@;
            let given = Seq::new(
                params.len(),
                |i: int|
                    if params[i].ty is Pointer {
                        params[i].name@ + "_ptr"@
                    } else {
                        "llvm_term "@ + params[i].name@
                    },
            );
            let args = if sret_saw(imethod.method.return_type@) is None {
                given
            } else if given.len() == 0 {
                seq!["result_ptr"@]
            } else {
                seq![given[0], "result_ptr"@] + given.skip(1)
            };
            in_order(
                havoc_text(imethod, globals, layout, cryptol_fn),
                seq!["\n    llvm_execute_func ["@ + joined(args, ", "@) + "];\n"@],
            )
        }),
{
    let params = imethod.method.params@;
    let none = Seq::<Seq<char>>::empty();
    lemma_none_in_order(setup_block(&imethod.method, layout));
    lemma_none_in_order(return_block(imethod.method.return_type@));
    lemma_none_in_order(posts(params, layout, post_expr(params, cryptol_fn)));
    lemma_none_in_order(only_if(globals.len() > 0, globals_block(globals)));
    lemma_around_the_havoc_call(imethod, globals, layout, cryptol_fn, none, none, none, none);
    let given = Seq::new(
        params.len(),
        |i: int|
            if params[i].ty is Pointer {
                params[i].name@ + "_ptr"@
            } else {
                "llvm_term "@ + params[i].name@
            },
    );
    assert(args_of(params) =~= given);
    if given.len() > 0 {
        assert(given.insert(1, "result_ptr"@) =~= seq![given[0], "result_ptr"@] + given.skip(1));
    }
}

/// After the call every global variable of the program holds any value: a
/// variable is bound at its type, and then the symbol points to it.
pub proof fn law_every_global_is_havoced(
    imethod: &InterfaceMethod,
    globals: Seq<GlobalView>,
    layout: Option<&ClassConstructor>,
    cryptol_fn: Option<Seq<char>>,
    i: int,
)
    requires
        0 <= i < globals.len(),
    ensures
        ({
            let safe = sanitized(globals[i].name);
            in_order(
                havoc_text(imethod, globals, layout, cryptol_fn),
                seq![
                    "\n    llvm_execute_func ["@,
                    "    "@ + safe + "_post <- llvm_fresh_var \""@ + safe + "_post\" ("@
                        + saw_text(globals[i].ty) + ");\n"@,
                    "    llvm_points_to (llvm_global \""@ + globals[i].mangled_name
                        + "\") (llvm_term "@ + safe + "_post);\n"@,
                ],
            )
        }),
{
    let params = imethod.method.params@;
    let none = Seq::<Seq<char>>::empty();
    lemma_none_in_order(setup_block(&imethod.method, layout));
    lemma_none_in_order(return_block(imethod.method.return_type@));
    lemma_none_in_order(posts(params, layout, post_expr(params, cryptol_fn)));
    let safe = sanitized(globals[i].name);
    let fresh = "    "@ + safe + "_post <- llvm_fresh_var \""@ + safe + "_post\" ("@
        + saw_text(globals[i].ty) + ");\n"@;
    let points = "    llvm_points_to (llvm_global \""@ + globals[i].mangled_name + "\") (llvm_term "@
        + safe + "_post);\n"@;
    let u = seq![fresh, points];
    let call = "\n    llvm_execute_func ["@;
    lemma_havoced_global_lines(globals[i]);
    let s = lemma_havoced_globals_splits(globals, i);
    lemma_in_order_more(s.0, havoced_globals_item(globals[i]), s.1, u);
    lemma_globals_block_in_order(globals, u);
    lemma_around_the_havoc_call(imethod, globals, layout, cryptol_fn, none, none, none, u);
    assert(none + seq![call] + none + none + u =~= seq![call, fresh, points]);
}

proof fn lemma_globals_block_in_order(globals: Seq<GlobalView>, u: Seq<Seq<char>>)
    requires
        in_order(havoced_globals(globals), u),
    ensures
        in_order(globals_block(globals), u),
{
    broadcast use lemma_in_order_ahead;

}

/// The lines of one global variable.
proof fn lemma_havoced_global_lines(g: GlobalView)
    ensures
        ({
            let safe = sanitized(g.name);
            in_order(
                havoced_globals_item(g),
                seq![
                    "    "@ + safe + "_post <- llvm_fresh_var \""@ + safe + "_post\" ("@
                        + saw_text(g.ty) + ");\n"@,
                    "    llvm_points_to (llvm_global \""@ + g.mangled_name
                        + "\") (llvm_term "@ + safe + "_post);\n"@,
                ],
            )
        }),
{
    broadcast use group_append;

    let safe = sanitized(g.name);
    let fresh = "    "@ + safe + "_post <- llvm_fresh_var \""@ + safe + "_post\" ("@ + saw_text(g.ty)
        + ");\n"@;
    let points = "    llvm_points_to (llvm_global \""@ + g.mangled_name + "\") (llvm_term "@ + safe
        + "_post);\n"@;
    lemma_two_in_order(nil(), fresh, nil(), points, nil());
    assert(havoced_globals_item(g) == nil() + fresh + nil() + points + nil());
}

/// After the call a method has any result of its type: a fresh variable is
/// bound and returned, or written through the pointer that the setup
/// allocates for an aggregate.
pub proof fn law_result_is_chosen_after_the_call(
    imethod: &InterfaceMethod,
    globals: Seq<GlobalView>,
    layout: Option<&ClassConstructor>,
    cryptol_fn: Option<Seq<char>>,
)
    ensures
        ({
            let text = havoc_text(imethod, globals, layout, cryptol_fn);
            let ty = imethod.method.return_type@;
            match sret_saw(ty) {
                Some(saw) => in_order(
                    text,
                    seq![
                        "    result_ptr <- llvm_alloc ("@ + saw + ");\n"@,
                        "\n    llvm_execute_func ["@,
                        "    ret <- llvm_fresh_var \"ret\" ("@ + saw + ");\n"@,
                        "    llvm_points_to result_ptr (llvm_term ret);\n"@,
                    ],
                ),
                None => saw_text(ty) == "// void"@ || in_order(
                    text,
                    seq![
                        "\n    llvm_execute_func ["@,
                        "    ret <- llvm_fresh_var \"ret\" ("@ + saw_text(ty) + ");\n"@,
                        "    llvm_return (llvm_term ret);\n"@,
                    ],
                ),
            }
        }),
{
    let params = imethod.method.params@;
    let none = Seq::<Seq<char>>::empty();
    let ty = imethod.method.return_type@;
    let call = "\n    llvm_execute_func ["@;
    lemma_none_in_order(setup_block(&imethod.method, layout));
    lemma_none_in_order(posts(params, layout, post_expr(params, cryptol_fn)));
    lemma_none_in_order(only_if(globals.len() > 0, globals_block(globals)));
    match sret_saw(ty) {
        Some(saw) => {
            let alloc = "    result_ptr <- llvm_alloc ("@ + saw + ");\n"@;
            let fresh = "    ret <- llvm_fresh_var \"ret\" ("@ + saw + ");\n"@;
            let points = "    llvm_points_to result_ptr (llvm_term ret);\n"@;
            let note = "\n    // sret: aggregate return passed via hidden output pointer\n"@
                + "    // (MSVC ABI: parameter index 1, immediately after `this`).\n"@;
            lemma_self_in_order(alloc);
            lemma_in_order_ahead(note, alloc, seq![alloc]);
            lemma_in_order_ahead(setups(params, layout), note + alloc, seq![alloc]);
            assert(setup_block(&imethod.method, layout) == setups(params, layout) + (note + alloc)) by {
                broadcast use group_append;

            }
            lemma_return_lines(ty);
            lemma_around_the_havoc_call(
                imethod, globals, layout, cryptol_fn, seq![alloc], seq![fresh, points], none, none,
            );
            assert(seq![alloc] + seq![call] + seq![fresh, points] + none + none
                =~= seq![alloc, call, fresh, points]);
        },
        None => {
            if saw_text(ty) != "// void"@ {
                let fresh = "    ret <- llvm_fresh_var \"ret\" ("@ + saw_text(ty) + ");\n"@;
                let returned = "    llvm_return (llvm_term ret);\n"@;
                lemma_return_lines(ty);
                lemma_around_the_havoc_call(
                    imethod, globals, layout, cryptol_fn, none, seq![fresh, returned], none, none,
                );
                assert(none + seq![call] + seq![fresh, returned] + none + none
                    =~= seq![call, fresh, returned]);
            }
        },
    }
}

/// The lines of the result.
proof fn lemma_return_lines(ty: TypeView)
    ensures
        sret_saw(ty) matches Some(saw) ==> in_order(
            return_block(ty),
            seq![
                "    ret <- llvm_fresh_var \"ret\" ("@ + saw + ");\n"@,
                "    llvm_points_to result_ptr (llvm_term ret);\n"@,
            ],
        ),
        sret_saw(ty) is None && saw_text(ty) != "// void"@ ==> in_order(
            return_block(ty),
            seq![
                "    ret <- llvm_fresh_var \"ret\" ("@ + saw_text(ty) + ");\n"@,
                "    llvm_return (llvm_term ret);\n"@,
            ],
        ),
{
    broadcast use group_append;

    match sret_saw(ty) {
        Some(saw) => {
            let note = "\n    // sret return: solver chooses any final value for *result_ptr\n"@;
            let fresh = "    ret <- llvm_fresh_var \"ret\" ("@ + saw + ");\n"@;
            let points = "    llvm_points_to result_ptr (llvm_term ret);\n"@;
            lemma_two_in_order(note, fresh, nil(), points, nil());
            assert(return_block(ty) == note + fresh + nil() + points + nil());
        },
        None => {
            if saw_text(ty) != "// void"@ {
                let note = "\n    // Return: unconstrained (solver chooses any value)\n"@;
                let fresh = "    ret <- llvm_fresh_var \"ret\" ("@ + saw_text(ty) + ");\n"@;
                let points = "    llvm_return (llvm_term ret);\n"@;
                lemma_two_in_order(note, fresh, nil(), points, nil());
                assert(return_block(ty) == note + fresh + nil() + points + nil());
            }
        },
    }
}

/// What stands in the setup and in the postconditions of one parameter stands
/// before and behind the call.
pub proof fn lemma_param_around_the_call(
    imethod: &InterfaceMethod,
    globals: Seq<GlobalView>,
    layout: Option<&ClassConstructor>,
    cryptol_fn: Option<Seq<char>>,
    i: int,
    v: Seq<Seq<char>>,
    w: Seq<Seq<char>>,
)
    requires
        0 <= i < imethod.method.params@.len(),
        in_order(setup_of(&imethod.method.params@[i], layout), v),
        in_order(
            post_of(
                &imethod.method.params@[i],
                layout,
                post_expr(imethod.method.params@, cryptol_fn),
            ),
            w,
        ),
    ensures
        in_order(
            havoc_text(imethod, globals, layout, cryptol_fn),
            v + seq!["\n    llvm_execute_func ["@] + w,
        ),
{
    let params = imethod.method.params@;
    let post = post_expr(params, cryptol_fn);
    let none = Seq::<Seq<char>>::empty();
    let call = "\n    llvm_execute_func ["@;
    let s = lemma_setups_splits(params, layout, i);
    let t = lemma_posts_splits(params, layout, post, i);
    lemma_in_order_more(s.0, setup_of(&params[i], layout), s.1, v);
    lemma_in_order_more(t.0, post_of(&params[i], layout, post), t.1, w);
    lemma_setup_block_in_order(imethod, layout, v);
    lemma_none_in_order(return_block(imethod.method.return_type@));
    lemma_none_in_order(only_if(globals.len() > 0, globals_block(globals)));
    lemma_around_the_havoc_call(imethod, globals, layout, cryptol_fn, v, none, w, none);
    assert(v + seq![call] + none + w + none =~= v + seq![call] + w);
}

proof fn lemma_setup_block_in_order(
    imethod: &InterfaceMethod,
    layout: Option<&ClassConstructor>,
    v: Seq<Seq<char>>,
)
    requires
        in_order(setups(imethod.method.params@, layout), v),
    ensures
        in_order(setup_block(&imethod.method, layout), v),
{
    broadcast use lemma_in_order_behind;

}

/// Is the memory behind a parameter kept? It is where the parameter is const
/// or an annotation says that it is only read.
pub open spec fn is_kept(p: ParamInfo) -> bool {
    p.mutability == Mutability::Readonly || exists|k: int|
        0 <= k < p.annotations@.len() && #[trigger] p.annotations@[k] is InReads
}

/// Is the pointee modelled as one value? A struct with known fields is not,
/// unless an annotation makes it a buffer, nor is an object of unknown layout.
pub open spec fn is_one_value(p: ParamInfo) -> bool {
    p.ty matches TypeInfo::Pointer(inner) && {
        let sized = buffer_from(p.annotations@, 0) is Some;
        &&& !(p.name@ == "this"@ && (*inner matches TypeInfo::Opaque { size_bytes, .. } && size_bytes == 0))
        &&& sized || !(*inner matches TypeInfo::Struct { fields, .. } && fields@.len() > 0)
    }
}

/// The type of a pointee that is modelled as one value: a buffer of as many
/// elements as the annotation says, or the value itself.
pub open spec fn value_type(p: ParamInfo) -> Seq<char> {
    match p.ty {
        TypeInfo::Pointer(inner) => match buffer_from(p.annotations@, 0) {
            Some(n) => {
                let elem = match *inner {
                    TypeInfo::Pointer(e) => pointee_text((*e)@),
                    _ => pointee_text((*inner)@),
                };
                "llvm_array "@ + dec(n as nat) + " ("@ + elem + ")"@
            },
            None => pointee_text((*inner)@),
        },
        _ => nil(),
    }
}

/// The lines of a pointer to one value.
proof fn lemma_opaque_lines(
    name: Seq<char>,
    inner: &TypeInfo,
    write_only: bool,
    ann: Seq<char>,
    post: Option<Seq<char>>,
)
    ensures
        ({
            let ty = pointee_text(inner@);
            let alloc = "llvm_alloc_readonly"@;
            &&& in_order(
                opaque_setup(name, inner, true, alloc, ann),
                seq![
                    "    "@ + name + "_ptr <- "@ + alloc + " ("@ + ty + ");\n"@,
                    "    "@ + name + "_val <- llvm_fresh_var \""@ + name + "\" ("@ + ty
                        + ");\n"@,
                    "    llvm_points_to "@ + name + "_ptr (llvm_term "@ + name + "_val);\n"@,
                ],
            )
            &&& in_order(
                opaque_setup(name, inner, false, "llvm_alloc"@, ann),
                seq!["    "@ + name + "_ptr <- "@ + "llvm_alloc"@ + " ("@ + ty + ");\n"@],
            )
            &&& in_order(
                opaque_post(name, inner, true, write_only, ann, post),
                seq!["    llvm_points_to "@ + name + "_ptr (llvm_term "@ + name + "_val);\n"@],
            )
            &&& !write_only || post is None ==> in_order(
                opaque_post(name, inner, false, write_only, ann, post),
                seq![
                    "    "@ + name + "_after <- llvm_fresh_var \""@ + name + "_after\" ("@
                        + ty + ");\n"@,
                    "    llvm_points_to "@ + name + "_ptr (llvm_term "@ + name + "_after);\n"@,
                ],
            )
            &&& write_only && post is Some ==> in_order(
                opaque_post(name, inner, false, write_only, ann, post),
                seq!["    llvm_points_to "@ + name + "_ptr (llvm_term {{ "@ + post->0 + " }});\n"@],
            )
        }),
{
    broadcast use group_append;

    let ty = pointee_text(inner@);
    let note = "\n    // Parameter: "@ + name + " ("@ + ann + ")\n"@;
    let ro = "llvm_alloc_readonly"@;
    let rw = "llvm_alloc"@;
    let a = "    "@ + name + "_ptr <- "@ + ro + " ("@ + ty + ");\n"@;
    let b = "    "@ + name + "_val <- llvm_fresh_var \""@ + name + "\" ("@ + ty + ");\n"@;
    let c = "    llvm_points_to "@ + name + "_ptr (llvm_term "@ + name + "_val);\n"@;
    lemma_three_in_order(note, a, nil(), b, nil(), c, nil());
    assert(opaque_setup(name, inner, true, ro, ann) == note + a + nil() + b + nil() + c + nil());
    let d = "    "@ + name + "_ptr <- "@ + rw + " ("@ + ty + ");\n"@;
    lemma_one_in_order(note, d, nil());
    assert(opaque_setup(name, inner, false, rw, ann) == note + d + nil());
    let kept = "    // "@ + name + ": "@ + ann + " → memory unchanged\n"@;
    lemma_one_in_order(kept, c, nil());
    assert(opaque_post(name, inner, true, write_only, ann, post) == kept + c + nil());
    if write_only && post is Some {
        let said = "    // "@ + name + ": "@ + ann + " → value defined by Cryptol spec\n"@;
        let e = "    llvm_points_to "@ + name + "_ptr (llvm_term {{ "@ + post->0 + " }});\n"@;
        lemma_one_in_order(said, e, nil());
        assert(opaque_post(name, inner, false, write_only, ann, post) == said + e + nil());
    } else {
        let said = "    // "@ + name + ": "@ + ann + " → solver chooses ANY final value\n"@;
        let e = "    "@ + name + "_after <- llvm_fresh_var \""@ + name + "_after\" ("@ + ty + ");\n"@;
        let f = "    llvm_points_to "@ + name + "_ptr (llvm_term "@ + name + "_after);\n"@;
        lemma_two_in_order(said, e, nil(), f, nil());
        assert(opaque_post(name, inner, false, write_only, ann, post) == said + e + nil() + f + nil());
    }
}

/// The lines of a pointer to a buffer.
proof fn lemma_sized_lines(name: Seq<char>, inner: &TypeInfo, n: usize, alloc: Seq<char>, ann: Seq<char>)
    ensures
        ({
            let ty = buffer_text(inner, n);
            &&& in_order(
                sized_setup(name, inner, n, alloc, ann),
                seq![
                    "    "@ + name + "_ptr <- "@ + alloc + " ("@ + ty + ");\n"@,
                    "    "@ + name + "_val <- llvm_fresh_var \""@ + name + "\" ("@ + ty
                        + ");\n"@,
                    "    llvm_points_to "@ + name + "_ptr (llvm_term "@ + name + "_val);\n"@,
                ],
            )
            &&& in_order(
                sized_post(name, inner, n, true),
                seq!["    llvm_points_to "@ + name + "_ptr (llvm_term "@ + name + "_val);\n"@],
            )
            &&& in_order(
                sized_post(name, inner, n, false),
                seq![
                    "    "@ + name + "_after <- llvm_fresh_var \""@ + name + "_after\" ("@
                        + ty + ");\n"@,
                    "    llvm_points_to "@ + name + "_ptr (llvm_term "@ + name + "_after);\n"@,
                ],
            )
        }),
{
    broadcast use group_append;

    let ty = buffer_text(inner, n);
    let note = "\n    // Parameter: "@ + name + " ("@ + ann + ", buffer["@ + dec(n as nat) + "])\n"@;
    let a = "    "@ + name + "_ptr <- "@ + alloc + " ("@ + ty + ");\n"@;
    let b = "    "@ + name + "_val <- llvm_fresh_var \""@ + name + "\" ("@ + ty + ");\n"@;
    let c = "    llvm_points_to "@ + name + "_ptr (llvm_term "@ + name + "_val);\n"@;
    lemma_three_in_order(note, a, nil(), b, nil(), c, nil());
    assert(sized_setup(name, inner, n, alloc, ann) == note + a + nil() + b + nil() + c + nil());
    let kept = "    // "@ + name + ": _In_reads_("@ + dec(n as nat) + ") → buffer preserved\n"@;
    lemma_one_in_order(kept, c, nil());
    assert(sized_post(name, inner, n, true) == kept + c + nil());
    let said = "    // "@ + name + ": _Out_writes_("@ + dec(n as nat) + ") → buffer HAVOCED (any "@
        + dec(n as nat) + " elements)\n"@;
    let e = "    "@ + name + "_after <- llvm_fresh_var \""@ + name + "_after\" ("@ + ty + ");\n"@;
    let f = "    llvm_points_to "@ + name + "_ptr (llvm_term "@ + name + "_after);\n"@;
    lemma_two_in_order(said, e, nil(), f, nil());
    assert(sized_post(name, inner, n, false) == said + e + nil() + f + nil());
}

/// A method leaves const memory, and memory that it is said only to read, as
/// it was: the memory is read-only, and after the call the pointer points to
/// the very variable to which the setup points it.
#[verifier::rlimit(60)]
pub proof fn law_kept_memory_is_unchanged(
    imethod: &InterfaceMethod,
    globals: Seq<GlobalView>,
    layout: Option<&ClassConstructor>,
    cryptol_fn: Option<Seq<char>>,
    i: int,
)
    requires
        0 <= i < imethod.method.params@.len(),
        is_one_value(imethod.method.params@[i]),
        is_kept(imethod.method.params@[i]),
    ensures
        ({
            let p = imethod.method.params@[i];
            let name = p.name@;
            let ty = value_type(p);
            in_order(
                havoc_text(imethod, globals, layout, cryptol_fn),
                seq![
                    "    "@ + name + "_ptr <- "@ + "llvm_alloc_readonly"@ + " ("@ + ty + ");\n"@,
                    "    "@ + name + "_val <- llvm_fresh_var \""@ + name + "\" ("@ + ty
                        + ");\n"@,
                    "    llvm_points_to "@ + name + "_ptr (llvm_term "@ + name + "_val);\n"@,
                    "\n    llvm_execute_func ["@,
                    "    llvm_points_to "@ + name + "_ptr (llvm_term "@ + name + "_val);\n"@,
                ],
            )
        }),
{
    let p = imethod.method.params@[i];
    let name = p.name@;
    let ty = value_type(p);
    let inner = p.ty->Pointer_0;
    let alloc = "llvm_alloc_readonly"@;
    let ann = label(p.annotations@, true);
    let post = post_expr(imethod.method.params@, cryptol_fn);
    let a = "    "@ + name + "_ptr <- "@ + alloc + " ("@ + ty + ");\n"@;
    let b = "    "@ + name + "_val <- llvm_fresh_var \""@ + name + "\" ("@ + ty + ");\n"@;
    let c = "    llvm_points_to "@ + name + "_ptr (llvm_term "@ + name + "_val);\n"@;
    let call = "\n    llvm_execute_func ["@;
    assert(behavior_of(&p) == HavocBehavior::Preserved);
    lemma_opaque_lines(name, &*inner, writes(p.annotations@), ann, post);
    if buffer_from(p.annotations@, 0) is Some {
        lemma_sized_lines(name, &*inner, buffer_from(p.annotations@, 0)->0, alloc, ann);
    }
    assert(in_order(setup_of(&p, layout), seq![a, b, c]));
    assert(in_order(post_of(&p, layout, post), seq![c]));
    lemma_param_around_the_call(imethod, globals, layout, cryptol_fn, i, seq![a, b, c], seq![c]);
    lemma_list_of_four(a, b, c, call);
    lemma_list_of_five(a, b, c, call, c);
}

/// To any other memory a method may write anything: after the call the
/// pointer points to a fresh variable of the same type. The one exception is
/// memory that is only written and for which a Cryptol function is given:
/// there the pointer points to what that function returns on the values that
/// the method takes.
#[verifier::rlimit(60)]
pub proof fn law_other_memory_is_arbitrary(
    imethod: &InterfaceMethod,
    globals: Seq<GlobalView>,
    layout: Option<&ClassConstructor>,
    cryptol_fn: Option<Seq<char>>,
    i: int,
)
    requires
        0 <= i < imethod.method.params@.len(),
        is_one_value(imethod.method.params@[i]),
        !is_kept(imethod.method.params@[i]),
        imethod.method.params@[i].name@ != "this"@ || layout is None,
    ensures
        ({
            let p = imethod.method.params@[i];
            let name = p.name@;
            let ty = value_type(p);
            let only_written = buffer_from(p.annotations@, 0) is None && exists|k: int|
                0 <= k < p.annotations@.len() && #[trigger] p.annotations@[k] is OutWrites;
            if cryptol_fn is Some && only_written {
                in_order(
                    havoc_text(imethod, globals, layout, cryptol_fn),
                    seq![
                        "    "@ + name + "_ptr <- "@ + "llvm_alloc"@ + " ("@ + ty + ");\n"@,
                        "\n    llvm_execute_func ["@,
                        "    llvm_points_to "@ + name + "_ptr (llvm_term {{ "@
                            + cryptol_call(cryptol_fn->0, imethod.method.params@) + " }});\n"@,
                    ],
                )
            } else {
                in_order(
                    havoc_text(imethod, globals, layout, cryptol_fn),
                    seq![
                        "    "@ + name + "_ptr <- "@ + "llvm_alloc"@ + " ("@ + ty + ");\n"@,
                        "\n    llvm_execute_func ["@,
                        "    "@ + name + "_after <- llvm_fresh_var \""@ + name
                            + "_after\" ("@ + ty + ");\n"@,
                        "    llvm_points_to "@ + name + "_ptr (llvm_term "@ + name
                            + "_after);\n"@,
                    ],
                )
            }
        }),
{
    let p = imethod.method.params@[i];
    let name = p.name@;
    let ty = value_type(p);
    let inner = p.ty->Pointer_0;
    let alloc = "llvm_alloc"@;
    let ann = label(p.annotations@, false);
    let post = post_expr(imethod.method.params@, cryptol_fn);
    let a = "    "@ + name + "_ptr <- "@ + alloc + " ("@ + ty + ");\n"@;
    let e = "    "@ + name + "_after <- llvm_fresh_var \""@ + name + "_after\" ("@ + ty + ");\n"@;
    let f = "    llvm_points_to "@ + name + "_ptr (llvm_term "@ + name + "_after);\n"@;
    let call = "\n    llvm_execute_func ["@;
    assert(behavior_of(&p) == HavocBehavior::Havoced);
    lemma_opaque_lines(name, &*inner, writes(p.annotations@), ann, post);
    lemma_post_expr(imethod.method.params@, cryptol_fn);
    if buffer_from(p.annotations@, 0) is Some {
        let b = "    "@ + name + "_val <- llvm_fresh_var \""@ + name + "\" ("@ + ty + ");\n"@;
        let c = "    llvm_points_to "@ + name + "_ptr (llvm_term "@ + name + "_val);\n"@;
        lemma_sized_lines(name, &*inner, buffer_from(p.annotations@, 0)->0, alloc, ann);
        lemma_list_of_three(a, b, c);
        lemma_in_order_first(setup_of(&p, layout), seq![a], seq![b, c]);
    }
    assert(in_order(setup_of(&p, layout), seq![a]));
    lemma_list_of_two(a, call);
    if cryptol_fn is Some && buffer_from(p.annotations@, 0) is None && writes(p.annotations@) {
        let d = "    llvm_points_to "@ + name + "_ptr (llvm_term {{ "@ + post->0 + " }});\n"@;
        assert(in_order(post_of(&p, layout, post), seq![d]));
        lemma_param_around_the_call(imethod, globals, layout, cryptol_fn, i, seq![a], seq![d]);
        lemma_list_of_three(a, call, d);
    } else {
        assert(in_order(post_of(&p, layout, post), seq![e, f]));
        lemma_param_around_the_call(imethod, globals, layout, cryptol_fn, i, seq![a], seq![e, f]);
        lemma_list_of_four(a, call, e, f);
    }
}

/// Is the parameter an input of the Cryptol function? A scalar is, and a
/// pointer to memory that is kept; `this` is not.
pub open spec fn is_input(p: ParamInfo) -> bool {
    p.name@ != "this"@ && (!(p.ty is Pointer) || is_kept(p))
}

/// The call of the Cryptol function on the inputs among the parameters, in
/// their order: a scalar itself, and what a pointer points to.
pub open spec fn cryptol_call(f: Seq<char>, params: Seq<ParamInfo>) -> Seq<char> {
    let args = params.filter(|p: ParamInfo| is_input(p)).map_values(
        |p: ParamInfo|
            if p.ty is Pointer {
                p.name@ + "_val"@
            } else {
                p.name@
            },
    );
    if args.len() == 0 {
        f
    } else {
        f + " "@ + joined(args, " "@)
    }
}

proof fn lemma_inputs(params: Seq<ParamInfo>)
    ensures
        cryptol_inputs(params) =~= params.filter(|p: ParamInfo| is_input(p)).map_values(
            |p: ParamInfo|
                if p.ty is Pointer {
                    p.name@ + "_val"@
                } else {
                    p.name@
                },
        ),
    decreases params.len(),
{
    reveal(Seq::filter);
    let pred = |p: ParamInfo| is_input(p);
    let value = |p: ParamInfo|
        if p.ty is Pointer {
            p.name@ + "_val"@
        } else {
            p.name@
        };
    if params.len() > 0 {
        let rest = params.drop_last();
        let p = params.last();
        lemma_inputs(rest);
        assert(is_kept(p) == (behavior_of(&p) == HavocBehavior::Preserved));
        if is_input(p) {
            assert(params.filter(pred) == rest.filter(pred).push(p));
            assert(params.filter(pred).map_values(value) =~= rest.filter(pred).map_values(value).push(
                value(p),
            ));
        }
    }
}

proof fn lemma_post_expr(params: Seq<ParamInfo>, cryptol_fn: Option<Seq<char>>)
    ensures
        cryptol_fn matches Some(f) ==> post_expr(params, cryptol_fn) == Some(cryptol_call(f, params)),
        cryptol_fn is None ==> post_expr(params, cryptol_fn) is None,
{
    lemma_inputs(params);
}

/// A parameter that is passed by value is bound to a fresh variable of its
/// type before the call.
pub proof fn law_passed_value_is_fresh(
    imethod: &InterfaceMethod,
    globals: Seq<GlobalView>,
    layout: Option<&ClassConstructor>,
    cryptol_fn: Option<Seq<char>>,
    i: int,
)
    requires
        0 <= i < imethod.method.params@.len(),
        !(imethod.method.params@[i].ty is Pointer),
    ensures
        ({
            let name = imethod.method.params@[i].name@;
            in_order(
                havoc_text(imethod, globals, layout, cryptol_fn),
                seq![
                    "    "@ + name + " <- llvm_fresh_var \""@ + name + "\" ("@
                        + saw_text(imethod.method.params@[i].ty@) + ");\n"@,
                    "\n    llvm_execute_func ["@,
                ],
            )
        }),
{
    let p = imethod.method.params@[i];
    let name = p.name@;
    let none = Seq::<Seq<char>>::empty();
    let call = "\n    llvm_execute_func ["@;
    let line = "    "@ + name + " <- llvm_fresh_var \""@ + name + "\" ("@ + saw_text(p.ty@) + ");\n"@;
    let note = "\n    // Parameter: "@ + name + " (pass-by-value)\n"@;
    assert(setup_of(&p, layout) == note + line) by {
        broadcast use group_append;

    }
    lemma_self_in_order(line);
    lemma_in_order_ahead(note, line, seq![line]);
    lemma_none_in_order(post_of(&p, layout, post_expr(imethod.method.params@, cryptol_fn)));
    lemma_param_around_the_call(imethod, globals, layout, cryptol_fn, i, seq![line], none);
    lemma_list_of_two(line, call);
    lemma_append_nothing(seq![line, call]);
}

/// The size of a buffer is that of the first annotation that gives one.
pub proof fn law_first_size_counts(annotations: Seq<Annotation>)
    ensures
        buffer_from(annotations, 0) matches Some(n) ==> n > 0 && exists|k: int|
            0 <= k < annotations.len() && (#[trigger] annotations[k] == Annotation::InReads(n)
                || annotations[k] == Annotation::OutWrites(n)) && forall|j: int|
                0 <= j < k ==> !gives_size(#[trigger] annotations[j]),
        buffer_from(annotations, 0) is None ==> forall|j: int|
            0 <= j < annotations.len() ==> !gives_size(#[trigger] annotations[j]),
{
    lemma_first_size(annotations, 0);
}

/// Does the annotation give the size of a buffer?
pub open spec fn gives_size(a: Annotation) -> bool {
    match a {
        Annotation::InReads(n) => n > 0,
        Annotation::OutWrites(n) => n > 0,
        _ => false,
    }
}

proof fn lemma_first_size(annotations: Seq<Annotation>, i: int)
    requires
        0 <= i <= annotations.len(),
    ensures
        buffer_from(annotations, i) matches Some(n) ==> n > 0 && exists|k: int|
            i <= k < annotations.len() && (#[trigger] annotations[k] == Annotation::InReads(n)
                || annotations[k] == Annotation::OutWrites(n)) && forall|j: int|
                i <= j < k ==> !gives_size(#[trigger] annotations[j]),
        buffer_from(annotations, i) is None ==> forall|j: int|
            i <= j < annotations.len() ==> !gives_size(#[trigger] annotations[j]),
    decreases annotations.len() - i,
{
    if i < annotations.len() {
        if gives_size(annotations[i]) {
            let n = buffer_from(annotations, i)->0;
            assert(annotations[i] == Annotation::InReads(n) || annotations[i]
                == Annotation::OutWrites(n));
        } else {
            lemma_first_size(annotations, i + 1);
            assert(buffer_from(annotations, i) == buffer_from(annotations, i + 1));
            if buffer_from(annotations, i) is Some {
                let n = buffer_from(annotations, i)->0;
                let k: int = choose|k: int|
                    i + 1 <= k < annotations.len() && (#[trigger] annotations[k]
                        == Annotation::InReads(n) || annotations[k] == Annotation::OutWrites(n))
                        && forall|j: int|
                        i + 1 <= j < k ==> !gives_size(#[trigger] annotations[j]);
                assert forall|j: int| i <= j < k implies !gives_size(#[trigger] annotations[j]) by {}
                assert(i <= k < annotations.len());
            }
        }
    }
}

} // verus!
