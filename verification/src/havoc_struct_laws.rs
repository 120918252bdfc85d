//! What an adversarial specification says of a struct, field by field, and of
//! an object whose layout is known, member by member.

use vstd::prelude::*;

use crate::constraints::{ClassConstructor, GlobalView, InterfaceMethod, ParamInfo, TypeInfo};
use crate::havoc::{behavior_of, full_this, havoc_text, post_expr, post_of, setup_of};
use crate::havoc_laws::{is_kept, lemma_param_around_the_call};
use crate::havoc_params::{
    HavocBehavior, after_terms, buffer_from, field_setups, field_setups_item, field_terms,
    field_var, havoced_fields, havoced_fields_item, kept_fields, kept_fields_item, label,
    member_bits, member_terms, member_terms_item, member_types, member_vars, member_vars_item,
    padding_bytes, struct_value, this_post, this_setup,
};
use crate::text::{
    dec, group_append, joined, lemma_append_assoc, lemma_append_nothing, lemma_nothing_append, nil,
    only_if,
};
use crate::text_order::{
    in_order, lemma_in_order_ahead, lemma_in_order_behind, lemma_in_order_first,
    lemma_in_order_join, lemma_in_order_later, lemma_in_order_more, lemma_list_of_five,
    lemma_list_of_four, lemma_list_of_three, lemma_list_of_two, lemma_none_in_order,
    lemma_self_in_order, lemma_three_in_order,
};
use crate::types::{alias_text, pointee_text, saw_text};

verus! {

/// What stands before and behind the text of one item.
pub proof fn lemma_field_setups_splits(v: Seq<(String, TypeInfo)>, param: Seq<char>, alloc: Seq<char>, i: int) -> (r: (Seq<char>, Seq<char>))
    requires
        0 <= i < v.len(),
    ensures
        field_setups(v, param, alloc) == r.0 + field_setups_item(v[i], param, alloc) + r.1,
    decreases v.len(),
{
    let last = field_setups_item(v.last(), param, alloc);
    if i == v.len() - 1 {
        lemma_append_nothing(field_setups(v.drop_last(), param, alloc) + last);
        (field_setups(v.drop_last(), param, alloc), nil())
    } else {
        let r = lemma_field_setups_splits(v.drop_last(), param, alloc, i);
        lemma_append_assoc(r.0 + field_setups_item(v[i], param, alloc), r.1, last);
        (r.0, r.1 + last)
    }
}

/// What stands before and behind the text of one item.
pub proof fn lemma_kept_fields_splits(v: Seq<(String, TypeInfo)>, param: Seq<char>, i: int) -> (r: (Seq<char>, Seq<char>))
    requires
        0 <= i < v.len(),
    ensures
        kept_fields(v, param) == r.0 + kept_fields_item(v[i], param) + r.1,
    decreases v.len(),
{
    let last = kept_fields_item(v.last(), param);
    if i == v.len() - 1 {
        lemma_append_nothing(kept_fields(v.drop_last(), param) + last);
        (kept_fields(v.drop_last(), param), nil())
    } else {
        let r = lemma_kept_fields_splits(v.drop_last(), param, i);
        lemma_append_assoc(r.0 + kept_fields_item(v[i], param), r.1, last);
        (r.0, r.1 + last)
    }
}

/// What stands before and behind the text of one item.
pub proof fn lemma_havoced_fields_splits(v: Seq<(String, TypeInfo)>, param: Seq<char>, i: int) -> (r: (Seq<char>, Seq<char>))
    requires
        0 <= i < v.len(),
    ensures
        havoced_fields(v, param) == r.0 + havoced_fields_item(v[i], param) + r.1,
    decreases v.len(),
{
    let last = havoced_fields_item(v.last(), param);
    if i == v.len() - 1 {
        lemma_append_nothing(havoced_fields(v.drop_last(), param) + last);
        (havoced_fields(v.drop_last(), param), nil())
    } else {
        let r = lemma_havoced_fields_splits(v.drop_last(), param, i);
        lemma_append_assoc(r.0 + havoced_fields_item(v[i], param), r.1, last);
        (r.0, r.1 + last)
    }
}

/// What stands before and behind the text of one item.
pub proof fn lemma_member_vars_splits(v: Seq<(String, TypeInfo, String)>, when: Seq<char>, i: int) -> (r: (Seq<char>, Seq<char>))
    requires
        0 <= i < v.len(),
    ensures
        member_vars(v, when) == r.0 + member_vars_item(v[i], when) + r.1,
    decreases v.len(),
{
    let last = member_vars_item(v.last(), when);
    if i == v.len() - 1 {
        lemma_append_nothing(member_vars(v.drop_last(), when) + last);
        (member_vars(v.drop_last(), when), nil())
    } else {
        let r = lemma_member_vars_splits(v.drop_last(), when, i);
        lemma_append_assoc(r.0 + member_vars_item(v[i], when), r.1, last);
        (r.0, r.1 + last)
    }
}

/// What stands before and behind the text of one item.
pub proof fn lemma_member_terms_splits(v: Seq<(String, TypeInfo, String)>, when: Seq<char>, i: int) -> (r: (Seq<char>, Seq<char>))
    requires
        0 <= i < v.len(),
    ensures
        member_terms(v, when) == r.0 + member_terms_item(v[i], when) + r.1,
    decreases v.len(),
{
    let last = member_terms_item(v.last(), when);
    if i == v.len() - 1 {
        lemma_append_nothing(member_terms(v.drop_last(), when) + last);
        (member_terms(v.drop_last(), when), nil())
    } else {
        let r = lemma_member_terms_splits(v.drop_last(), when, i);
        lemma_append_assoc(r.0 + member_terms_item(v[i], when), r.1, last);
        (r.0, r.1 + last)
    }
}

/// Is the pointee a struct that is modelled field by field? An annotation
/// that gives the size of a buffer makes it a buffer instead, and an object
/// whose layout is known is modelled by that.
pub open spec fn is_struct(p: ParamInfo, layout: Option<&ClassConstructor>) -> bool {
    &&& p.ty matches TypeInfo::Pointer(inner) && (*inner matches TypeInfo::Struct { fields, .. }
        && fields@.len() > 0)
    &&& buffer_from(p.annotations@, 0) is None
    &&& is_kept(p) || p.name@ != "this"@ || layout is None
}

/// The fields of the struct that a parameter points to.
pub open spec fn pointee_fields(p: ParamInfo) -> Seq<(String, TypeInfo)> {
    match p.ty {
        TypeInfo::Pointer(inner) => match *inner {
            TypeInfo::Struct { fields, .. } => fields@,
            _ => Seq::empty(),
        },
        _ => Seq::empty(),
    }
}

/// The name of the struct that a parameter points to.
pub open spec fn pointee_name(p: ParamInfo) -> Seq<char> {
    match p.ty {
        TypeInfo::Pointer(inner) => match *inner {
            TypeInfo::Struct { name, .. } => name@,
            _ => nil(),
        },
        _ => nil(),
    }
}

/// The fields as elements of a struct value before the call.
proof fn lemma_field_terms(fields: Seq<(String, TypeInfo)>, param: Seq<char>)
    ensures
        field_terms(fields, param) =~= Seq::new(
            fields.len(),
            |k: int|
                if fields[k].1 is Pointer {
                    param + "_"@ + fields[k].0@ + "_ptr"@
                } else {
                    "llvm_term "@ + param + "_"@ + fields[k].0@
                },
        ),
    decreases fields.len(),
{
    broadcast use group_append;

    if fields.len() > 0 {
        lemma_field_terms(fields.drop_last(), param);
    }
}

/// The fields as elements of a struct value after the call.
proof fn lemma_after_terms(fields: Seq<(String, TypeInfo)>, param: Seq<char>)
    ensures
        after_terms(fields, param) =~= Seq::new(
            fields.len(),
            |k: int|
                if fields[k].1 is Pointer {
                    param + "_"@ + fields[k].0@ + "_ptr_after"@
                } else {
                    "llvm_term "@ + param + "_"@ + fields[k].0@ + "_after"@
                },
        ),
    decreases fields.len(),
{
    broadcast use group_append;

    if fields.len() > 0 {
        lemma_after_terms(fields.drop_last(), param);
    }
}

/// The setup of a struct: allocation, the fields, and the whole.
proof fn lemma_struct_setup(p: ParamInfo, layout: Option<&ClassConstructor>, v: Seq<Seq<char>>)
    requires
        is_struct(p, layout),
        in_order(
            field_setups(
                pointee_fields(p),
                p.name@,
                if is_kept(p) {
                    "llvm_alloc_readonly"@
                } else {
                    "llvm_alloc"@
                },
            ),
            v,
        ),
    ensures
        ({
            let alloc = if is_kept(p) {
                "llvm_alloc_readonly"@
            } else {
                "llvm_alloc"@
            };
            in_order(
                setup_of(&p, layout),
                seq!["    "@ + p.name@ + "_ptr <- "@ + alloc + " ("@
                    + alias_text(pointee_name(p)) + ");\n"@] + v
                    + seq![struct_value(p.name@, field_terms(pointee_fields(p), p.name@))],
            )
        }),
{
    let name = p.name@;
    let alloc = if is_kept(p) {
        "llvm_alloc_readonly"@
    } else {
        "llvm_alloc"@
    };
    let ann = label(p.annotations@, is_kept(p));
    assert(is_kept(p) <==> behavior_of(&p) == HavocBehavior::Preserved);
    let note = "\n    // Parameter: "@ + name + " → "@ + pointee_name(p) + " ("@ + ann + ")\n"@;
    let a = "    "@ + name + "_ptr <- "@ + alloc + " ("@ + alias_text(pointee_name(p)) + ");\n"@;
    let f = field_setups(pointee_fields(p), name, alloc);
    let whole = struct_value(name, field_terms(pointee_fields(p), name));
    assert(setup_of(&p, layout) == note + a + f + whole) by {
        broadcast use group_append;

    }
    lemma_self_in_order(a);
    lemma_self_in_order(whole);
    lemma_in_order_ahead(note, a, seq![a]);
    lemma_in_order_join(note + a, seq![a], f, v);
    lemma_in_order_join(note + a + f, seq![a] + v, whole, seq![whole]);
}

/// The postconditions of a struct: the fields and the whole.
proof fn lemma_struct_post(
    p: ParamInfo,
    layout: Option<&ClassConstructor>,
    post: Option<Seq<char>>,
    v: Seq<Seq<char>>,
)
    requires
        is_struct(p, layout),
        is_kept(p) ==> in_order(kept_fields(pointee_fields(p), p.name@), v),
        !is_kept(p) ==> in_order(havoced_fields(pointee_fields(p), p.name@), v),
    ensures
        is_kept(p) ==> in_order(
            post_of(&p, layout, post),
            v + seq![struct_value(p.name@, field_terms(pointee_fields(p), p.name@))],
        ),
        !is_kept(p) ==> in_order(
            post_of(&p, layout, post),
            v + seq![struct_value(p.name@, after_terms(pointee_fields(p), p.name@))],
        ),
{
    let name = p.name@;
    let fields = pointee_fields(p);
    let ann = label(p.annotations@, is_kept(p));
    assert(is_kept(p) <==> behavior_of(&p) == HavocBehavior::Preserved);
    if is_kept(p) {
        let note = "    // "@ + name + " ("@ + pointee_name(p) + "): "@ + ann
            + " → all fields preserved\n"@;
        let f = kept_fields(fields, name);
        let whole = struct_value(name, field_terms(fields, name));
        assert(post_of(&p, layout, post) == note + f + whole);
        lemma_in_order_ahead(note, f, v);
        lemma_self_in_order(whole);
        lemma_in_order_join(note + f, v, whole, seq![whole]);
    } else {
        let note = "    // "@ + name + " ("@ + pointee_name(p) + "): "@ + ann + " → ALL fields HAVOCED\n"@;
        let f = havoced_fields(fields, name);
        let whole = struct_value(name, after_terms(fields, name));
        assert(post_of(&p, layout, post) == note + f + whole);
        lemma_in_order_ahead(note, f, v);
        lemma_self_in_order(whole);
        lemma_in_order_join(note + f, v, whole, seq![whole]);
    }
}

/// A method leaves a struct that is const, or is said only to be read, as it
/// was: it is read-only, and after the call it holds the very elements that
/// it held before.
pub proof fn law_kept_struct_is_unchanged(
    imethod: &InterfaceMethod,
    globals: Seq<GlobalView>,
    layout: Option<&ClassConstructor>,
    cryptol_fn: Option<Seq<char>>,
    i: int,
)
    requires
        0 <= i < imethod.method.params@.len(),
        is_struct(imethod.method.params@[i], layout),
        is_kept(imethod.method.params@[i]),
    ensures
        ({
            let p = imethod.method.params@[i];
            let name = p.name@;
            let fields = pointee_fields(p);
            let elems = Seq::new(
                fields.len(),
                |k: int|
                    if fields[k].1 is Pointer {
                        name + "_"@ + fields[k].0@ + "_ptr"@
                    } else {
                        "llvm_term "@ + name + "_"@ + fields[k].0@
                    },
            );
            let held = joined(elems, "\n        , "@);
            in_order(
                havoc_text(imethod, globals, layout, cryptol_fn),
                seq![
                    "    "@ + name + "_ptr <- "@ + "llvm_alloc_readonly"@ + " ("@ + alias_text(
                        pointee_name(p),
                    ) + ");\n"@,
                    "    llvm_points_to "@ + name + "_ptr (llvm_struct_value\n        [ "@
                        + held + " ]);\n"@,
                    "\n    llvm_execute_func ["@,
                    "    llvm_points_to "@ + name + "_ptr (llvm_struct_value\n        [ "@
                        + held + " ]);\n"@,
                ],
            )
        }),
{
    let p = imethod.method.params@[i];
    let name = p.name@;
    let fields = pointee_fields(p);
    let none = Seq::<Seq<char>>::empty();
    let call = "\n    llvm_execute_func ["@;
    let alloc = "llvm_alloc_readonly"@;
    let a = "    "@ + name + "_ptr <- "@ + alloc + " ("@ + alias_text(pointee_name(p)) + ");\n"@;
    let whole = struct_value(name, field_terms(fields, name));
    lemma_field_terms(fields, name);
    lemma_none_in_order(field_setups(fields, name, alloc));
    lemma_none_in_order(kept_fields(fields, name));
    lemma_struct_setup(p, layout, none);
    lemma_struct_post(p, layout, post_expr(imethod.method.params@, cryptol_fn), none);
    lemma_append_nothing(seq![a]);
    lemma_nothing_append(seq![whole]);
    lemma_list_of_two(a, whole);
    lemma_param_around_the_call(imethod, globals, layout, cryptol_fn, i, seq![a, whole], seq![whole]);
    lemma_list_of_three(a, whole, call);
    lemma_list_of_four(a, whole, call, whole);
}

/// What a pointer field of such a struct points to is kept as well.
pub proof fn law_kept_field_is_unchanged(
    imethod: &InterfaceMethod,
    globals: Seq<GlobalView>,
    layout: Option<&ClassConstructor>,
    cryptol_fn: Option<Seq<char>>,
    i: int,
    k: int,
)
    requires
        0 <= i < imethod.method.params@.len(),
        is_struct(imethod.method.params@[i], layout),
        is_kept(imethod.method.params@[i]),
        0 <= k < pointee_fields(imethod.method.params@[i]).len(),
        pointee_fields(imethod.method.params@[i])[k].1 is Pointer,
    ensures
        ({
            let p = imethod.method.params@[i];
            let field = pointee_fields(p)[k];
            let ty = pointee_text((*field.1->Pointer_0)@);
            let var = p.name@ + "_"@ + field.0@;
            in_order(
                havoc_text(imethod, globals, layout, cryptol_fn),
                seq![
                    "    "@ + var + "_ptr <- "@ + "llvm_alloc_readonly"@ + " ("@ + ty + ");\n"@,
                    "    "@ + var + "_val <- llvm_fresh_var \""@ + var + "\" ("@ + ty + ");\n"@,
                    "    llvm_points_to "@ + var + "_ptr (llvm_term "@ + var + "_val);\n"@,
                    "\n    llvm_execute_func ["@,
                    "    llvm_points_to "@ + var + "_ptr (llvm_term "@ + var + "_val);\n"@,
                ],
            )
        }),
{
    let p = imethod.method.params@[i];
    let name = p.name@;
    let fields = pointee_fields(p);
    let field = fields[k];
    let alloc = "llvm_alloc_readonly"@;
    let ty = pointee_text((*field.1->Pointer_0)@);
    let var = field_var(name, field.0@);
    let call = "\n    llvm_execute_func ["@;
    let a = "    "@ + var + "_ptr <- "@ + alloc + " ("@ + ty + ");\n"@;
    let b = "    "@ + var + "_val <- llvm_fresh_var \""@ + var + "\" ("@ + ty + ");\n"@;
    let c = "    llvm_points_to "@ + var + "_ptr (llvm_term "@ + var + "_val);\n"@;
    lemma_pointer_field_lines(field, name, alloc);
    let s = lemma_field_setups_splits(fields, name, alloc, k);
    lemma_in_order_more(s.0, field_setups_item(field, name, alloc), s.1, seq![a, b, c]);
    lemma_self_in_order(c);
    let t = lemma_kept_fields_splits(fields, name, k);
    lemma_in_order_more(t.0, kept_fields_item(field, name), t.1, seq![c]);
    lemma_struct_field_around_the_call(imethod, globals, layout, cryptol_fn, i, seq![a, b, c], seq![c]);
    lemma_list_of_four(a, b, c, call);
    lemma_list_of_five(a, b, c, call, c);
}

/// The lines of a pointer field before the call.
proof fn lemma_pointer_field_lines(field: (String, TypeInfo), param: Seq<char>, alloc: Seq<char>)
    requires
        field.1 is Pointer,
    ensures
        ({
            let ty = pointee_text((*field.1->Pointer_0)@);
            let var = field_var(param, field.0@);
            in_order(
                field_setups_item(field, param, alloc),
                seq![
                    "    "@ + var + "_ptr <- "@ + alloc + " ("@ + ty + ");\n"@,
                    "    "@ + var + "_val <- llvm_fresh_var \""@ + var + "\" ("@ + ty + ");\n"@,
                    "    llvm_points_to "@ + var + "_ptr (llvm_term "@ + var + "_val);\n"@,
                ],
            )
        }),
{
    let ty = pointee_text((*field.1->Pointer_0)@);
    let var = field_var(param, field.0@);
    lemma_var_lines(var, alloc, ty);
}

proof fn lemma_var_lines(var: Seq<char>, alloc: Seq<char>, ty: Seq<char>)
    ensures
        in_order(
            "    "@ + var + "_ptr <- "@ + alloc + " ("@ + ty + ");\n"@ + "    "@ + var
                + "_val <- llvm_fresh_var \""@ + var + "\" ("@ + ty + ");\n"@
                + "    llvm_points_to "@ + var + "_ptr (llvm_term "@ + var + "_val);\n"@,
            seq![
                "    "@ + var + "_ptr <- "@ + alloc + " ("@ + ty + ");\n"@,
                "    "@ + var + "_val <- llvm_fresh_var \""@ + var + "\" ("@ + ty + ");\n"@,
                "    llvm_points_to "@ + var + "_ptr (llvm_term "@ + var + "_val);\n"@,
            ],
        ),
{
    broadcast use group_append;

    let a = "    "@ + var + "_ptr <- "@ + alloc + " ("@ + ty + ");\n"@;
    let b = "    "@ + var + "_val <- llvm_fresh_var \""@ + var + "\" ("@ + ty + ");\n"@;
    let c = "    llvm_points_to "@ + var + "_ptr (llvm_term "@ + var + "_val);\n"@;
    lemma_three_in_order(nil(), a, nil(), b, nil(), c, nil());
    assert(nil() + a + nil() + b + nil() + c + nil() == a + b + c);
}

/// What is said of the fields of a struct stands around the call.
proof fn lemma_struct_field_around_the_call(
    imethod: &InterfaceMethod,
    globals: Seq<GlobalView>,
    layout: Option<&ClassConstructor>,
    cryptol_fn: Option<Seq<char>>,
    i: int,
    v: Seq<Seq<char>>,
    w: Seq<Seq<char>>,
)
    requires
        0 <= i < imethod.method.params@.len(),
        is_struct(imethod.method.params@[i], layout),
        ({
            let p = imethod.method.params@[i];
            &&& in_order(
                field_setups(
                    pointee_fields(p),
                    p.name@,
                    if is_kept(p) {
                        "llvm_alloc_readonly"@
                    } else {
                        "llvm_alloc"@
                    },
                ),
                v,
            )
            &&& is_kept(p) ==> in_order(kept_fields(pointee_fields(p), p.name@), w)
            &&& !is_kept(p) ==> in_order(havoced_fields(pointee_fields(p), p.name@), w)
        }),
    ensures
        in_order(
            havoc_text(imethod, globals, layout, cryptol_fn),
            v + seq!["\n    llvm_execute_func ["@] + w,
        ),
{
    let p = imethod.method.params@[i];
    let post = post_expr(imethod.method.params@, cryptol_fn);
    let alloc = if is_kept(p) {
        "llvm_alloc_readonly"@
    } else {
        "llvm_alloc"@
    };
    let a = "    "@ + p.name@ + "_ptr <- "@ + alloc + " ("@ + alias_text(pointee_name(p)) + ");\n"@;
    let whole = struct_value(p.name@, field_terms(pointee_fields(p), p.name@));
    let after = if is_kept(p) {
        whole
    } else {
        struct_value(p.name@, after_terms(pointee_fields(p), p.name@))
    };
    lemma_struct_setup(p, layout, v);
    lemma_struct_post(p, layout, post, w);
    lemma_in_order_first(setup_of(&p, layout), seq![a] + v, seq![whole]);
    lemma_in_order_later(setup_of(&p, layout), seq![a] + v, 1);
    assert((seq![a] + v).skip(1) =~= v);
    lemma_in_order_first(post_of(&p, layout, post), w, seq![after]);
    lemma_param_around_the_call(imethod, globals, layout, cryptol_fn, i, v, w);
}

/// To any other struct a method may write anything: after the call it holds
/// new elements throughout, each of them a fresh variable or a new pointer.
pub proof fn law_other_struct_is_arbitrary(
    imethod: &InterfaceMethod,
    globals: Seq<GlobalView>,
    layout: Option<&ClassConstructor>,
    cryptol_fn: Option<Seq<char>>,
    i: int,
)
    requires
        0 <= i < imethod.method.params@.len(),
        is_struct(imethod.method.params@[i], layout),
        !is_kept(imethod.method.params@[i]),
    ensures
        ({
            let p = imethod.method.params@[i];
            let name = p.name@;
            let fields = pointee_fields(p);
            let elems = Seq::new(
                fields.len(),
                |k: int|
                    if fields[k].1 is Pointer {
                        name + "_"@ + fields[k].0@ + "_ptr"@
                    } else {
                        "llvm_term "@ + name + "_"@ + fields[k].0@
                    },
            );
            let after = Seq::new(
                fields.len(),
                |k: int|
                    if fields[k].1 is Pointer {
                        name + "_"@ + fields[k].0@ + "_ptr_after"@
                    } else {
                        "llvm_term "@ + name + "_"@ + fields[k].0@ + "_after"@
                    },
            );
            let held = joined(elems, "\n        , "@);
            let holds = joined(after, "\n        , "@);
            in_order(
                havoc_text(imethod, globals, layout, cryptol_fn),
                seq![
                    "    "@ + name + "_ptr <- "@ + "llvm_alloc"@ + " ("@ + alias_text(pointee_name(p))
                        + ");\n"@,
                    "    llvm_points_to "@ + name + "_ptr (llvm_struct_value\n        [ "@
                        + held + " ]);\n"@,
                    "\n    llvm_execute_func ["@,
                    "    llvm_points_to "@ + name + "_ptr (llvm_struct_value\n        [ "@
                        + holds + " ]);\n"@,
                ],
            )
        }),
{
    let p = imethod.method.params@[i];
    let name = p.name@;
    let fields = pointee_fields(p);
    let none = Seq::<Seq<char>>::empty();
    let call = "\n    llvm_execute_func ["@;
    let alloc = "llvm_alloc"@;
    let a = "    "@ + name + "_ptr <- "@ + alloc + " ("@ + alias_text(pointee_name(p)) + ");\n"@;
    let whole = struct_value(name, field_terms(fields, name));
    let after = struct_value(name, after_terms(fields, name));
    lemma_field_terms(fields, name);
    lemma_after_terms(fields, name);
    lemma_none_in_order(field_setups(fields, name, alloc));
    lemma_none_in_order(havoced_fields(fields, name));
    lemma_struct_setup(p, layout, none);
    lemma_struct_post(p, layout, post_expr(imethod.method.params@, cryptol_fn), none);
    lemma_append_nothing(seq![a]);
    lemma_nothing_append(seq![after]);
    lemma_list_of_two(a, whole);
    lemma_param_around_the_call(imethod, globals, layout, cryptol_fn, i, seq![a, whole], seq![after]);
    lemma_list_of_three(a, whole, call);
    lemma_list_of_four(a, whole, call, after);
}

/// Each element of such a struct is new: a fresh variable of the type of the
/// field, or a newly allocated pointer. What a pointer field pointed to holds
/// a fresh variable as well.
pub proof fn law_field_of_other_struct_is_arbitrary(
    imethod: &InterfaceMethod,
    globals: Seq<GlobalView>,
    layout: Option<&ClassConstructor>,
    cryptol_fn: Option<Seq<char>>,
    i: int,
    k: int,
)
    requires
        0 <= i < imethod.method.params@.len(),
        is_struct(imethod.method.params@[i], layout),
        !is_kept(imethod.method.params@[i]),
        0 <= k < pointee_fields(imethod.method.params@[i]).len(),
    ensures
        ({
            let p = imethod.method.params@[i];
            let field = pointee_fields(p)[k];
            let var = p.name@ + "_"@ + field.0@;
            let text = havoc_text(imethod, globals, layout, cryptol_fn);
            match field.1 {
                TypeInfo::Pointer(pointee) => {
                    let ty = pointee_text((*pointee)@);
                    in_order(
                        text,
                        seq![
                            "    llvm_points_to "@ + var + "_ptr (llvm_term "@ + var
                                + "_val);\n"@,
                            "\n    llvm_execute_func ["@,
                            "    "@ + var + "_after <- llvm_fresh_var \""@ + var
                                + "_after\" ("@ + ty + ");\n"@,
                            "    llvm_points_to "@ + var + "_ptr (llvm_term "@ + var
                                + "_after);\n"@,
                            "    "@ + var + "_ptr_after <- llvm_alloc ("@ + ty + ");\n"@,
                        ],
                    )
                },
                _ => in_order(
                    text,
                    seq![
                        "    "@ + var + " <- llvm_fresh_var \""@ + var + "\" ("@
                            + saw_text(field.1@) + ");\n"@,
                        "\n    llvm_execute_func ["@,
                        "    "@ + var + "_after <- llvm_fresh_var \""@ + var + "_after\" ("@
                            + saw_text(field.1@) + ");\n"@,
                    ],
                ),
            }
        }),
{
    let p = imethod.method.params@[i];
    let name = p.name@;
    let fields = pointee_fields(p);
    let field = fields[k];
    let alloc = "llvm_alloc"@;
    let var = field_var(name, field.0@);
    let call = "\n    llvm_execute_func ["@;
    let s = lemma_field_setups_splits(fields, name, alloc, k);
    let t = lemma_havoced_fields_splits(fields, name, k);
    match field.1 {
        TypeInfo::Pointer(pointee) => {
            let ty = pointee_text((*pointee)@);
            let a = "    "@ + var + "_ptr <- "@ + alloc + " ("@ + ty + ");\n"@;
            let b = "    "@ + var + "_val <- llvm_fresh_var \""@ + var + "\" ("@ + ty + ");\n"@;
            let c = "    llvm_points_to "@ + var + "_ptr (llvm_term "@ + var + "_val);\n"@;
            let d = "    "@ + var + "_after <- llvm_fresh_var \""@ + var + "_after\" ("@ + ty + ");\n"@;
            let e = "    llvm_points_to "@ + var + "_ptr (llvm_term "@ + var + "_after);\n"@;
            let f = "    "@ + var + "_ptr_after <- llvm_alloc ("@ + ty + ");\n"@;
            lemma_pointer_field_lines(field, name, alloc);
            lemma_in_order_later(field_setups_item(field, name, alloc), seq![a, b, c], 2);
            assert(seq![a, b, c].skip(2) =~= seq![c]);
            lemma_in_order_more(s.0, field_setups_item(field, name, alloc), s.1, seq![c]);
            lemma_havoced_field_lines(var, ty);
            lemma_in_order_more(t.0, havoced_fields_item(field, name), t.1, seq![d, e, f]);
            lemma_struct_field_around_the_call(imethod, globals, layout, cryptol_fn, i, seq![c], seq![d, e, f]);
            lemma_list_of_two(c, call);
            lemma_list_of_five(c, call, d, e, f);
        },
        _ => {
            let a = "    "@ + var + " <- llvm_fresh_var \""@ + var + "\" ("@ + saw_text(field.1@)
                + ");\n"@;
            let b = "    "@ + var + "_after <- llvm_fresh_var \""@ + var + "_after\" ("@
                + saw_text(field.1@) + ");\n"@;
            lemma_self_in_order(a);
            lemma_self_in_order(b);
            lemma_in_order_more(s.0, field_setups_item(field, name, alloc), s.1, seq![a]);
            lemma_in_order_more(t.0, havoced_fields_item(field, name), t.1, seq![b]);
            lemma_struct_field_around_the_call(imethod, globals, layout, cryptol_fn, i, seq![a], seq![b]);
            lemma_list_of_two(a, call);
            lemma_list_of_three(a, call, b);
        },
    }
}

/// The lines of a pointer field after the call.
proof fn lemma_havoced_field_lines(var: Seq<char>, ty: Seq<char>)
    ensures
        in_order(
            "    // "@ + var + ": pointer target → HAVOCED\n"@ + "    "@ + var
                + "_after <- llvm_fresh_var \""@ + var + "_after\" ("@ + ty + ");\n"@
                + "    llvm_points_to "@ + var + "_ptr (llvm_term "@ + var + "_after);\n"@
                + "    "@ + var + "_ptr_after <- llvm_alloc ("@ + ty + ");\n"@,
            seq![
                "    "@ + var + "_after <- llvm_fresh_var \""@ + var + "_after\" ("@ + ty
                    + ");\n"@,
                "    llvm_points_to "@ + var + "_ptr (llvm_term "@ + var + "_after);\n"@,
                "    "@ + var + "_ptr_after <- llvm_alloc ("@ + ty + ");\n"@,
            ],
        ),
{
    broadcast use group_append;

    let note = "    // "@ + var + ": pointer target → HAVOCED\n"@;
    let a = "    "@ + var + "_after <- llvm_fresh_var \""@ + var + "_after\" ("@ + ty + ");\n"@;
    let b = "    llvm_points_to "@ + var + "_ptr (llvm_term "@ + var + "_after);\n"@;
    let c = "    "@ + var + "_ptr_after <- llvm_alloc ("@ + ty + ");\n"@;
    lemma_three_in_order(note, a, nil(), b, nil(), c, nil());
    assert(note + a + nil() + b + nil() + c + nil() == note + a + b + c);
}

/// The width in bits of a data member.
pub open spec fn member_width(ty: TypeInfo) -> nat {
    match ty {
        TypeInfo::SignedInt(w) => w as nat,
        TypeInfo::UnsignedInt(w) => w as nat,
        TypeInfo::Bool => 1,
        _ => 64,
    }
}

/// A method may write every data member of a mutable object whose layout is
/// known: before and after the call the object holds a fresh variable for the
/// member, of its width, and not the same one. The pointer to the virtual
/// table is kept.
pub proof fn law_member_of_object_is_arbitrary(
    imethod: &InterfaceMethod,
    globals: Seq<GlobalView>,
    layout: Option<&ClassConstructor>,
    cryptol_fn: Option<Seq<char>>,
    i: int,
    k: int,
)
    requires
        0 <= i < imethod.method.params@.len(),
        imethod.method.params@[i].ty is Pointer,
        imethod.method.params@[i].name@ == "this"@,
        !is_kept(imethod.method.params@[i]),
        layout is Some,
        0 <= k < layout->0.layout_fields@.len(),
    ensures
        ({
            let field = layout->0.layout_fields@[k];
            let name = field.0@;
            let w = member_width(field.1);
            in_order(
                havoc_text(imethod, globals, layout, cryptol_fn),
                seq![
                    "    this_"@ + name + "_pre <- llvm_fresh_var \"this_"@ + name
                        + "_pre\" (llvm_int "@ + dec(w) + ");\n"@,
                    "    llvm_points_to this_ptr (llvm_packed_struct_value\n"@,
                    "        [ this_vptr_pre  // vptr (any pointer)\n"@,
                    "        , llvm_term this_"@ + name + "_pre\n"@,
                    "\n    llvm_execute_func ["@,
                    "    this_"@ + name + "_post <- llvm_fresh_var \"this_"@ + name
                        + "_post\" (llvm_int "@ + dec(w) + ");\n"@,
                    "    llvm_points_to this_ptr (llvm_packed_struct_value\n"@,
                    "        [ this_vptr_pre  // vptr preserved\n"@,
                    "        , llvm_term this_"@ + name + "_post\n"@,
                ],
            )
        }),
{
    let p = imethod.method.params@[i];
    let call = "\n    llvm_execute_func ["@;
    let v = lemma_this_lines(layout->0, k, true);
    let w = lemma_this_lines(layout->0, k, false);
    assert(behavior_of(&p) == HavocBehavior::Havoced);
    assert(full_this(&p, layout));
    lemma_param_around_the_call(imethod, globals, layout, cryptol_fn, i, v, w);
    lemma_nine(v, call, w);
}

proof fn lemma_nine(v: Seq<Seq<char>>, call: Seq<char>, w: Seq<Seq<char>>)
    requires
        v.len() == 4,
        w.len() == 4,
    ensures
        v + seq![call] + w == seq![v[0], v[1], v[2], v[3], call, w[0], w[1], w[2], w[3]],
{
    assert(v + seq![call] + w =~= seq![v[0], v[1], v[2], v[3], call, w[0], w[1], w[2], w[3]]);
}

/// The lines of one data member, before or after the call.
proof fn lemma_this_lines(layout: &ClassConstructor, k: int, before: bool) -> (r: Seq<Seq<char>>)
    requires
        0 <= k < layout.layout_fields@.len(),
    ensures
        ({
            let name = layout.layout_fields@[k].0@;
            let w = member_width(layout.layout_fields@[k].1);
            if before {
                in_order(this_setup(layout), r) && r == seq![
                    "    this_"@ + name + "_pre <- llvm_fresh_var \"this_"@ + name
                        + "_pre\" (llvm_int "@ + dec(w) + ");\n"@,
                    "    llvm_points_to this_ptr (llvm_packed_struct_value\n"@,
                    "        [ this_vptr_pre  // vptr (any pointer)\n"@,
                    "        , llvm_term this_"@ + name + "_pre\n"@,
                ]
            } else {
                in_order(this_post(layout), r) && r == seq![
                    "    this_"@ + name + "_post <- llvm_fresh_var \"this_"@ + name
                        + "_post\" (llvm_int "@ + dec(w) + ");\n"@,
                    "    llvm_points_to this_ptr (llvm_packed_struct_value\n"@,
                    "        [ this_vptr_pre  // vptr preserved\n"@,
                    "        , llvm_term this_"@ + name + "_post\n"@,
                ]
            }
        }),
{
    let fields = layout.layout_fields@;
    let pad = padding_bytes(fields);
    let field = fields[k];
    let when = if before {
        "_pre"@
    } else {
        "_post"@
    };
    let a = member_vars_item(field, when);
    let b = "    llvm_points_to this_ptr (llvm_packed_struct_value\n"@;
    let c = if before {
        "        [ this_vptr_pre  // vptr (any pointer)\n"@
    } else {
        "        [ this_vptr_pre  // vptr preserved\n"@
    };
    let d = member_terms_item(field, when);
    lemma_member_texts(field.0@, member_bits(&field.1) as nat);
    let s = lemma_member_vars_splits(fields, when, k);
    let t = lemma_member_terms_splits(fields, when, k);
    lemma_self_in_order(a);
    lemma_self_in_order(b);
    lemma_self_in_order(c);
    lemma_self_in_order(d);
    lemma_in_order_more(s.0, a, s.1, seq![a]);
    lemma_in_order_more(t.0, d, t.1, seq![d]);
    let vars = member_vars(fields, when);
    let terms = member_terms(fields, when);
    let pads = if before {
        only_if(
            pad > 0,
            "    this_pad_pre <- llvm_fresh_var \"this_pad_pre\" (llvm_array "@ + dec(pad)
                + " (llvm_int 8));\n"@,
        )
    } else {
        only_if(
            pad > 0,
            "    this_pad_post <- llvm_fresh_var \"this_pad_post\" (llvm_array "@ + dec(pad)
                + " (llvm_int 8));\n"@,
        )
    };
    let end = if before {
        only_if(pad > 0, "        , llvm_term this_pad_pre\n"@)
    } else {
        only_if(pad > 0, "        , llvm_term this_pad_post\n"@)
    };
    let head = if before {
        "\n    // Parameter: this (mutable → full-class HAVOC)\n"@
            + "    this_ptr <- llvm_alloc (llvm_packed_struct_type\n"@
            + "        [ llvm_pointer (llvm_int 64)  // vptr\n"@ + member_types(fields) + only_if(
            pad > 0,
            "        , llvm_array "@ + dec(pad) + " (llvm_int 8)\n"@,
        ) + "        ]);\n"@ + "    this_vptr_pre <- llvm_alloc_readonly_aligned 8 (llvm_int 64);\n"@
    } else {
        "    // this: HAVOCED — data members may have changed\n"@
    };
    lemma_in_order_ahead(head, vars, seq![a]);
    lemma_in_order_behind(head + vars, pads, seq![a]);
    lemma_in_order_join(head + vars + pads, seq![a], b, seq![b]);
    lemma_in_order_join(head + vars + pads + b, seq![a] + seq![b], c, seq![c]);
    lemma_in_order_join(head + vars + pads + b + c, seq![a] + seq![b] + seq![c], terms, seq![d]);
    let v = seq![a, b, c, d];
    assert(seq![a] + seq![b] + seq![c] + seq![d] =~= v);
    lemma_in_order_behind(head + vars + pads + b + c + terms, end, v);
    lemma_in_order_behind(head + vars + pads + b + c + terms + end, "        ]);\n"@, v);
    v
}

/// The texts of a data member before and after the call.
proof fn lemma_member_texts(name: Seq<char>, w: nat)
    ensures
        "    this_"@ + name + "_pre"@ + " <- llvm_fresh_var \"this_"@ + name + "_pre"@ + "\" (llvm_int "@
            + dec(w) + ");\n"@ == "    this_"@ + name + "_pre <- llvm_fresh_var \"this_"@ + name
                + "_pre\" (llvm_int "@ + dec(w) + ");\n"@,
        "    this_"@ + name + "_post"@ + " <- llvm_fresh_var \"this_"@ + name + "_post"@ + "\" (llvm_int "@
            + dec(w) + ");\n"@ == "    this_"@ + name + "_post <- llvm_fresh_var \"this_"@ + name
                + "_post\" (llvm_int "@ + dec(w) + ");\n"@,
        "        , llvm_term this_"@ + name + "_pre"@ + "\n"@ == "        , llvm_term this_"@ + name + "_pre\n"@,
        "        , llvm_term this_"@ + name + "_post"@ + "\n"@ == "        , llvm_term this_"@ + name + "_post\n"@,
{
    lemma_glue();
    lemma_glue_in("    this_"@ + name, "_pre"@, " <- llvm_fresh_var \"this_"@);
    lemma_glue_in("    this_"@ + name, "_post"@, " <- llvm_fresh_var \"this_"@);
    let a = ("    this_"@ + name) + ("_pre"@ + " <- llvm_fresh_var \"this_"@) + name;
    let b = ("    this_"@ + name) + ("_post"@ + " <- llvm_fresh_var \"this_"@) + name;
    lemma_glue_in(a, "_pre"@, "\" (llvm_int "@);
    lemma_glue_in(b, "_post"@, "\" (llvm_int "@);
    lemma_glue_in("        , llvm_term this_"@ + name, "_pre"@, "\n"@);
    lemma_glue_in("        , llvm_term this_"@ + name, "_post"@, "\n"@);
}

proof fn lemma_glue_in(a: Seq<char>, b: Seq<char>, c: Seq<char>)
    ensures
        a + b + c == a + (b + c),
{
    lemma_append_assoc(a, b, c);
}

proof fn lemma_glue()
    ensures
        "_pre"@ + " <- llvm_fresh_var \"this_"@ == "_pre <- llvm_fresh_var \"this_"@,
        "_post"@ + " <- llvm_fresh_var \"this_"@ == "_post <- llvm_fresh_var \"this_"@,
        "_pre"@ + "\" (llvm_int "@ == "_pre\" (llvm_int "@,
        "_post"@ + "\" (llvm_int "@ == "_post\" (llvm_int "@,
        "_pre"@ + "\n"@ == "_pre\n"@,
        "_post"@ + "\n"@ == "_post\n"@,
{
    reveal_strlit("_pre");
    reveal_strlit("_post");
    reveal_strlit("\n");
    reveal_strlit("_pre\n");
    reveal_strlit("_post\n");
    reveal_strlit(" <- llvm_fresh_var \"this_");
    reveal_strlit("_pre <- llvm_fresh_var \"this_");
    reveal_strlit("_post <- llvm_fresh_var \"this_");
    reveal_strlit("\" (llvm_int ");
    reveal_strlit("_pre\" (llvm_int ");
    reveal_strlit("_post\" (llvm_int ");
    assert("_pre"@ + " <- llvm_fresh_var \"this_"@ =~= "_pre <- llvm_fresh_var \"this_"@);
    assert("_post"@ + " <- llvm_fresh_var \"this_"@ =~= "_post <- llvm_fresh_var \"this_"@);
    assert("_pre"@ + "\" (llvm_int "@ =~= "_pre\" (llvm_int "@);
    assert("_post"@ + "\" (llvm_int "@ =~= "_post\" (llvm_int "@);
    assert("_pre"@ + "\n"@ =~= "_pre\n"@);
    assert("_post"@ + "\n"@ =~= "_post\n"@);
}

} // verus!
