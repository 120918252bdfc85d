//! What the stubs and the overrides of the methods of traits say, line by
//! line.

use vstd::prelude::*;

use crate::rust_trait_emit::{
    arg_line, arg_lines, arg_terms, fresh_line, method_id, method_text, methods_walked,
    return_lines, slot_types, slot_values, stub_body, stub_params, stub_text, trait_stub_name,
    traits_walked, vtable_text, walked, LlvmStubEmitter, Method, RustType, SawSpecEmitter, Trait,
    TraitSchema, TraitVisitor,
};
use crate::text::{dec, group_append, joined, lemma_append_assoc, lemma_append_nothing, nil, value};
use crate::text_order::{
    in_order, lemma_in_order_ahead, lemma_in_order_behind, lemma_in_order_join,
    lemma_in_order_more, lemma_list_of_three, lemma_list_of_two, lemma_none_in_order,
    lemma_one_in_order, lemma_self_in_order,
};

verus! {

/// The width in bits of an integer type; 32 for a type that is none.
pub open spec fn type_width(ty: RustType) -> nat {
    match ty {
        RustType::U8 => 8,
        RustType::I8 => 8,
        RustType::U16 => 16,
        RustType::I16 => 16,
        RustType::U64 => 64,
        RustType::I64 => 64,
        RustType::Usize => 64,
        RustType::Isize => 64,
        _ => 32,
    }
}

/// Is the type an integer?
pub open spec fn is_number(ty: RustType) -> bool {
    !(ty is Bool) && !(ty is Ref) && !(ty is Ptr) && !(ty is Unit)
}

/// An integer is passed in as many bits as its type has, a truth value in
/// one, a reference or raw pointer as a pointer, and no value as nothing.
pub proof fn law_types_as_passed(ty: RustType)
    ensures
        is_number(ty) <==> ty.bits() is Some,
        is_number(ty) ==> ty.ir() == "i"@ + dec(type_width(ty)) && ty.bits()->0 == type_width(ty),
        ty is Bool ==> ty.ir() == "i1"@,
        ty is Ref || ty is Ptr ==> ty.ir() == "ptr"@,
        ty is Unit ==> ty.ir() == "void"@,
{
    lemma_int_texts();
}

proof fn lemma_int_texts()
    ensures
        "i"@ + dec(8nat) == "i8"@,
        "i"@ + dec(16nat) == "i16"@,
        "i"@ + dec(32nat) == "i32"@,
        "i"@ + dec(64nat) == "i64"@,
{
    reveal_strlit("i");
    reveal_strlit("i8");
    reveal_strlit("i16");
    reveal_strlit("i32");
    reveal_strlit("i64");
    reveal_with_fuel(dec, 3);
    assert(("i"@ + dec(8nat)) =~= "i8"@);
    assert(("i"@ + dec(16nat)) =~= "i16"@);
    assert(("i"@ + dec(32nat)) =~= "i32"@);
    assert(("i"@ + dec(64nat)) =~= "i64"@);
}

/// What the text holds, it holds after more methods.
proof fn lemma_methods_keep(
    s: (Seq<char>, Seq<Seq<char>>),
    t: &Trait,
    n: nat,
    v: Seq<Seq<char>>,
)
    requires
        n <= t.methods@.len(),
        in_order(s.0, v) || exists|j: int|
            0 <= j < n && in_order(#[trigger] method_text(t, &t.methods@[j]), v),
    ensures
        in_order(methods_walked::<SawSpecEmitter>(s, t, n).0, v),
    decreases n,
{
    if n > 0 {
        let m = (n - 1) as nat;
        let before = methods_walked::<SawSpecEmitter>(s, t, m);
        let last = method_text(t, &t.methods@[n - 1]);
        if in_order(last, v) {
            lemma_in_order_ahead(before.0, last, v);
        } else {
            lemma_methods_keep(s, t, m, v);
            lemma_in_order_behind(before.0, last, v);
        }
    }
}

/// What the text of a method holds, the script holds.
proof fn lemma_traits_keep(
    s: (Seq<char>, Seq<Seq<char>>),
    traits: Seq<Trait>,
    n: nat,
    i: int,
    j: int,
    v: Seq<Seq<char>>,
)
    requires
        0 <= i < n <= traits.len(),
        0 <= j < traits[i].methods@.len(),
        in_order(method_text(&traits[i], &traits[i].methods@[j]), v),
    ensures
        in_order(traits_walked::<SawSpecEmitter>(s, traits, n).0, v),
    decreases n,
{
    let m = (n - 1) as nat;
    let t = &traits[n - 1];
    let before = traits_walked::<SawSpecEmitter>(s, traits, m);
    if i < m {
        lemma_traits_keep(s, traits, m, i, j, v);
    }
    lemma_methods_keep(before, t, t.methods@.len(), v);
}

/// What the module holds, it holds after more methods.
proof fn lemma_stub_methods_keep(s: Seq<char>, t: &Trait, n: nat, v: Seq<Seq<char>>)
    requires
        n <= t.methods@.len(),
        in_order(s, v) || exists|j: int|
            0 <= j < n && in_order(#[trigger] stub_text(t, &t.methods@[j]), v),
    ensures
        in_order(methods_walked::<LlvmStubEmitter>(s, t, n), v),
    decreases n,
{
    if n > 0 {
        let m = (n - 1) as nat;
        let before = methods_walked::<LlvmStubEmitter>(s, t, m);
        let last = stub_text(t, &t.methods@[n - 1]);
        if in_order(last, v) {
            lemma_in_order_ahead(before, last, v);
        } else {
            lemma_stub_methods_keep(s, t, m, v);
            lemma_in_order_behind(before, last, v);
        }
    }
}

/// What the stub of a method or the table of a trait holds, the module holds.
proof fn lemma_stub_traits_keep(
    s: Seq<char>,
    traits: Seq<Trait>,
    n: nat,
    i: int,
    v: Seq<Seq<char>>,
)
    requires
        0 <= i < n <= traits.len(),
        in_order(vtable_text(&traits[i]), v) || exists|j: int|
            0 <= j < traits[i].methods@.len() && in_order(
                #[trigger] stub_text(&traits[i], &traits[i].methods@[j]),
                v,
            ),
    ensures
        in_order(traits_walked::<LlvmStubEmitter>(s, traits, n), v),
    decreases n,
{
    let m = (n - 1) as nat;
    let t = &traits[n - 1];
    let before = traits_walked::<LlvmStubEmitter>(s, traits, m);
    let walked = methods_walked::<LlvmStubEmitter>(before, t, t.methods@.len());
    if i < m {
        lemma_stub_traits_keep(s, traits, m, i, v);
        lemma_stub_methods_keep(before, t, t.methods@.len(), v);
        lemma_in_order_behind(walked, vtable_text(t), v);
    } else if in_order(vtable_text(t), v) {
        lemma_in_order_ahead(walked, vtable_text(t), v);
    } else {
        lemma_stub_methods_keep(before, t, t.methods@.len(), v);
        lemma_in_order_behind(walked, vtable_text(t), v);
    }
}

/// The module defines a stub for every method of every trait, with the types
/// of its arguments in their order and of its result.
pub proof fn law_every_method_has_a_stub(s: Seq<char>, schema: &TraitSchema, i: int, j: int)
    requires
        0 <= i < schema.traits@.len(),
        0 <= j < schema.traits@[i].methods@.len(),
    ensures
        ({
            let t = schema.traits@[i];
            let m = t.methods@[j];
            let params = Seq::new(
                m.args@.len(),
                |k: int| m.args@[k].ir() + " %a"@ + dec(k as nat),
            );
            let zero = if m.ret is Unit {
                "  ret void"@
            } else if m.ret is Ref || m.ret is Ptr {
                "  ret ptr null"@
            } else if m.ret is Bool {
                "  ret i1 0"@
            } else {
                "  ret "@ + m.ret.ir() + " 0"@
            };
            in_order(
                walked::<LlvmStubEmitter>(s, schema),
                seq![
                    "define "@ + m.ret.ir() + " @"@ + ("__stub_"@ + t.name@ + "_"@ + m.name@) + "("@ + joined(
                        params,
                        ", "@,
                    ) + ") {\n"@,
                    zero,
                ],
            )
        }),
{
    let t = schema.traits@[i];
    let m = t.methods@[j];
    let name = trait_stub_name(t.name@, m.name@);
    let params = Seq::new(m.args@.len(), |k: int| m.args@[k].ir() + " %a"@ + dec(k as nat));
    assert(stub_params(m.args@) =~= params);
    let a = "define "@ + m.ret.ir() + " @"@ + name + "("@ + joined(params, ", "@) + ") {\n"@;
    let b = stub_body(m.ret);
    lemma_self_in_order(a);
    lemma_self_in_order(b);
    lemma_in_order_join(a, seq![a], b, seq![b]);
    lemma_list_of_two(a, b);
    lemma_stub_ends(t, m, a, b);
    let text = stub_text(&t, &m);
    assert(stub_text(&schema.traits@[i], &schema.traits@[i].methods@[j]) == text);
    lemma_stub_traits_keep(s, schema.traits@, schema.traits@.len(), i, seq![a, b]);
}

proof fn lemma_stub_ends(t: Trait, m: Method, a: Seq<char>, b: Seq<char>)
    requires
        a == "define "@ + m.ret.ir() + " @"@ + trait_stub_name(t.name@, m.name@) + "("@ + joined(
            stub_params(m.args@),
            ", "@,
        ) + ") {\n"@,
        b == stub_body(m.ret),
        in_order(a + b, seq![a, b]),
    ensures
        in_order(stub_text(&t, &m), seq![a, b]),
{
    broadcast use lemma_in_order_behind;

}

/// The script binds the override of every method: it takes any arguments, each
/// of them a fresh variable of the width of its type or a fresh pointer.
pub proof fn law_trait_override_takes_any_arguments(
    s: (Seq<char>, Seq<Seq<char>>),
    schema: &TraitSchema,
    i: int,
    j: int,
    k: int,
)
    requires
        0 <= i < schema.traits@.len(),
        0 <= j < schema.traits@[i].methods@.len(),
        0 <= k < schema.traits@[i].methods@[j].args@.len(),
        !(schema.traits@[i].methods@[j].args@[k] is Unit),
    ensures
        ({
            let t = schema.traits@[i];
            let m = t.methods@[j];
            let n = k as nat;
            let id = t.name@ + "_"@ + m.name@;
            in_order(
                walked::<SawSpecEmitter>(s, schema).0,
                seq![
                    "let "@ + id + "_havoc_spec = do {\n"@,
                    if m.args@[k] is Ref || m.args@[k] is Ptr {
                        "    a"@ + dec(n) + " <- llvm_alloc (llvm_int 8);  // ptr\n"@
                    } else {
                        "    a"@ + dec(n) + " <- llvm_fresh_var \"a"@ + dec(n)
                            + "\" (llvm_int "@ + dec(type_width(m.args@[k])) + ");\n"@
                    },
                    "    llvm_execute_func ["@,
                    "ov_"@ + id + " <- llvm_unsafe_assume_spec m \""@ + ("__stub_"@ + t.name@ + "_"@ + m.name@) + "\" "@
                        + id + "_havoc_spec;\n"@,
                ],
            )
        }),
{
    let t = schema.traits@[i];
    let m = t.methods@[j];
    let id = method_id(&t, &m);
    let none = Seq::<Seq<char>>::empty();
    let item = arg_line(m.args@[k], k as nat);
    let start = "let "@ + id + "_havoc_spec = do {\n"@;
    let call = "    llvm_execute_func ["@;
    let end = "ov_"@ + id + " <- llvm_unsafe_assume_spec m \""@ + trait_stub_name(t.name@, m.name@) + "\" "@ + id
        + "_havoc_spec;\n"@;
    lemma_self_in_order(item);
    let r = lemma_arg_lines_splits(m.args@, m.args@.len(), k);
    lemma_in_order_more(r.0, item, r.1, seq![item]);
    lemma_none_in_order(return_lines(id, m.ret));
    lemma_method_in_order(t, m, seq![item], none);
    lemma_four(start, item, call, end);
    lemma_traits_keep(
        SawSpecEmitter::schema_started(s, schema),
        schema.traits@,
        schema.traits@.len(),
        i,
        j,
        seq![start, item, call, end],
    );
}

proof fn lemma_four(start: Seq<char>, item: Seq<char>, call: Seq<char>, end: Seq<char>)
    ensures
        seq![start] + seq![item] + seq![call] + Seq::<Seq<char>>::empty() + seq![end]
            == seq![start, item, call, end],
{
    assert(seq![start] + seq![item] + seq![call] + Seq::<Seq<char>>::empty() + seq![end]
        =~= seq![start, item, call, end]);
}

/// The declaration of one argument stands among those of all.
proof fn lemma_arg_lines_splits(args: Seq<RustType>, n: nat, k: int) -> (r: (Seq<char>, Seq<char>))
    requires
        0 <= k < n <= args.len(),
    ensures
        arg_lines(args, n) == r.0 + arg_line(args[k], k as nat) + r.1,
    decreases n,
{
    let m = (n - 1) as nat;
    let last = arg_line(args[n - 1], m);
    if k == m {
        lemma_append_nothing(arg_lines(args, m) + last);
        (arg_lines(args, m), nil())
    } else {
        let r = lemma_arg_lines_splits(args, m, k);
        lemma_append_assoc(r.0 + arg_line(args[k], k as nat), r.1, last);
        (r.0, r.1 + last)
    }
}

/// The parts of the specification of a method.
proof fn lemma_method_in_order(t: Trait, m: Method, v: Seq<Seq<char>>, w: Seq<Seq<char>>)
    requires
        in_order(arg_lines(m.args@, m.args@.len()), v),
        in_order(return_lines(method_id(&t, &m), m.ret), w),
    ensures
        ({
            let id = method_id(&t, &m);
            &&& in_order(
                method_text(&t, &m),
                seq!["let "@ + id + "_havoc_spec = do {\n"@] + v + seq!["    llvm_execute_func ["@] + w
                    + seq![
                    "ov_"@ + id + " <- llvm_unsafe_assume_spec m \""@ + trait_stub_name(t.name@, m.name@) + "\" "@
                        + id + "_havoc_spec;\n"@,
                ],
            )
            &&& is_number(m.ret) ==> in_order(
                method_text(&t, &m),
                seq![
                    "\n"@ + id + "_ret <- fresh_symbolic \""@ + id + "_ret\" {| ["@
                        + dec(type_width(m.ret)) + "] |};\n"@,
                    "    llvm_execute_func ["@,
                ] + w,
            )
        }),
{
    let id = method_id(&t, &m);
    let fresh = fresh_line(id, m.ret);
    let start = "let "@ + id + "_havoc_spec = do {\n"@;
    let args = arg_lines(m.args@, m.args@.len());
    let call = "    llvm_execute_func ["@;
    let given = joined(arg_terms(m.args@, m.args@.len()), ", "@);
    let ret = return_lines(id, m.ret);
    let end = "ov_"@ + id + " <- llvm_unsafe_assume_spec m \""@ + trait_stub_name(t.name@, m.name@) + "\" "@ + id
        + "_havoc_spec;\n"@;
    assert(method_text(&t, &m) == fresh + start + args + call + given + "];\n"@ + ret + "};\n"@
        + end) by {
        broadcast use group_append;

    }
    lemma_self_in_order(start);
    lemma_self_in_order(call);
    lemma_self_in_order(end);
    let x = seq![start] + v + seq![call];
    lemma_in_order_ahead(fresh, start, seq![start]);
    lemma_in_order_join(fresh + start, seq![start], args, v);
    lemma_in_order_join(fresh + start + args, seq![start] + v, call, seq![call]);
    let s = fresh + start + args + call;
    lemma_in_order_behind(s, given, x);
    lemma_in_order_behind(s + given, "];\n"@, x);
    lemma_in_order_join(s + given + "];\n"@, x, ret, w);
    lemma_in_order_behind(s + given + "];\n"@ + ret, "};\n"@, x + w);
    lemma_in_order_join(s + given + "];\n"@ + ret + "};\n"@, x + w, end, seq![end]);
    if is_number(m.ret) {
        law_types_as_passed(m.ret);
        lemma_self_in_order(fresh);
        lemma_in_order_behind(fresh, start, seq![fresh]);
        lemma_in_order_behind(fresh + start, args, seq![fresh]);
        lemma_in_order_join(fresh + start + args, seq![fresh], call, seq![call]);
        lemma_list_of_two(fresh, call);
        let y = seq![fresh, call];
        lemma_in_order_behind(s, given, y);
        lemma_in_order_behind(s + given, "];\n"@, y);
        lemma_in_order_join(s + given + "];\n"@, y, ret, w);
        lemma_in_order_behind(s + given + "];\n"@ + ret, "};\n"@, y + w);
        lemma_in_order_behind(s + given + "];\n"@ + ret + "};\n"@, end, y + w);
    }
}

/// The override of a method returns anything: an integer that the script makes
/// fresh at the width of its type, or a newly allocated pointer.
pub proof fn law_trait_override_returns_anything(
    s: (Seq<char>, Seq<Seq<char>>),
    schema: &TraitSchema,
    i: int,
    j: int,
)
    requires
        0 <= i < schema.traits@.len(),
        0 <= j < schema.traits@[i].methods@.len(),
    ensures
        ({
            let t = schema.traits@[i];
            let m = t.methods@[j];
            let id = t.name@ + "_"@ + m.name@;
            let text = walked::<SawSpecEmitter>(s, schema).0;
            &&& is_number(m.ret) ==> in_order(
                text,
                seq![
                    "\n"@ + id + "_ret <- fresh_symbolic \""@ + id + "_ret\" {| ["@
                        + dec(type_width(m.ret)) + "] |};\n"@,
                    "    llvm_execute_func ["@,
                    "    llvm_return (llvm_term "@ + id + "_ret);\n"@,
                ],
            )
            &&& m.ret is Ref || m.ret is Ptr ==> in_order(
                text,
                seq![
                    "let "@ + id + "_havoc_spec = do {\n"@,
                    "    llvm_execute_func ["@,
                    "    ret_ptr <- llvm_alloc (llvm_int 8);\n    llvm_return ret_ptr;\n"@,
                    "ov_"@ + id + " <- llvm_unsafe_assume_spec m \""@ + ("__stub_"@ + t.name@ + "_"@ + m.name@) + "\" "@
                        + id + "_havoc_spec;\n"@,
                ],
            )
        }),
{
    let t = schema.traits@[i];
    let m = t.methods@[j];
    let id = method_id(&t, &m);
    let none = Seq::<Seq<char>>::empty();
    let ret = return_lines(id, m.ret);
    let start = "let "@ + id + "_havoc_spec = do {\n"@;
    let call = "    llvm_execute_func ["@;
    let end = "ov_"@ + id + " <- llvm_unsafe_assume_spec m \""@ + trait_stub_name(t.name@, m.name@) + "\" "@ + id
        + "_havoc_spec;\n"@;
    let fresh = "\n"@ + id + "_ret <- fresh_symbolic \""@ + id + "_ret\" {| ["@ + dec(type_width(m.ret))
        + "] |};\n"@;
    lemma_none_in_order(arg_lines(m.args@, m.args@.len()));
    lemma_self_in_order(ret);
    lemma_method_in_order(t, m, none, seq![ret]);
    let first = SawSpecEmitter::schema_started(s, schema);
    if is_number(m.ret) {
        lemma_list_of_three(fresh, call, ret);
        lemma_traits_keep(
            first,
            schema.traits@,
            schema.traits@.len(),
            i,
            j,
            seq![fresh, call, ret],
        );
    } else if m.ret is Ref || m.ret is Ptr {
        assert(seq![start] + none + seq![call] + seq![ret] + seq![end]
            =~= seq![start, call, ret, end]);
        lemma_traits_keep(
            first,
            schema.traits@,
            schema.traits@.len(),
            i,
            j,
            seq![start, call, ret, end],
        );
    }
}

/// The table of a trait holds the stub of each method in the slot of the
/// method, behind the three slots of the object.
pub proof fn law_trait_table_holds_stubs(s: Seq<char>, schema: &TraitSchema, i: int)
    requires
        0 <= i < schema.traits@.len(),
    ensures
        ({
            let t = schema.traits@[i];
            let values = Seq::new(
                t.methods@.len() + 3,
                |k: int|
                    if k == 0 {
                        "ptr null"@
                    } else if k == 1 {
                        "i64 0"@
                    } else if k == 2 {
                        "i64 1"@
                    } else {
                        "ptr @"@ + ("__stub_"@ + t.name@ + "_"@ + t.methods@[k - 3].name@)
                    },
            );
            let types = Seq::new(
                t.methods@.len() + 3,
                |k: int|
                    if k == 1 || k == 2 {
                        "i64"@
                    } else {
                        "ptr"@
                    },
            );
            in_order(
                walked::<LlvmStubEmitter>(s, schema),
                seq![
                    "@__stubvtable_"@ + t.name@ + " = constant { "@ + joined(types, ", "@)
                        + " } {\n  "@ + joined(values, ",\n  "@) + "\n}\n\n"@,
                ],
            )
        }),
{
    let t = schema.traits@[i];
    let n = t.methods@.len();
    let values = Seq::new(
        n + 3,
        |k: int|
            if k == 0 {
                "ptr null"@
            } else if k == 1 {
                "i64 0"@
            } else if k == 2 {
                "i64 1"@
            } else {
                "ptr @"@ + ("__stub_"@ + t.name@ + "_"@ + t.methods@[k - 3].name@)
            },
    );
    let types = Seq::new(
        n + 3,
        |k: int|
            if k == 1 || k == 2 {
                "i64"@
            } else {
                "ptr"@
            },
    );
    lemma_slots(t, n);
    assert(slot_values(&t, n) =~= values);
    assert(slot_types(n) =~= types);
    let text = vtable_text(&t);
    lemma_self_in_order(text);
    lemma_table_text(t.name@, joined(types, ", "@), joined(values, ",\n  "@));
    lemma_stub_traits_keep(s, schema.traits@, schema.traits@.len(), i, seq![text]);
}

proof fn lemma_table_text(name: Seq<char>, types: Seq<char>, values: Seq<char>)
    ensures
        "@__stubvtable_"@ + name + " = constant { "@ + types + " } {\n"@ + "  "@ + values
            + "\n"@ + "}\n\n"@ == "@__stubvtable_"@ + name + " = constant { "@ + types + " } {\n  "@ + values
               + "\n}\n\n"@,
{
    reveal_strlit(" } {\n");
    reveal_strlit("  ");
    reveal_strlit(" } {\n  ");
    reveal_strlit("\n");
    reveal_strlit("}\n\n");
    reveal_strlit("\n}\n\n");
    let a = "@__stubvtable_"@ + name + " = constant { "@ + types;
    assert(" } {\n"@ + "  "@ =~= " } {\n  "@);
    assert("\n"@ + "}\n\n"@ =~= "\n}\n\n"@);
    lemma_append_assoc(a, " } {\n"@, "  "@);
    lemma_append_assoc(a + " } {\n  "@ + values, "\n"@, "}\n\n"@);
}

proof fn lemma_slots(t: Trait, n: nat)
    requires
        n <= t.methods@.len(),
    ensures
        slot_types(n).len() == n + 3,
        slot_values(&t, n).len() == n + 3,
        forall|k: int|
            0 <= k < n + 3 ==> #[trigger] slot_types(n)[k] == if k == 1 || k == 2 {
                "i64"@
            } else {
                "ptr"@
            },
        forall|k: int|
            0 <= k < n + 3 ==> #[trigger] slot_values(&t, n)[k] == if k == 0 {
                "ptr null"@
            } else if k == 1 {
                "i64 0"@
            } else if k == 2 {
                "i64 1"@
            } else {
                "ptr @"@ + ("__stub_"@ + t.name@ + "_"@ + t.methods@[k - 3].name@)
            },
    decreases n,
{
    if n > 0 {
        lemma_slots(t, (n - 1) as nat);
    }
}

/// The arguments that have a value, in their order.
proof fn lemma_arg_terms(args: Seq<RustType>, n: nat)
    requires
        n <= args.len(),
    ensures
        arg_terms(args, n) =~= Seq::new(n, |i: int| i).filter(|i: int| !(args[i] is Unit)).map_values(
            |i: int|
                if args[i] is Ref || args[i] is Ptr {
                    "a"@ + dec(i as nat)
                } else {
                    "llvm_term a"@ + dec(i as nat)
                },
        ),
    decreases n,
{
    reveal(Seq::filter);
    let all = Seq::new(n, |i: int| i);
    let pred = |i: int| !(args[i] is Unit);
    let value = |i: int|
        if args[i] is Ref || args[i] is Ptr {
            "a"@ + dec(i as nat)
        } else {
            "llvm_term a"@ + dec(i as nat)
        };
    if n > 0 {
        let m = (n - 1) as nat;
        let short = Seq::new(m, |i: int| i);
        lemma_arg_terms(args, m);
        assert(all.drop_last() =~= short);
        assert(all.last() == n - 1);
        if args[n - 1] is Unit {
            assert(all.filter(pred) == short.filter(pred));
        } else {
            assert(all.filter(pred) == short.filter(pred).push(n - 1));
            assert(all.filter(pred).map_values(value) =~= short.filter(pred).map_values(value).push(
                value(n - 1),
            ));
        }
    } else {
        assert(all.filter(pred) =~= Seq::<int>::empty());
    }
}

/// The override of a method is called with every argument that has a value, in
/// their order: a pointer as such, any other as a term.
pub proof fn law_trait_override_passes_every_argument(
    s: (Seq<char>, Seq<Seq<char>>),
    schema: &TraitSchema,
    i: int,
    j: int,
)
    requires
        0 <= i < schema.traits@.len(),
        0 <= j < schema.traits@[i].methods@.len(),
    ensures
        ({
            let args = schema.traits@[i].methods@[j].args@;
            let terms = Seq::new(args.len(), |k: int| k).filter(
                |k: int| !(args[k] is Unit),
            ).map_values(
                |k: int|
                    if args[k] is Ref || args[k] is Ptr {
                        "a"@ + dec(k as nat)
                    } else {
                        "llvm_term a"@ + dec(k as nat)
                    },
            );
            in_order(
                walked::<SawSpecEmitter>(s, schema).0,
                seq!["    llvm_execute_func ["@ + joined(terms, ", "@) + "];\n"@],
            )
        }),
{
    let t = schema.traits@[i];
    let m = t.methods@[j];
    let id = method_id(&t, &m);
    lemma_arg_terms(m.args@, m.args@.len());
    let line = "    llvm_execute_func ["@ + joined(arg_terms(m.args@, m.args@.len()), ", "@) + "];\n"@;
    let before = fresh_line(id, m.ret) + ("let "@ + id + "_havoc_spec = do {\n"@) + arg_lines(
        m.args@,
        m.args@.len(),
    );
    let after = return_lines(id, m.ret) + ("};\n"@ + "ov_"@ + id + " <- llvm_unsafe_assume_spec m \""@)
        + trait_stub_name(t.name@, m.name@) + "\" "@ + id + "_havoc_spec;\n"@;
    lemma_one_in_order(before, line, after);
    assert(method_text(&t, &m) == before + line + after) by {
        broadcast use group_append;

    }
    lemma_traits_keep(
        SawSpecEmitter::schema_started(s, schema),
        schema.traits@,
        schema.traits@.len(),
        i,
        j,
        seq![line],
    );
}

} // verus!
