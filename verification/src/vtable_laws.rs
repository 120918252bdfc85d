//! What the module of stubs says of each class and of each method.

use vstd::prelude::*;

use crate::class_groups::GroupView;
use crate::constraints::InterfaceMethod;
use crate::names::{lower_id, stub_name};
use crate::text::{
    dec, group_append, joined, lemma_append_assoc, lemma_append_nothing, lemma_joined_push,
    mentions, nil, only_if,
};
use crate::text_order::{
    in_order, lemma_in_order_ahead, lemma_in_order_behind, lemma_in_order_more, lemma_one_in_order,
    lemma_self_in_order,
};
use crate::types::{default_return_text, ir_text, param_pieces, sret_ir};
use crate::vtable_ir::{
    TargetAbi, abi_of, class_defs, class_ir, classes_ir, defs_text, dtor_stubs, flat_table,
    further_entries, itanium_table, mangled_class, method_entries, origin_from, origin_in,
    stub_signature, stub_symbol, stub_text, stubs_ir, symbols, table_entries,
};

verus! {

/// What stands before and behind the text of one stub.
proof fn lemma_defs_text_splits(
    defs: Seq<(Seq<char>, InterfaceMethod)>,
    class_name: Seq<char>,
    i: int,
) -> (r: (Seq<char>, Seq<char>))
    requires
        0 <= i < defs.len(),
    ensures
        defs_text(class_name, defs) == r.0 + stub_text(class_name, defs[i].0, defs[i].1) + r.1,
    decreases defs.len(),
{
    let rest = defs_text(class_name, defs.drop_last());
    let last = stub_text(class_name, defs.last().0, defs.last().1);
    if i == defs.len() - 1 {
        lemma_append_nothing(rest + last);
        (rest, nil())
    } else {
        let r = lemma_defs_text_splits(defs.drop_last(), class_name, i);
        lemma_append_assoc(r.0 + stub_text(class_name, defs[i].0, defs[i].1), r.1, last);
        (r.0, r.1 + last)
    }
}

/// What the module says of a class stands in the module.
proof fn lemma_class_in_order(
    g: Seq<GroupView>,
    vdtor: Seq<Seq<char>>,
    triple: Option<Seq<char>>,
    k: int,
    v: Seq<Seq<char>>,
)
    requires
        0 <= k < g.len(),
        in_order(class_ir(g, k, vdtor, abi_of(triple)), v),
    ensures
        in_order(stubs_ir(g, vdtor, triple), v),
{
    let abi = abi_of(triple);
    lemma_classes_in_order(g, g.len() as int, vdtor, abi, k, v);
    let all = classes_ir(g, g.len() as int, vdtor, abi);
    assert forall|a: Seq<char>| #[trigger] in_order(a + all, v) by {
        lemma_in_order_ahead(a, all, v);
    }
}

proof fn lemma_classes_in_order(
    g: Seq<GroupView>,
    n: int,
    vdtor: Seq<Seq<char>>,
    abi: TargetAbi,
    k: int,
    v: Seq<Seq<char>>,
)
    requires
        0 <= k < n,
        in_order(class_ir(g, k, vdtor, abi), v),
    ensures
        in_order(classes_ir(g, n, vdtor, abi), v),
    decreases n,
{
    let before = classes_ir(g, n - 1, vdtor, abi);
    let last = class_ir(g, n - 1, vdtor, abi);
    if k < n - 1 {
        lemma_classes_in_order(g, n - 1, vdtor, abi, k, v);
        lemma_in_order_behind(before, last, v);
    } else {
        lemma_in_order_ahead(before, last, v);
    }
}

/// What the parts of a class hold, the class holds.
proof fn lemma_class_parts(
    g: Seq<GroupView>,
    k: int,
    vdtor: Seq<Seq<char>>,
    abi: TargetAbi,
    v: Seq<Seq<char>>,
)
    requires
        ({
            let group = g[k];
            let safe = lower_id(group.name);
            let has_vdtor = vdtor.contains(group.name);
            ||| in_order(defs_text(group.name, class_defs(g, k, group.methods.len() as int)), v)
            ||| in_order(flat_table(g, group, safe, has_vdtor), v)
            ||| abi == TargetAbi::Itanium && in_order(itanium_table(g, group, safe, has_vdtor), v)
        }),
    ensures
        in_order(class_ir(g, k, vdtor, abi), v),
{
    reveal(class_ir);
    let group = g[k];
    let safe = lower_id(group.name);
    let has_vdtor = vdtor.contains(group.name);
    let head = "; ---- "@ + group.name + " vtable ----\n\n"@ + dtor_stubs(safe, has_vdtor, abi);
    let a = defs_text(group.name, class_defs(g, k, group.methods.len() as int));
    let b = flat_table(g, group, safe, has_vdtor);
    let c = only_if(abi == TargetAbi::Itanium, itanium_table(g, group, safe, has_vdtor));
    if abi == TargetAbi::Itanium && in_order(c, v) {
        lemma_in_order_ahead(head + a + b, c, v);
    } else {
        if in_order(b, v) {
            lemma_in_order_ahead(head + a, b, v);
        } else {
            lemma_in_order_ahead(head, a, v);
            lemma_in_order_behind(head + a, b, v);
        }
        lemma_in_order_behind(head + a + b, c, v);
    }
}

/// The table of every class has one slot for each method, in the order of the
/// methods and behind the slot of a virtual destructor, and each holds the
/// stub of its method.
pub proof fn law_table_holds_stubs_in_order(
    g: Seq<GroupView>,
    vdtor: Seq<Seq<char>>,
    triple: Option<Seq<char>>,
    k: int,
)
    requires
        0 <= k < g.len(),
    ensures
        ({
            let safe = lower_id(g[k].name);
            let methods = g[k].methods;
            let dtor = exists|d: int| 0 <= d < vdtor.len() && vdtor[d] == g[k].name;
            let slots = Seq::new(
                methods.len(),
                |i: int| "  ptr @"@ + stub_symbol(g, methods[i]),
            );
            let entries = if dtor {
                seq!["  ptr @"@ + safe + "_deleting_dtor_stub"@] + slots
            } else {
                slots
            };
            in_order(
                stubs_ir(g, vdtor, triple),
                seq![
                    "@"@ + safe + "_vtable = global ["@ + dec(entries.len()) + " x ptr] [\n"@ + joined(
                        entries,
                        ",\n"@,
                    ) + "\n]\n\n"@,
                ],
            )
        }),
{
    let group = g[k];
    let safe = lower_id(group.name);
    let methods = group.methods;
    let dtor = vdtor.contains(group.name);
    assert(dtor == (exists|d: int| 0 <= d < vdtor.len() && vdtor[d] == g[k].name));
    let slots = Seq::new(methods.len(), |i: int| "  ptr @"@ + stub_symbol(g, methods[i]));
    assert(method_entries(symbols(g, methods)) =~= slots);
    let entries = if dtor {
        seq!["  ptr @"@ + safe + "_deleting_dtor_stub"@] + slots
    } else {
        slots
    };
    assert(table_entries(g, group, safe, dtor) =~= entries);
    let head = "; Concrete vtable for "@ + group.name + " (MSVC-style, used by alloc_"@ + safe
        + "_this)\n"@;
    let table = "@"@ + safe + "_vtable = global ["@ + dec(entries.len()) + " x ptr] [\n"@ + joined(entries, ",\n"@)
        + "\n]\n\n"@;
    assert(flat_table(g, group, safe, dtor) == head + table) by {
        broadcast use group_append;

    }
    lemma_self_in_order(table);
    lemma_in_order_ahead(head, table, seq![table]);
    lemma_class_parts(g, k, vdtor, abi_of(triple), seq![table]);
    lemma_class_in_order(g, vdtor, triple, k, seq![table]);
}

/// Where the target is not MSVC, the table that the compiler emitted for a
/// class is replaced by one with two leading null slots, two destructor slots
/// where there is a virtual destructor, and the stubs of the methods in order.
pub proof fn law_itanium_table_holds_stubs_in_order(
    g: Seq<GroupView>,
    vdtor: Seq<Seq<char>>,
    triple: Seq<char>,
    k: int,
)
    requires
        0 <= k < g.len(),
        !mentions(triple, "windows-msvc"@),
    ensures
        ({
            let safe = lower_id(g[k].name);
            let methods = g[k].methods;
            let dtor = exists|d: int| 0 <= d < vdtor.len() && vdtor[d] == g[k].name;
            let slots = Seq::new(
                methods.len(),
                |i: int| ",\n  ptr @"@ + stub_symbol(g, methods[i]),
            );
            let n: nat = methods.len() + if dtor {
                4nat
            } else {
                2nat
            };
            in_order(
                stubs_ir(g, vdtor, Some(triple)),
                seq![
                    "{ ["@ + dec(n) + " x ptr] [\n"@ + "  ptr null,\n"@ + "  ptr null"@ + (if dtor {
                        ",\n  ptr @"@ + safe + "_complete_dtor_stub,\n  ptr @"@ + safe
                            + "_deleting_dtor_stub"@
                    } else {
                        nil()
                    }) + joined(slots, nil()) + "\n] }, align 8\n\n"@,
                ],
            )
        }),
{
    let group = g[k];
    let safe = lower_id(group.name);
    let methods = group.methods;
    let dtor = vdtor.contains(group.name);
    assert(dtor == (exists|d: int| 0 <= d < vdtor.len() && vdtor[d] == g[k].name));
    let slots = Seq::new(methods.len(), |i: int| ",\n  ptr @"@ + stub_symbol(g, methods[i]));
    lemma_further_entries(symbols(g, methods));
    assert(Seq::new(symbols(g, methods).len(), |i: int| ",\n  ptr @"@ + symbols(g, methods)[i])
        =~= slots);
    let n: nat = methods.len() + if dtor {
        4nat
    } else {
        2nat
    };
    let symbol = "_ZTV"@ + mangled_class(group.name);
    let dtors = only_if(
        dtor,
        ",\n  ptr @"@ + safe + "_complete_dtor_stub,\n  ptr @"@ + safe + "_deleting_dtor_stub"@,
    );
    let table = "{ ["@ + dec(n) + " x ptr] [\n"@ + "  ptr null,\n"@ + "  ptr null"@ + dtors + joined(slots, nil()) + "\n] }, align 8\n\n"@;
    let head = "; Itanium-ABI vtable override for "@ + group.name + " ("@ + symbol + ").\n"@
        + "; Replaces the compiler-emitted vtable when linked via `llvm-link --override`.\n"@
        + "@"@ + symbol + " = linkonce_odr unnamed_addr constant { ["@ + dec(n) + " x ptr] } "@;
    assert(itanium_table(g, group, safe, dtor) == head + table) by {
        lemma_itanium_glue();
        broadcast use group_append;

    }
    lemma_self_in_order(table);
    lemma_in_order_ahead(head, table, seq![table]);
    lemma_class_parts(g, k, vdtor, TargetAbi::Itanium, seq![table]);
    lemma_class_in_order(g, vdtor, Some(triple), k, seq![table]);
}

proof fn lemma_itanium_glue()
    ensures
        " x ptr] } "@ + "{ ["@ == " x ptr] } { ["@,
{
    reveal_strlit(" x ptr] } ");
    reveal_strlit("{ [");
    reveal_strlit(" x ptr] } { [");
    assert(" x ptr] } "@ + "{ ["@ =~= " x ptr] } { ["@);
}

proof fn lemma_further_entries(v: Seq<Seq<char>>)
    ensures
        further_entries(v) == joined(Seq::new(v.len(), |i: int| ",\n  ptr @"@ + v[i]), nil()),
    decreases v.len(),
{
    broadcast use lemma_append_nothing;

    let texts = Seq::new(v.len(), |i: int| ",\n  ptr @"@ + v[i]);
    if v.len() > 0 {
        let short = v.drop_last();
        lemma_further_entries(short);
        let before = Seq::new(short.len(), |i: int| ",\n  ptr @"@ + short[i]);
        assert(texts =~= before.push(",\n  ptr @"@ + v.last()));
        lemma_joined_push(before, nil(), ",\n  ptr @"@ + v.last());
    } else {
        assert(texts =~= Seq::<Seq<char>>::empty());
    }
}

proof fn lemma_origin_in(v: Seq<InterfaceMethod>, name: Seq<char>, i: int)
    requires
        0 <= i <= v.len(),
    ensures
        origin_in(v, name, i) matches Some(class) ==> exists|k: int|
            i <= k < v.len() && !(#[trigger] v[k]).is_override && v[k].method.name@ == name
                && v[k].class_name@ == class,
        origin_in(v, name, i) is None ==> forall|k: int|
            i <= k < v.len() ==> (#[trigger] v[k]).is_override || v[k].method.name@ != name,
    decreases v.len() - i,
{
    if i < v.len() && !(!v[i].is_override && v[i].method.name@ == name) {
        lemma_origin_in(v, name, i + 1);
    }
}

proof fn lemma_origin_from(g: Seq<GroupView>, name: Seq<char>, k: int)
    requires
        0 <= k <= g.len(),
    ensures
        origin_from(g, name, k) matches Some(class) ==> exists|c: int, i: int|
            #![trigger g[c].methods[i]]
            k <= c < g.len() && 0 <= i < g[c].methods.len() && !g[c].methods[i].is_override
                && g[c].methods[i].method.name@ == name && g[c].methods[i].class_name@ == class,
        origin_from(g, name, k) is None ==> forall|c: int, i: int|
            #![trigger g[c].methods[i]]
            k <= c < g.len() && 0 <= i < g[c].methods.len() ==> g[c].methods[i].is_override
                || g[c].methods[i].method.name@ != name,
    decreases g.len() - k,
{
    if k < g.len() {
        lemma_origin_in(g[k].methods, name, 0);
        lemma_origin_from(g, name, k + 1);
        if origin_in(g[k].methods, name, 0) is Some {
            let class = origin_in(g[k].methods, name, 0)->0;
            let i: int = choose|i: int|
                0 <= i < g[k].methods.len() && !(#[trigger] g[k].methods[i]).is_override
                    && g[k].methods[i].method.name@ == name && g[k].methods[i].class_name@ == class;
            assert(!g[k].methods[i].is_override);
        }
    }
}

/// A method that overrides no other has the stub of its own class. One that
/// overrides a method which is known shares the stub of that method, so that
/// calls through either class meet the same specification; any other one has
/// its own.
pub proof fn law_overriding_method_shares_the_stub(g: Seq<GroupView>, m: InterfaceMethod)
    ensures
        ({
            let name = m.method.name@;
            let known = exists|c: int, i: int|
                #![trigger g[c].methods[i]]
                0 <= c < g.len() && 0 <= i < g[c].methods.len() && !g[c].methods[i].is_override
                    && g[c].methods[i].method.name@ == name;
            &&& !m.is_override || !known ==> stub_symbol(g, m) == stub_name(m.class_name@, name)
            &&& m.is_override && known ==> exists|c: int, i: int|
                #![trigger g[c].methods[i]]
                0 <= c < g.len() && 0 <= i < g[c].methods.len() && !g[c].methods[i].is_override
                    && g[c].methods[i].method.name@ == name && stub_symbol(g, m) == stub_name(
                    g[c].methods[i].class_name@,
                    name,
                )
        }),
{
    lemma_origin_from(g, m.method.name@, 0);
}

/// A stub has the parameters of its method, each of its type and in order, and
/// returns the result; where that is returned through memory it returns
/// nothing, and the pointer to the memory stands behind the first parameter.
pub proof fn law_stub_has_the_signature(
    g: Seq<GroupView>,
    vdtor: Seq<Seq<char>>,
    triple: Option<Seq<char>>,
    k: int,
    d: int,
)
    requires
        0 <= k < g.len(),
        0 <= d < class_defs(g, k, g[k].methods.len() as int).len(),
    ensures
        ({
            let (symbol, m) = class_defs(g, k, g[k].methods.len() as int)[d];
            let given = Seq::new(
                m.method.params@.len(),
                |i: int| ir_text(m.method.params@[i].ty@) + " %arg"@ + dec(i as nat),
            );
            match sret_ir(m.method.return_type@) {
                Some(inner) => {
                    let buffer = "ptr sret("@ + inner + ") %retptr"@;
                    let params = if given.len() == 0 {
                        seq![buffer]
                    } else {
                        seq![given[0], buffer] + given.skip(1)
                    };
                    in_order(
                        stubs_ir(g, vdtor, triple),
                        seq![
                            "define "@ + "void"@ + " @"@ + symbol + "("@ + joined(params, ", "@)
                                + ") {\n"@,
                        ],
                    )
                },
                None => in_order(
                    stubs_ir(g, vdtor, triple),
                    seq![
                        "define "@ + ir_text(m.method.return_type@) + " @"@ + symbol + "("@ + joined(
                            given,
                            ", "@,
                        ) + ") {\n"@,
                    ],
                ),
            }
        }),
{
    let defs = class_defs(g, k, g[k].methods.len() as int);
    let (symbol, m) = defs[d];
    let given = Seq::new(
        m.method.params@.len(),
        |i: int| ir_text(m.method.params@[i].ty@) + " %arg"@ + dec(i as nat),
    );
    assert(param_pieces(m.method.params@) =~= given);
    if sret_ir(m.method.return_type@) is Some && given.len() > 0 {
        let buffer = "ptr sret("@ + sret_ir(m.method.return_type@)->0 + ") %retptr"@;
        assert(given.insert(1, buffer) =~= seq![given[0], buffer] + given.skip(1));
    }
    let (ret, params) = stub_signature(m);
    let line = "define "@ + ret + " @"@ + symbol + "("@ + params + ") {\n"@;
    lemma_stub_line(g[k].name, symbol, m);
    let s = lemma_defs_text_splits(defs, g[k].name, d);
    lemma_in_order_more(s.0, stub_text(g[k].name, symbol, m), s.1, seq![line]);
    lemma_class_parts(g, k, vdtor, abi_of(triple), seq![line]);
    lemma_class_in_order(g, vdtor, triple, k, seq![line]);
}

proof fn lemma_stub_line(class_name: Seq<char>, symbol: Seq<char>, m: InterfaceMethod)
    ensures
        ({
            let (ret, params) = stub_signature(m);
            in_order(
                stub_text(class_name, symbol, m),
                seq!["define "@ + ret + " @"@ + symbol + "("@ + params + ") {\n"@],
            )
        }),
{
    let (ret, params) = stub_signature(m);
    let kind = if m.is_pure {
        "pure virtual"@
    } else {
        "virtual"@
    };
    let head = "; "@ + class_name + "::"@ + m.method.name@ + " ["@ + kind + "]\n"@;
    let line = "define "@ + ret + " @"@ + symbol + "("@ + params + ") {\n"@;
    let tail = "  "@ + default_return_text(ret) + "\n"@ + "}\n\n"@;
    lemma_one_in_order(head, line, tail);
    assert(stub_text(class_name, symbol, m) == head + line + tail) by {
        broadcast use group_append;

    }
}

} // verus!
