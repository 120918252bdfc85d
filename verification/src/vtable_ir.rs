//! LLVM IR of the stubs of virtual methods, and of the virtual tables that
//! hold them.

use vstd::prelude::*;
use vstd::utf8::encode_utf8;

use crate::class_groups::{ClassGroup, GroupView, groups_view, methods_view};
use crate::constraints::InterfaceMethod;
use crate::names::{lower_id, sanitize_lower, stub_name};
use crate::text::{
    contains, dec, group_append, group_views, join, joined, lemma_append_assoc,
    lemma_append_nothing, lemma_views_empty, lemma_views_push, list_has, mentions, nil, only_if,
    opt_view, owned, parts, put, put2, put3, put5, put7, put_dec, put_joined, same, slice_has,
    split_on, strip_prefixes, trim, trim_text, views, without_prefixes,
};
use crate::types::{
    default_return_text, ir_default_return, ir_text, method_param_ir_pieces, param_pieces,
    sret_inner_ir_type, sret_ir, type_to_llvm_ir,
};

verus! {

/// The object layout of C++ on the target.
#[derive(Debug, Clone, Copy, PartialEq, Eq, Structural)]
pub enum TargetAbi {
    /// A virtual table holds one destructor slot and the methods.
    Msvc,
    /// A virtual table holds two leading slots, two destructor slots and
    /// the methods.
    Itanium,
}

/// The layout for a target triple; MSVC where none is given.
pub open spec fn abi_of(triple: Option<Seq<char>>) -> TargetAbi {
    match triple {
        Some(t) => if mentions(t, "windows-msvc"@) {
            TargetAbi::Msvc
        } else {
            TargetAbi::Itanium
        },
        None => TargetAbi::Msvc,
    }
}

pub open spec fn triple_text(abi: TargetAbi) -> Seq<char> {
    match abi {
        TargetAbi::Msvc => "x86_64-pc-windows-msvc"@,
        TargetAbi::Itanium => "x86_64-unknown-linux-gnu"@,
    }
}

pub open spec fn datalayout_text(abi: TargetAbi) -> Seq<char> {
    match abi {
        TargetAbi::Msvc => "target datalayout = \"e-m:w-p270:32:32-p271:32:32-p272:64:64-i64:64-i128:128-f80:128-n8:16:32:64-S128\""@,
        TargetAbi::Itanium => "target datalayout = \"e-m:e-p270:32:32-p271:32:32-p272:64:64-i64:64-i128:128-f80:128-n8:16:32:64-S128\""@,
    }
}

impl TargetAbi {
    /// The layout for a target triple.
    pub fn from_triple(triple: Option<&str>) -> (r: TargetAbi)
        ensures
            r == abi_of(opt_view(triple)),
    {
        match triple {
            Some(t) => if contains(t, "windows-msvc") {
                TargetAbi::Msvc
            } else {
                TargetAbi::Itanium
            },
            None => TargetAbi::Msvc,
        }
    }

    /// The target triple of the module.
    pub fn triple(self) -> (r: &'static str)
        ensures
            r@ == triple_text(self),
    {
        match self {
            TargetAbi::Msvc => "x86_64-pc-windows-msvc",
            TargetAbi::Itanium => "x86_64-unknown-linux-gnu",
        }
    }

    /// The data layout line of the module.
    pub fn datalayout(self) -> (r: &'static str)
        ensures
            r@ == datalayout_text(self),
    {
        match self {
            TargetAbi::Msvc => "target datalayout = \"e-m:w-p270:32:32-p271:32:32-p272:64:64-i64:64-i128:128-f80:128-n8:16:32:64-S128\"",
            TargetAbi::Itanium => "target datalayout = \"e-m:e-p270:32:32-p271:32:32-p272:64:64-i64:64-i128:128-f80:128-n8:16:32:64-S128\"",
        }
    }
}

/// The parts of a qualified name, each after its length in bytes.
pub open spec fn mangled_parts(v: Seq<Seq<char>>) -> Seq<char>
    decreases v.len(),
{
    if v.len() == 0 {
        nil()
    } else {
        mangled_parts(v.drop_last()) + (dec(encode_utf8(v.last()).len()) + v.last())
    }
}

/// The Itanium mangling of a class name.
pub open spec fn mangled_class(class_name: Seq<char>) -> Seq<char> {
    let name = trim_text(
        without_prefixes(without_prefixes(class_name, "class "@), "struct "@),
    );
    if mentions(name, "::"@) {
        "N"@ + mangled_parts(parts(name, "::"@)) + "E"@
    } else {
        dec(encode_utf8(name).len()) + name
    }
}

fn put_mangled_parts(out: &mut String, v: &Vec<String>)
    ensures
        final(out)@ == old(out)@ + mangled_parts(views(v@)),
{
    broadcast use {group_append, group_views};
    let ghost w = views(v@);
    let mut i: usize = 0;
    assert(mangled_parts(w.take(0)) =~= nil());
    while i < v.len()
        invariant
            w == views(v@),
            i <= v@.len(),
            out@ == old(out)@ + mangled_parts(w.take(i as int)),
        decreases v@.len() - i,
    {
        proof {
            assert(w.take(i + 1).drop_last() =~= w.take(i as int));
            assert(w.take(i + 1).last() == v@[i as int]@);
        }
        let n: usize = v[i].as_str().as_bytes().len();
        put_dec(out, n as u128);
        put(out, v[i].as_str());
        i += 1;
    }
    assert(w.take(w.len() as int) =~= w);
}

/// The Itanium mangling of a class name: its length and the name, or those
/// of each part of a qualified name.
pub fn itanium_mangle_class_name(class_name: &str) -> (r: String)
    ensures
        r@ == mangled_class(class_name@),
{
    broadcast use {group_append, group_views};
    proof {
        reveal_strlit("class ");
        reveal_strlit("struct ");
        reveal_strlit("::");
    }
    let name = trim(strip_prefixes(strip_prefixes(class_name, "class "), "struct "));
    let mut r = String::new();
    if contains(name, "::") {
        let list = split_on(name, "::");
        put(&mut r, "N");
        put_mangled_parts(&mut r, &list);
        put(&mut r, "E");
    } else {
        let n: usize = name.as_bytes().len();
        put_dec(&mut r, n as u128);
        put(&mut r, name);
    }
    r
}

/// The class of the first method from `i` on that has the given name and
/// overrides no other.
pub open spec fn origin_in(v: Seq<InterfaceMethod>, name: Seq<char>, i: int) -> Option<Seq<char>>
    decreases v.len() - i,
{
    if i < 0 || i >= v.len() {
        None
    } else if !v[i].is_override && v[i].method.name@ == name {
        Some(v[i].class_name@)
    } else {
        origin_in(v, name, i + 1)
    }
}

/// The same among the groups from `k` on.
pub open spec fn origin_from(g: Seq<GroupView>, name: Seq<char>, k: int) -> Option<Seq<char>>
    decreases g.len() - k,
{
    if k < 0 || k >= g.len() {
        None
    } else if origin_in(g[k].methods, name, 0) is Some {
        origin_in(g[k].methods, name, 0)
    } else {
        origin_from(g, name, k + 1)
    }
}

/// The class whose stub stands in the slot of a method: that of the method
/// which it overrides, where that one is known.
pub open spec fn stub_class(g: Seq<GroupView>, m: InterfaceMethod) -> Seq<char> {
    if m.is_override && origin_from(g, m.method.name@, 0) is Some {
        origin_from(g, m.method.name@, 0)->0
    } else {
        m.class_name@
    }
}

/// The symbol in the slot of a method.
pub open spec fn stub_symbol(g: Seq<GroupView>, m: InterfaceMethod) -> Seq<char> {
    stub_name(stub_class(g, m), m.method.name@)
}

fn find_origin_in<'a>(v: &Vec<&'a InterfaceMethod>, name: &str) -> (r: Option<&'a str>)
    ensures
        opt_view(r) == origin_in(methods_view(v@), name@, 0),
{
    let ghost w = methods_view(v@);
    let mut i: usize = 0;
    while i < v.len()
        invariant
            w == methods_view(v@),
            i <= v@.len(),
            origin_in(w, name@, 0) == origin_in(w, name@, i as int),
        decreases v@.len() - i,
    {
        if !v[i].is_override && same(v[i].method.name.as_str(), name) {
            return Some(v[i].class_name.as_str());
        }
        i += 1;
    }
    None
}

fn find_origin<'a>(g: &'a [ClassGroup<'a>], name: &str) -> (r: Option<&'a str>)
    ensures
        opt_view(r) == origin_from(groups_view(g@), name@, 0),
{
    let ghost w = groups_view(g@);
    let mut k: usize = 0;
    while k < g.len()
        invariant
            w == groups_view(g@),
            k <= g@.len(),
            origin_from(w, name@, 0) == origin_from(w, name@, k as int),
        decreases g@.len() - k,
    {
        let r = find_origin_in(&g[k].methods, name);
        if r.is_some() {
            return r;
        }
        k += 1;
    }
    None
}

fn symbol_of(g: &[ClassGroup], m: &InterfaceMethod) -> (r: String)
    ensures
        r@ == stub_symbol(groups_view(g@), *m),
{
    broadcast use {group_append, group_views};
    let own = m.class_name.as_str();
    let class_name = if m.is_override {
        match find_origin(g, m.method.name.as_str()) {
            Some(c) => c,
            None => own,
        }
    } else {
        own
    };
    let mut r = sanitize_lower(class_name);
    let name = sanitize_lower(m.method.name.as_str());
    put3(&mut r, "_", name.as_str(), "_stub");
    r
}

/// The symbols in the slots of the methods.
pub open spec fn symbols(g: Seq<GroupView>, v: Seq<InterfaceMethod>) -> Seq<Seq<char>> {
    Seq::new(v.len(), |i: int| stub_symbol(g, v[i]))
}

/// The symbols in the slots of the first `k` classes.
pub open spec fn symbols_before(g: Seq<GroupView>, k: int) -> Seq<Seq<char>>
    decreases k,
{
    if k <= 0 || k > g.len() {
        Seq::empty()
    } else {
        symbols_before(g, k - 1) + symbols(g, g[k - 1].methods)
    }
}

/// The stubs defined for the first `n` methods of class `k`: those whose
/// symbol stands in no earlier slot.
pub open spec fn class_defs(g: Seq<GroupView>, k: int, n: int) -> Seq<(
    Seq<char>,
    InterfaceMethod,
)>
    decreases n,
{
    if n <= 0 {
        Seq::empty()
    } else {
        let m = g[k].methods[n - 1];
        let earlier = symbols_before(g, k) + symbols(g, g[k].methods.take(n - 1));
        if earlier.contains(stub_symbol(g, m)) {
            class_defs(g, k, n - 1)
        } else {
            class_defs(g, k, n - 1).push((stub_symbol(g, m), m))
        }
    }
}

/// The return type and the parameters of a stub.
pub open spec fn stub_signature(m: InterfaceMethod) -> (Seq<char>, Seq<char>) {
    let params = param_pieces(m.method.params@);
    match sret_ir(m.method.return_type@) {
        Some(inner) => {
            let buffer = "ptr sret("@ + inner + ") %retptr"@;
            (
                "void"@,
                joined(
                    if params.len() == 0 {
                        seq![buffer]
                    } else {
                        params.insert(1, buffer)
                    },
                    ", "@,
                ),
            )
        },
        None => (ir_text(m.method.return_type@), joined(params, ", "@)),
    }
}

/// The definition of one stub.
pub open spec fn stub_text(class_name: Seq<char>, symbol: Seq<char>, m: InterfaceMethod) -> Seq<
    char,
> {
    let (ret, params) = stub_signature(m);
    let kind = if m.is_pure {
        "pure virtual"@
    } else {
        "virtual"@
    };
    "; "@ + class_name + "::"@ + m.method.name@ + " ["@ + kind + "]\n"@ + "define "@ + ret
        + " @"@ + symbol + "("@ + params + ") {\n"@ + "  "@ + default_return_text(ret) + "\n"@
        + "}\n\n"@
}

fn emit_stub_for_method(out: &mut String, class_name: &str, symbol: &str, method: &InterfaceMethod)
    ensures
        final(out)@ == old(out)@ + stub_text(class_name@, symbol@, *method),
{
    broadcast use {group_append, group_views};
    let mut list = method_param_ir_pieces(&method.method);
    let ghost pieces = views(list@);
    let ret = match sret_inner_ir_type(&method.method.return_type) {
        Some(inner) => {
            let mut buffer = String::new();
            put3(&mut buffer, "ptr sret(", inner.as_str(), ") %retptr");
            let ghost b = buffer@;
            if list.len() == 0 {
                list.push(buffer);
                assert(views(list@) =~= seq![b]);
            } else {
                list.insert(1, buffer);
                assert(views(list@) =~= pieces.insert(1, b));
            }
            owned("void")
        },
        None => type_to_llvm_ir(&method.method.return_type),
    };
    let params = join(&list, ", ");
    let kind = if method.is_pure {
        "pure virtual"
    } else {
        "virtual"
    };
    let body = ir_default_return(ret.as_str());
    put7(out, "; ", class_name, "::", method.method.name.as_str(), " [", kind, "]\n");
    put7(out, "define ", ret.as_str(), " @", symbol, "(", params.as_str(), ") {\n");
    put3(out, "  ", body.as_str(), "\n");
    put(out, "}\n\n");
}

pub open spec fn defs_text(class_name: Seq<char>, defs: Seq<(Seq<char>, InterfaceMethod)>) -> Seq<
    char,
>
    decreases defs.len(),
{
    if defs.len() == 0 {
        nil()
    } else {
        defs_text(class_name, defs.drop_last()) + stub_text(
            class_name,
            defs.last().0,
            defs.last().1,
        )
    }
}

/// Emits the stubs of class `k`; notes the symbols in its slots.
fn put_stubs(out: &mut String, g: &[ClassGroup], k: usize, noted: &mut Vec<String>)
    requires
        k < g@.len(),
        views(old(noted)@) == symbols_before(groups_view(g@), k as int),
    ensures
        final(out)@ == old(out)@ + defs_text(
            g@[k as int].name@,
            class_defs(groups_view(g@), k as int, g@[k as int].methods@.len() as int),
        ),
        views(final(noted)@) == symbols_before(groups_view(g@), k + 1),
{
    broadcast use {lemma_append_nothing, lemma_views_push};

    let ghost w = groups_view(g@);
    let ghost ms = w[k as int].methods;
    let ghost base = symbols_before(w, k as int);
    let class_name = g[k].name.as_str();
    let methods = &g[k].methods;
    let mut i: usize = 0;
    proof {
        assert(base + symbols(w, ms.take(0)) =~= base);
        assert(defs_text(class_name@, class_defs(w, k as int, 0)) =~= nil());
    }
    while i < methods.len()
        invariant
            w == groups_view(g@),
            k < g@.len(),
            ms == w[k as int].methods,
            ms == methods_view(methods@),
            base == symbols_before(w, k as int),
            i <= methods@.len(),
            views(noted@) == base + symbols(w, ms.take(i as int)),
            out@ == old(out)@ + defs_text(class_name@, class_defs(w, k as int, i as int)),
        decreases methods@.len() - i,
    {
        let symbol = symbol_of(g, methods[i]);
        proof {
            let defs = class_defs(w, k as int, i as int);
            assert(ms[i as int] == *methods@[i as int]);
            assert(defs.push((symbol@, ms[i as int])).drop_last() =~= defs);
            lemma_append_assoc(
                old(out)@,
                defs_text(class_name@, defs),
                stub_text(class_name@, symbol@, ms[i as int]),
            );
            assert(base + symbols(w, ms.take(i + 1)) =~= (base + symbols(
                w,
                ms.take(i as int),
            )).push(symbol@));
        }
        if !list_has(noted, symbol.as_str()) {
            emit_stub_for_method(out, class_name, symbol.as_str(), methods[i]);
        }
        noted.push(symbol);
        i += 1;
    }
    assert(ms.take(ms.len() as int) =~= ms);
}

/// The destructor stubs of a class with a virtual destructor.
pub open spec fn dtor_stubs(safe: Seq<char>, has_vdtor: bool, abi: TargetAbi) -> Seq<char> {
    if !has_vdtor {
        nil()
    } else {
        match abi {
            TargetAbi::Msvc => "define void @"@ + safe
                + "_deleting_dtor_stub(ptr %self, i32 %flags) {\n  ret void\n}\n\n"@,
            TargetAbi::Itanium => "define void @"@ + safe + "_complete_dtor_stub(ptr %self) {\n  ret void\n}\n\n"@
                + "define void @"@ + safe
                + "_deleting_dtor_stub(ptr %self) {\n  ret void\n}\n\n"@,
        }
    }
}

fn put_dtor_stubs(out: &mut String, safe: &str, has_vdtor: bool, abi: TargetAbi)
    ensures
        final(out)@ == old(out)@ + dtor_stubs(safe@, has_vdtor, abi),
{
    broadcast use {group_append, group_views};
    if has_vdtor {
        match abi {
            TargetAbi::Msvc => {
                put3(
                    out,
                    "define void @",
                    safe,
                    "_deleting_dtor_stub(ptr %self, i32 %flags) {\n  ret void\n}\n\n",
                );
            },
            TargetAbi::Itanium => {
                put3(
                    out,
                    "define void @",
                    safe,
                    "_complete_dtor_stub(ptr %self) {\n  ret void\n}\n\n",
                );
                put3(
                    out,
                    "define void @",
                    safe,
                    "_deleting_dtor_stub(ptr %self) {\n  ret void\n}\n\n",
                );
            },
        }
    }
}

/// The entries of a virtual table for the given symbols.
pub open spec fn method_entries(v: Seq<Seq<char>>) -> Seq<Seq<char>> {
    Seq::new(v.len(), |i: int| "  ptr @"@ + v[i])
}

/// The entries of a virtual table: the destructor stub, where there is
/// one, and the stubs of the methods.
pub open spec fn table_entries(
    g: Seq<GroupView>,
    group: GroupView,
    safe: Seq<char>,
    has_vdtor: bool,
) -> Seq<Seq<char>> {
    (if has_vdtor {
        seq!["  ptr @"@ + safe + "_deleting_dtor_stub"@]
    } else {
        Seq::<Seq<char>>::empty()
    }) + method_entries(symbols(g, group.methods))
}

/// The flat virtual table of a class.
pub open spec fn flat_table(
    g: Seq<GroupView>,
    group: GroupView,
    safe: Seq<char>,
    has_vdtor: bool,
) -> Seq<char> {
    let slots = group.methods.len() + if has_vdtor {
        1nat
    } else {
        0nat
    };
    "; Concrete vtable for "@ + group.name + " (MSVC-style, used by alloc_"@ + safe
        + "_this)\n"@ + "@"@ + safe + "_vtable = global ["@ + dec(slots) + " x ptr] [\n"@
        + joined(table_entries(g, group, safe, has_vdtor), ",\n"@) + "\n]\n\n"@
}

fn put_flat_table(out: &mut String, g: &[ClassGroup], group: &ClassGroup, safe: &str, has_vdtor: bool)
    ensures
        final(out)@ == old(out)@ + flat_table(groups_view(g@), group@, safe@, has_vdtor),
{
    broadcast use {group_append, group_views};
    let ghost w = groups_view(g@);
    let ghost ms = group@.methods;
    let mut entries: Vec<String> = Vec::new();
    if has_vdtor {
        let mut s = String::new();
        put3(&mut s, "  ptr @", safe, "_deleting_dtor_stub");
        entries.push(s);
    }
    let ghost head = views(entries@);
    let ghost syms = symbols(w, ms);
    let mut i: usize = 0;
    assert(views(entries@) =~= head + method_entries(syms.take(0)));
    while i < group.methods.len()
        invariant
            w == groups_view(g@),
            ms == group@.methods,
            syms == symbols(w, ms),
            i <= group.methods@.len(),
            views(entries@) == head + method_entries(syms.take(i as int)),
        decreases group.methods@.len() - i,
    {
        let symbol = symbol_of(g, group.methods[i]);
        let mut s = String::new();
        put2(&mut s, "  ptr @", symbol.as_str());
        proof {
            assert(ms[i as int] == *group.methods@[i as int]);
            assert(s@ == "  ptr @"@ + syms[i as int]);
            assert(method_entries(syms.take(i + 1)) =~= method_entries(syms.take(i as int)).push(
                "  ptr @"@ + syms[i as int],
            ));
        }
        let ghost known = views(entries@);
        entries.push(s);
        assert(views(entries@) =~= known.push("  ptr @"@ + syms[i as int]));
        assert(views(entries@) =~= head + method_entries(syms.take(i + 1)));
        i += 1;
    }
    assert(syms.take(syms.len() as int) =~= syms);
    assert(views(entries@) =~= table_entries(w, group@, safe@, has_vdtor));
    let slots: u128 = if has_vdtor {
        group.methods.len() as u128 + 1
    } else {
        group.methods.len() as u128
    };
    put5(
        out,
        "; Concrete vtable for ",
        group.name.as_str(),
        " (MSVC-style, used by alloc_",
        safe,
        "_this)\n",
    );
    put3(out, "@", safe, "_vtable = global [");
    put_dec(out, slots);
    put(out, " x ptr] [\n");
    put_joined(out, &entries, ",\n");
    put(out, "\n]\n\n");
}

/// The slots of the methods in an Itanium virtual table.
pub open spec fn further_entries(v: Seq<Seq<char>>) -> Seq<char>
    decreases v.len(),
{
    if v.len() == 0 {
        nil()
    } else {
        further_entries(v.drop_last()) + (",\n  ptr @"@ + v.last())
    }
}

/// The Itanium virtual table of a class: it replaces the one that the
/// compiler emitted.
pub open spec fn itanium_table(
    g: Seq<GroupView>,
    group: GroupView,
    safe: Seq<char>,
    has_vdtor: bool,
) -> Seq<char> {
    let slots = 2 + group.methods.len() + if has_vdtor {
        2nat
    } else {
        0nat
    };
    let symbol = "_ZTV"@ + mangled_class(group.name);
    "; Itanium-ABI vtable override for "@ + group.name + " ("@ + symbol + ").\n"@
        + "; Replaces the compiler-emitted vtable when linked via `llvm-link --override`.\n"@
        + "@"@ + symbol + " = linkonce_odr unnamed_addr constant { ["@ + dec(slots)
        + " x ptr] } { ["@ + dec(slots) + " x ptr] [\n"@ + "  ptr null,\n"@ + "  ptr null"@ + only_if(
        has_vdtor,
        ",\n  ptr @"@ + safe + "_complete_dtor_stub,\n  ptr @"@ + safe + "_deleting_dtor_stub"@,
    ) + further_entries(symbols(g, group.methods)) + "\n] }, align 8\n\n"@
}

fn put_further_entry(out: &mut String, symbol: &str)
    ensures
        final(out)@ == old(out)@ + (",\n  ptr @"@ + symbol@),
{
    broadcast use {group_append, group_views};
    put2(out, ",\n  ptr @", symbol);
}

fn put_further_entries(out: &mut String, g: &[ClassGroup], group: &ClassGroup)
    ensures
        final(out)@ == old(out)@ + further_entries(symbols(groups_view(g@), group@.methods)),
{
    broadcast use lemma_append_nothing;

    let ghost ms = group@.methods;
    let ghost w = symbols(groups_view(g@), ms);
    let mut i: usize = 0;
    assert(further_entries(w.take(0)) =~= nil());
    while i < group.methods.len()
        invariant
            ms == group@.methods,
            w == symbols(groups_view(g@), ms),
            i <= group.methods@.len(),
            out@ == old(out)@ + further_entries(w.take(i as int)),
        decreases group.methods@.len() - i,
    {
        proof {
            assert(ms[i as int] == *group.methods@[i as int]);
            assert(w.take(i + 1).drop_last() =~= w.take(i as int));
            lemma_append_assoc(
                old(out)@,
                further_entries(w.take(i as int)),
                ",\n  ptr @"@ + w[i as int],
            );
        }
        let symbol = symbol_of(g, group.methods[i]);
        put_further_entry(out, symbol.as_str());
        i += 1;
    }
    assert(w.take(w.len() as int) =~= w);
}

fn emit_itanium_ztv(out: &mut String, g: &[ClassGroup], group: &ClassGroup, safe: &str, has_vdtor: bool)
    ensures
        final(out)@ == old(out)@ + itanium_table(groups_view(g@), group@, safe@, has_vdtor),
{
    broadcast use {group_append, group_views};
    let slots: u128 = if has_vdtor {
        group.methods.len() as u128 + 4
    } else {
        group.methods.len() as u128 + 2
    };
    let mangled = itanium_mangle_class_name(group.name.as_str());
    let mut sym = String::new();
    put2(&mut sym, "_ZTV", mangled.as_str());
    let symbol = sym.as_str();
    put5(out, "; Itanium-ABI vtable override for ", group.name.as_str(), " (", symbol, ").\n");
    put(out, "; Replaces the compiler-emitted vtable when linked via `llvm-link --override`.\n");
    put3(out, "@", symbol, " = linkonce_odr unnamed_addr constant { [");
    put_dec(out, slots);
    put(out, " x ptr] } { [");
    put_dec(out, slots);
    put(out, " x ptr] [\n");
    put(out, "  ptr null,\n");
    put(out, "  ptr null");
    if has_vdtor {
        put5(out, ",\n  ptr @", safe, "_complete_dtor_stub,\n  ptr @", safe, "_deleting_dtor_stub");
    }
    put_further_entries(out, g, group);
    put(out, "\n] }, align 8\n\n");
}

/// The stubs and the virtual tables of class `k`.
#[verifier::opaque]
pub open spec fn class_ir(
    g: Seq<GroupView>,
    k: int,
    vdtor: Seq<Seq<char>>,
    abi: TargetAbi,
) -> Seq<char> {
    let group = g[k];
    let safe = lower_id(group.name);
    let has_vdtor = vdtor.contains(group.name);
    "; ---- "@ + group.name + " vtable ----\n\n"@ + dtor_stubs(safe, has_vdtor, abi)
        + defs_text(group.name, class_defs(g, k, group.methods.len() as int))
        + flat_table(g, group, safe, has_vdtor) + only_if(
        abi == TargetAbi::Itanium,
        itanium_table(g, group, safe, has_vdtor),
    )
}

pub open spec fn classes_ir(
    g: Seq<GroupView>,
    k: int,
    vdtor: Seq<Seq<char>>,
    abi: TargetAbi,
) -> Seq<char>
    decreases k,
{
    if k <= 0 {
        nil()
    } else {
        classes_ir(g, k - 1, vdtor, abi) + class_ir(g, k - 1, vdtor, abi)
    }
}

/// The module of stubs and virtual tables.
pub open spec fn stubs_ir(
    g: Seq<GroupView>,
    vdtor: Seq<Seq<char>>,
    triple: Option<Seq<char>>,
) -> Seq<char> {
    let abi = abi_of(triple);
    "; Auto-generated vtable stubs for SAW verification\n"@
        + "; Load directly: m_stubs <- llvm_load_module \"vtable_stubs.ll\";\n"@
        + "; Or assemble:   llvm-as vtable_stubs.ll -o vtable_stubs.bc\n"@ + ";\n"@
        + "; SAW resolves indirect vtable calls through these:\n"@
        + ";   this->vptr -> vtable[slot] -> stub function -> havoc spec\n\n"@
        + datalayout_text(abi) + "\n"@ + "target triple = \""@ + triple_text(abi) + "\"\n\n"@
        + classes_ir(g, g.len() as int, vdtor, abi)
}

fn put_class_ir(
    out: &mut String,
    g: &[ClassGroup],
    k: usize,
    vdtor: &[String],
    abi: TargetAbi,
    noted: &mut Vec<String>,
)
    requires
        k < g@.len(),
        views(old(noted)@) == symbols_before(groups_view(g@), k as int),
    ensures
        final(out)@ == old(out)@ + class_ir(groups_view(g@), k as int, views(vdtor@), abi),
        views(final(noted)@) == symbols_before(groups_view(g@), k + 1),
{
    broadcast use {group_append, group_views};
    proof {
        reveal(class_ir);
    }
    let group = &g[k];
    let class_name = group.name.as_str();
    let safe_class = sanitize_lower(class_name);
    let safe = safe_class.as_str();
    let has_vdtor = slice_has(vdtor, class_name);
    put3(out, "; ---- ", class_name, " vtable ----\n\n");
    put_dtor_stubs(out, safe, has_vdtor, abi);
    put_stubs(out, g, k, noted);
    put_flat_table(out, g, group, safe, has_vdtor);
    if abi == TargetAbi::Itanium {
        emit_itanium_ztv(out, g, group, safe, has_vdtor);
    }
}

fn put_classes_ir(out: &mut String, g: &[ClassGroup], vdtor: &[String], abi: TargetAbi)
    ensures
        final(out)@ == old(out)@ + classes_ir(
            groups_view(g@),
            g@.len() as int,
            views(vdtor@),
            abi,
        ),
{
    broadcast use {lemma_append_nothing, lemma_views_empty};

    let ghost w = groups_view(g@);
    let ghost d = views(vdtor@);
    let mut noted: Vec<String> = Vec::new();
    let mut k: usize = 0;
    assert(classes_ir(w, 0, d, abi) =~= nil());
    while k < g.len()
        invariant
            w == groups_view(g@),
            d == views(vdtor@),
            k <= g@.len(),
            views(noted@) == symbols_before(w, k as int),
            out@ == old(out)@ + classes_ir(w, k as int, d, abi),
        decreases g@.len() - k,
    {
        proof {
            lemma_append_assoc(
                old(out)@,
                classes_ir(w, k as int, d, abi),
                class_ir(w, k as int, d, abi),
            );
        }
        put_class_ir(out, g, k, vdtor, abi, &mut noted);
        k += 1;
    }
}

/// The module of stubs and virtual tables: a stub for each symbol in a
/// slot, and for each class a flat virtual table, on Itanium targets also
/// one that replaces the compiler's.
pub fn generate_llvm_ir_stubs(
    by_class: &[ClassGroup],
    classes_with_vdtor: &[String],
    target_triple: Option<&str>,
) -> (r: String)
    ensures
        r@ == stubs_ir(
            groups_view(by_class@),
            views(classes_with_vdtor@),
            opt_view(target_triple),
        ),
{
    broadcast use {group_append, group_views};
    let abi = TargetAbi::from_triple(target_triple);
    let mut out = String::new();
    put(&mut out, "; Auto-generated vtable stubs for SAW verification\n");
    put(&mut out, "; Load directly: m_stubs <- llvm_load_module \"vtable_stubs.ll\";\n");
    put(&mut out, "; Or assemble:   llvm-as vtable_stubs.ll -o vtable_stubs.bc\n");
    put(&mut out, ";\n");
    put(&mut out, "; SAW resolves indirect vtable calls through these:\n");
    put(&mut out, ";   this->vptr -> vtable[slot] -> stub function -> havoc spec\n\n");
    put2(&mut out, abi.datalayout(), "\n");
    put3(&mut out, "target triple = \"", abi.triple(), "\"\n\n");
    put_classes_ir(&mut out, by_class, classes_with_vdtor, abi);
    out
}

/// The stubs defined for the first `k` classes.
pub open spec fn defs_before(g: Seq<GroupView>, k: int) -> Seq<(Seq<char>, InterfaceMethod)>
    decreases k,
{
    if k <= 0 {
        Seq::empty()
    } else {
        defs_before(g, k - 1) + class_defs(g, k - 1, g[k - 1].methods.len() as int)
    }
}

/// Is a stub of the given symbol defined?
pub open spec fn defines(defs: Seq<(Seq<char>, InterfaceMethod)>, symbol: Seq<char>) -> bool {
    exists|i: int| 0 <= i < defs.len() && (#[trigger] defs[i]).0 == symbol
}

/// No symbol is defined twice.
pub open spec fn defined_once(defs: Seq<(Seq<char>, InterfaceMethod)>) -> bool {
    forall|i: int, j: int|
        0 <= i < j < defs.len() ==> (#[trigger] defs[i]).0 != (#[trigger] defs[j]).0
}

/// The symbols are those of the defined stubs, and none is defined twice.
pub open spec fn matched(syms: Seq<Seq<char>>, defs: Seq<(Seq<char>, InterfaceMethod)>) -> bool {
    &&& forall|s: Seq<char>| #[trigger] syms.contains(s) <==> defines(defs, s)
    &&& defined_once(defs)
}

proof fn lemma_known_symbol(
    syms: Seq<Seq<char>>,
    defs: Seq<(Seq<char>, InterfaceMethod)>,
    sym: Seq<char>,
)
    requires
        matched(syms, defs),
        syms.contains(sym),
    ensures
        matched(syms.push(sym), defs),
{
    let now = syms.push(sym);
    assert forall|s: Seq<char>| #[trigger] now.contains(s) <==> defines(defs, s) by {
        if now.contains(s) {
            let i = choose|i: int| 0 <= i < now.len() && now[i] == s;
            if i < syms.len() {
                assert(syms[i] == s);
            }
            assert(syms.contains(s));
        }
        if defines(defs, s) {
            assert(syms.contains(s));
            let i = choose|i: int| 0 <= i < syms.len() && syms[i] == s;
            assert(now[i] == s);
        }
    }
}

proof fn lemma_new_symbol(
    syms: Seq<Seq<char>>,
    defs: Seq<(Seq<char>, InterfaceMethod)>,
    sym: Seq<char>,
    m: InterfaceMethod,
)
    requires
        matched(syms, defs),
        !syms.contains(sym),
    ensures
        matched(syms.push(sym), defs.push((sym, m))),
{
    let now = syms.push(sym);
    let more = defs.push((sym, m));
    assert(!defines(defs, sym));
    assert forall|s: Seq<char>| #[trigger] now.contains(s) <==> defines(more, s) by {
        if now.contains(s) {
            let i = choose|i: int| 0 <= i < now.len() && now[i] == s;
            if i < syms.len() {
                assert(syms[i] == s);
                assert(syms.contains(s));
                let j = choose|j: int| 0 <= j < defs.len() && (#[trigger] defs[j]).0 == s;
                assert(more[j].0 == s);
            } else {
                assert(more[defs.len() as int].0 == s);
            }
        }
        if defines(more, s) {
            let j = choose|j: int| 0 <= j < more.len() && (#[trigger] more[j]).0 == s;
            if j < defs.len() {
                assert(defs[j].0 == s);
                assert(defines(defs, s));
                assert(syms.contains(s));
                let i = choose|i: int| 0 <= i < syms.len() && syms[i] == s;
                assert(now[i] == s);
            } else {
                assert(now[syms.len() as int] == s);
            }
        }
    }
    assert forall|i: int, j: int| 0 <= i < j < more.len() implies (#[trigger] more[i]).0
        != (#[trigger] more[j]).0 by {
        assert(more[i] == defs[i]);
        if j < defs.len() {
            assert(more[j] == defs[j]);
        }
    }
}

proof fn lemma_class_defs(g: Seq<GroupView>, k: int, n: int)
    requires
        0 <= k < g.len(),
        0 <= n <= g[k].methods.len(),
        matched(symbols_before(g, k), defs_before(g, k)),
    ensures
        matched(
            symbols_before(g, k) + symbols(g, g[k].methods.take(n)),
            defs_before(g, k) + class_defs(g, k, n),
        ),
    decreases n,
{
    let ms = g[k].methods;
    let base = symbols_before(g, k);
    let old_defs = defs_before(g, k);
    if n == 0 {
        assert(old_defs + class_defs(g, k, 0) =~= old_defs);
        assert(base + symbols(g, ms.take(0)) =~= base);
    } else {
        lemma_class_defs(g, k, n - 1);
        let sym = stub_symbol(g, ms[n - 1]);
        let syms = base + symbols(g, ms.take(n - 1));
        let defs = old_defs + class_defs(g, k, n - 1);
        assert(base + symbols(g, ms.take(n)) =~= syms.push(sym));
        if syms.contains(sym) {
            lemma_known_symbol(syms, defs, sym);
        } else {
            lemma_new_symbol(syms, defs, sym, ms[n - 1]);
            assert(old_defs + class_defs(g, k, n) =~= defs.push((sym, ms[n - 1])));
        }
    }
}

/// Every symbol in a slot of a virtual table is defined in the module, and
/// no symbol is defined twice: the module assembles.
pub proof fn law_every_slot_is_defined_once(g: Seq<GroupView>, k: int)
    requires
        0 <= k <= g.len(),
    ensures
        matched(symbols_before(g, k), defs_before(g, k)),
    decreases k,
{
    if k > 0 {
        law_every_slot_is_defined_once(g, k - 1);
        let ms = g[k - 1].methods;
        lemma_class_defs(g, k - 1, ms.len() as int);
        assert(ms.take(ms.len() as int) =~= ms);
    }
}

} // verus!
