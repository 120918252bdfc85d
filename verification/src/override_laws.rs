//! What the interface overrides say of each method, of each class and of each
//! constructor, line by line.

use vstd::prelude::*;

use crate::class_groups::GroupView;
use crate::constraints::{
    AllocType, ClassConstructor, GlobalView, InterfaceMethod, ParamConstraint, SpecConstraint,
    TypeInfo, TypeView,
};
use crate::factory::{
    factory_globals, factory_globals_item, factory_params, factory_params_item, factory_text,
};
use crate::havoc_params::padding_bytes;
use crate::havoc_struct_laws::member_width;
use crate::llvm_laws::lemma_param_args;
use crate::llvm_setup::init_bits;
use crate::llvm_spec::{param_args, target_of};
use crate::names::{lower_id, sanitized, spec_key, stub_name};
use crate::overrides::{
    binding_names, bindings, bindings_block, bindings_item, class_bindings, class_helper,
    class_helpers, container_field, container_fields, container_slots, container_text, ctor_block,
    ctor_override, ctor_overrides, ctor_this, ctor_value, find_group, include_lines,
    include_lines_item, index_header, member_values, member_values_item, override_index,
    override_list, slot_count, zeros,
};
use crate::text::{
    at, dec, group_append, joined, lemma_append_assoc, lemma_append_nothing, lemma_nothing_append,
    nil, only_if, starts, views,
};
use crate::text_order::{
    group_order, in_order, lemma_in_order_ahead, lemma_in_order_behind, lemma_in_order_first,
    lemma_in_order_join, lemma_in_order_more, lemma_list_of_four, lemma_list_of_three,
    lemma_list_of_two, lemma_lists, lemma_none_in_order, lemma_one_in_order, lemma_self_in_order,
    lemma_six_in_order, placed,
};

verus! {

/// What stands before and behind the text of one item.
pub proof fn lemma_include_lines_splits(v: Seq<InterfaceMethod>, i: int) -> (r: (Seq<char>, Seq<char>))
    requires
        0 <= i < v.len(),
    ensures
        include_lines(v) == r.0 + include_lines_item(v[i]) + r.1,
    decreases v.len(),
{
    let last = include_lines_item(v.last());
    if i == v.len() - 1 {
        lemma_append_nothing(include_lines(v.drop_last()) + last);
        (include_lines(v.drop_last()), nil())
    } else {
        let r = lemma_include_lines_splits(v.drop_last(), i);
        lemma_append_assoc(r.0 + include_lines_item(v[i]), r.1, last);
        (r.0, r.1 + last)
    }
}

/// What stands before and behind the text of one item.
pub proof fn lemma_bindings_splits(v: Seq<InterfaceMethod>, i: int) -> (r: (Seq<char>, Seq<char>))
    requires
        0 <= i < v.len(),
    ensures
        bindings(v) == r.0 + bindings_item(v[i]) + r.1,
    decreases v.len(),
{
    let last = bindings_item(v.last());
    if i == v.len() - 1 {
        lemma_append_nothing(bindings(v.drop_last()) + last);
        (bindings(v.drop_last()), nil())
    } else {
        let r = lemma_bindings_splits(v.drop_last(), i);
        lemma_append_assoc(r.0 + bindings_item(v[i]), r.1, last);
        (r.0, r.1 + last)
    }
}

/// What stands before and behind the text of one item.
pub proof fn lemma_class_helpers_splits(v: Seq<GroupView>, vdtor: Seq<String>, i: int) -> (r: (Seq<char>, Seq<char>))
    requires
        0 <= i < v.len(),
    ensures
        class_helpers(v, vdtor) == r.0 + class_helper(v[i], views(vdtor)) + r.1,
    decreases v.len(),
{
    let last = class_helper(v.last(), views(vdtor));
    if i == v.len() - 1 {
        lemma_append_nothing(class_helpers(v.drop_last(), vdtor) + last);
        (class_helpers(v.drop_last(), vdtor), nil())
    } else {
        let r = lemma_class_helpers_splits(v.drop_last(), vdtor, i);
        lemma_append_assoc(r.0 + class_helper(v[i], views(vdtor)), r.1, last);
        (r.0, r.1 + last)
    }
}

/// What stands before and behind the text of one item.
pub proof fn lemma_ctor_overrides_splits(v: Seq<ClassConstructor>, groups: Seq<GroupView>, vdtor: Seq<Seq<char>>, i: int) -> (r: (Seq<char>, Seq<char>))
    requires
        0 <= i < v.len(),
    ensures
        ctor_overrides(v, groups, vdtor) == r.0 + ctor_override(v[i], groups, vdtor) + r.1,
    decreases v.len(),
{
    let last = ctor_override(v.last(), groups, vdtor);
    if i == v.len() - 1 {
        lemma_append_nothing(ctor_overrides(v.drop_last(), groups, vdtor) + last);
        (ctor_overrides(v.drop_last(), groups, vdtor), nil())
    } else {
        let r = lemma_ctor_overrides_splits(v.drop_last(), groups, vdtor, i);
        lemma_append_assoc(r.0 + ctor_override(v[i], groups, vdtor), r.1, last);
        (r.0, r.1 + last)
    }
}

/// What stands before and behind the text of one item.
pub proof fn lemma_member_values_splits(v: Seq<(String, TypeInfo, String)>, i: int) -> (r: (Seq<char>, Seq<char>))
    requires
        0 <= i < v.len(),
    ensures
        member_values(v) == r.0 + member_values_item(v[i]) + r.1,
    decreases v.len(),
{
    let last = member_values_item(v.last());
    if i == v.len() - 1 {
        lemma_append_nothing(member_values(v.drop_last()) + last);
        (member_values(v.drop_last()), nil())
    } else {
        let r = lemma_member_values_splits(v.drop_last(), i);
        lemma_append_assoc(r.0 + member_values_item(v[i]), r.1, last);
        (r.0, r.1 + last)
    }
}

/// What stands before and behind the text of one item.
pub proof fn lemma_factory_params_splits(v: Seq<ParamConstraint>, i: int) -> (r: (Seq<char>, Seq<char>))
    requires
        0 <= i < v.len(),
    ensures
        factory_params(v) == r.0 + factory_params_item(v[i]) + r.1,
    decreases v.len(),
{
    let last = factory_params_item(v.last());
    if i == v.len() - 1 {
        lemma_append_nothing(factory_params(v.drop_last()) + last);
        (factory_params(v.drop_last()), nil())
    } else {
        let r = lemma_factory_params_splits(v.drop_last(), i);
        lemma_append_assoc(r.0 + factory_params_item(v[i]), r.1, last);
        (r.0, r.1 + last)
    }
}

/// What stands before and behind the text of one item.
pub proof fn lemma_factory_globals_splits(v: Seq<GlobalView>, i: int) -> (r: (Seq<char>, Seq<char>))
    requires
        0 <= i < v.len(),
    ensures
        factory_globals(v) == r.0 + factory_globals_item(v[i]) + r.1,
    decreases v.len(),
{
    let last = factory_globals_item(v.last());
    if i == v.len() - 1 {
        lemma_append_nothing(factory_globals(v.drop_last()) + last);
        (factory_globals(v.drop_last()), nil())
    } else {
        let r = lemma_factory_globals_splits(v.drop_last(), i);
        lemma_append_assoc(r.0 + factory_globals_item(v[i]), r.1, last);
        (r.0, r.1 + last)
    }
}

/// What the parts of the index hold, the index holds in this order.
proof fn lemma_index_in_order(
    methods: Seq<InterfaceMethod>,
    groups: Seq<GroupView>,
    constructors: Seq<ClassConstructor>,
    vdtor: Seq<String>,
    v: Seq<Seq<char>>,
    w: Seq<Seq<char>>,
    u: Seq<Seq<char>>,
    x: Seq<Seq<char>>,
)
    requires
        in_order(include_lines(methods), v),
        in_order(bindings(methods), w),
        in_order(class_helpers(groups, vdtor), u),
        constructors.len() > 0 ==> in_order(
            ctor_overrides(constructors, groups, views(vdtor)),
            x,
        ),
        constructors.len() == 0 ==> x.len() == 0,
    ensures
        in_order(override_index(methods, groups, constructors, vdtor), v + w + u + x),
{
    let a = include_lines(methods);
    let b = bindings_block(methods);
    let c = class_helpers(groups, vdtor);
    let d = override_list(binding_names(methods));
    let e = only_if(constructors.len() > 0, ctor_block(constructors, groups, views(vdtor)));
    let head = index_header();
    assert(in_order(b, w)) by {
        broadcast use lemma_in_order_ahead;

    }
    if constructors.len() > 0 {
        assert(in_order(ctor_block(constructors, groups, views(vdtor)), x)) by {
            broadcast use lemma_in_order_ahead;

        }
    } else {
        lemma_none_in_order(e);
        assert(x =~= Seq::empty());
    }
    lemma_in_order_ahead(head, a, v);
    lemma_in_order_behind(head + a, "\n"@, v);
    lemma_in_order_join(head + a + "\n"@, v, b, w);
    lemma_in_order_join(head + a + "\n"@ + b, v + w, c, u);
    lemma_in_order_behind(head + a + "\n"@ + b + c, d, v + w + u);
    lemma_in_order_join(head + a + "\n"@ + b + c + d, v + w + u, e, x);
}

/// Every method that overrides no other has its specification read in, and
/// its stub bound to that specification.
pub proof fn law_method_is_bound_to_its_specification(
    methods: Seq<InterfaceMethod>,
    groups: Seq<GroupView>,
    constructors: Seq<ClassConstructor>,
    vdtor: Seq<String>,
    i: int,
)
    requires
        0 <= i < methods.len(),
        !methods[i].is_override,
    ensures
        ({
            let class = methods[i].class_name@;
            let name = methods[i].method.name@;
            let stub = stub_name(class, name);
            let safe = sanitized(stub);
            in_order(
                override_index(methods, groups, constructors, vdtor),
                seq![
                    "include \""@ + sanitized(class) + "_"@ + sanitized(name)
                        + "_havoc_spec.saw\";\n"@,
                    "ov_"@ + safe + " <- llvm_unsafe_assume_spec m \""@ + stub + "\" "@
                        + safe + "_havoc;\n"@,
                ],
            )
        }),
{
    let m = methods[i];
    let class = m.class_name@;
    let name = m.method.name@;
    let stub = stub_name(class, name);
    let safe = sanitized(stub);
    let none = Seq::<Seq<char>>::empty();
    let line = "include \""@ + sanitized(class) + "_"@ + sanitized(name) + "_havoc_spec.saw\";\n"@;
    let bound = "ov_"@ + safe + " <- llvm_unsafe_assume_spec m \""@ + stub + "\" "@ + safe + "_havoc;\n"@;
    assert(include_lines_item(m) == line) by {
        lemma_include_text(sanitized(class), sanitized(name));
    }
    lemma_self_in_order(line);
    let s = lemma_include_lines_splits(methods, i);
    lemma_in_order_more(s.0, line, s.1, seq![line]);
    lemma_binding_line(m);
    let t = lemma_bindings_splits(methods, i);
    lemma_in_order_more(t.0, bindings_item(m), t.1, seq![bound]);
    lemma_none_in_order(class_helpers(groups, vdtor));
    lemma_none_in_order(ctor_overrides(constructors, groups, views(vdtor)));
    lemma_index_in_order(methods, groups, constructors, vdtor, seq![line], seq![bound], none, none);
    lemma_list_of_two(line, bound);
    lemma_append_nothing(seq![line, bound]);
}

proof fn lemma_include_text(class: Seq<char>, name: Seq<char>)
    ensures
        "include \""@ + (class + "_"@ + name + "_havoc_spec.saw"@) + "\";\n"@
            == "include \""@ + class + "_"@ + name + "_havoc_spec.saw\";\n"@,
{
    broadcast use group_append;

    reveal_strlit("_havoc_spec.saw");
    reveal_strlit("\";\n");
    reveal_strlit("_havoc_spec.saw\";\n");
    assert("_havoc_spec.saw"@ + "\";\n"@ =~= "_havoc_spec.saw\";\n"@);
    let a = "include \""@ + class + "_"@ + name;
    assert(a + ("_havoc_spec.saw"@ + "\";\n"@) =~= "include \""@ + (class + "_"@ + name
        + "_havoc_spec.saw"@) + "\";\n"@);
}

/// The line that binds the stub of a method.
proof fn lemma_binding_line(m: InterfaceMethod)
    requires
        !m.is_override,
    ensures
        ({
            let stub = stub_name(m.class_name@, m.method.name@);
            let safe = sanitized(stub);
            in_order(
                bindings_item(m),
                seq!["ov_"@ + safe + " <- llvm_unsafe_assume_spec m \""@ + stub + "\" "@ + safe
                    + "_havoc;\n"@],
            )
        }),
{
    let stub = stub_name(m.class_name@, m.method.name@);
    let safe = sanitized(stub);
    let note = "// "@ + m.class_name@ + "::"@ + m.method.name@
        + " — havoc: any behavior consistent with type constraints\n"@;
    let line = "ov_"@ + safe + " <- llvm_unsafe_assume_spec m \""@ + stub + "\" "@ + safe + "_havoc;\n"@;
    lemma_self_in_order(line);
    lemma_in_order_ahead(note, line, seq![line]);
    let both = "// "@ + m.class_name@ + "::"@ + m.method.name@
        + " — havoc: any behavior consistent with type constraints\n"@ + "ov_"@ + safe
        + " <- llvm_unsafe_assume_spec m \""@ + stub + "\" "@ + safe + "_havoc;\n"@;
    assert(both == note + line) by {
        broadcast use group_append;

    }
    let rest = match m.method.mangled_name {
        Some(mangled) => (if m.is_pure {
            "// Pure virtual — no real symbol in bitcode.\n"@
        } else {
            "// Devirtualized direct calls hit the real symbol — no override.\n"@
        }) + "// To force havoc instead, uncomment:\n"@ + "// ov_"@ + sanitized(mangled@)
            + " <- llvm_unsafe_assume_spec m \""@ + mangled@ + "\" "@ + safe + "_havoc;\n"@,
        None => nil(),
    };
    lemma_in_order_behind(both, rest, seq![line]);
    lemma_in_order_behind(both + rest, "\n"@, seq![line]);
    assert(bindings_item(m) == both + rest + "\n"@);
}

/// The number of slots in the virtual table of a class: one for each method,
/// and one for a virtual destructor.
pub open spec fn table_slots(group: GroupView, vdtor: Seq<Seq<char>>) -> nat {
    group.methods.len() + if exists|k: int| 0 <= k < vdtor.len() && vdtor[k] == group.name {
        1nat
    } else {
        0nat
    }
}

/// For every class the index has a function that makes an object: a read-only
/// table of as many slots as the class has holds what the module says of its
/// stub table, and the object points to that table.
pub proof fn law_object_points_to_stub_table(
    methods: Seq<InterfaceMethod>,
    groups: Seq<GroupView>,
    constructors: Seq<ClassConstructor>,
    vdtor: Seq<String>,
    i: int,
)
    requires
        0 <= i < groups.len(),
    ensures
        ({
            let safe = lower_id(groups[i].name);
            in_order(
                override_index(methods, groups, constructors, vdtor),
                seq![
                    "\nlet alloc_"@ + safe + "_this : LLVMSetup SetupValue = do {\n"@,
                    "    let vtable_ty = llvm_array "@
                        + dec(table_slots(groups[i], views(vdtor))) + " (llvm_int 64);\n"@,
                    "    vtable_ptr <- llvm_alloc_readonly_aligned 8 vtable_ty;\n"@
                        + "\n    // Point vtable slots to the global stub vtable\n"@
                        + "    llvm_points_to_at_type vtable_ptr vtable_ty\n"@
                        + "        (llvm_global_initializer \""@ + safe + "_vtable\");\n"@,
                    "    this_ptr <- llvm_alloc (llvm_int 64);\n"@,
                    "    llvm_points_to this_ptr vtable_ptr;\n"@,
                    "\n    return this_ptr;\n"@,
                ],
            )
        }),
{
    let none = Seq::<Seq<char>>::empty();
    let lines = lemma_helper_lines(groups[i], views(vdtor));
    let s = lemma_class_helpers_splits(groups, vdtor, i);
    lemma_in_order_more(s.0, class_helper(groups[i], views(vdtor)), s.1, lines);
    lemma_none_in_order(include_lines(methods));
    lemma_none_in_order(bindings(methods));
    lemma_none_in_order(ctor_overrides(constructors, groups, views(vdtor)));
    lemma_index_in_order(methods, groups, constructors, vdtor, none, none, lines, none);
    assert(none + none + lines + none =~= lines);
}

/// The lines of the function that makes an object.
proof fn lemma_helper_lines(group: GroupView, vdtor: Seq<Seq<char>>) -> (r: Seq<Seq<char>>)
    ensures
        in_order(class_helper(group, vdtor), r),
        r == ({
            let safe = lower_id(group.name);
            seq![
                "\nlet alloc_"@ + safe + "_this : LLVMSetup SetupValue = do {\n"@,
                "    let vtable_ty = llvm_array "@ + dec(table_slots(group, vdtor))
                    + " (llvm_int 64);\n"@,
                "    vtable_ptr <- llvm_alloc_readonly_aligned 8 vtable_ty;\n"@
                    + "\n    // Point vtable slots to the global stub vtable\n"@
                    + "    llvm_points_to_at_type vtable_ptr vtable_ty\n"@
                    + "        (llvm_global_initializer \""@ + safe + "_vtable\");\n"@,
                "    this_ptr <- llvm_alloc (llvm_int 64);\n"@,
                "    llvm_points_to this_ptr vtable_ptr;\n"@,
                "\n    return this_ptr;\n"@,
            ]
        }),
{
    let safe = lower_id(group.name);
    let slots = slot_count(group, vdtor);
    assert(slots == table_slots(group, vdtor));
    let head = "// ===========================================================\n"@ + "// "@
        + group.name + ": vtable setup helper\n"@
        + "// ===========================================================\n"@ + "//\n"@
        + "// Allocates a `this` pointer (8 bytes for vptr) with the vtable\n"@
        + "// pointer wired to "@ + safe + "_vtable. SAW resolves:\n"@
        + "//   this -> vptr -> "@ + safe + "_vtable[slot] -> stub -> havoc spec\n"@ + "//\n"@
        + "// Use in your spec like:\n"@ + "//   this_ptr <- alloc_"@ + safe + "_this;\n"@ + only_if(
        group.methods.len() > 0,
        "//   llvm_verify m \"target\" ["@ + joined(class_bindings(group.methods), ", "@)
            + "] false spec z3;\n"@,
    );
    let p1 = "\nlet alloc_"@ + safe + "_this : LLVMSetup SetupValue = do {\n"@;
    let a1 = "    // Allocate the vtable: "@ + dec(slots) + " function pointers\n"@;
    let p2 = "    let vtable_ty = llvm_array "@ + dec(slots) + " (llvm_int 64);\n"@;
    let p3 = "    vtable_ptr <- llvm_alloc_readonly_aligned 8 vtable_ty;\n"@
        + "\n    // Point vtable slots to the global stub vtable\n"@
        + "    llvm_points_to_at_type vtable_ptr vtable_ty\n"@
        + "        (llvm_global_initializer \""@ + safe + "_vtable\");\n"@;
    let a3 = "\n    // Allocate `this`: first 8 bytes = vptr -> vtable\n"@;
    let p4 = "    this_ptr <- llvm_alloc (llvm_int 64);\n"@;
    let p5 = "    llvm_points_to this_ptr vtable_ptr;\n"@;
    let p6 = "\n    return this_ptr;\n"@;
    lemma_six_in_order(
        head,
        p1,
        a1,
        p2,
        nil(),
        p3,
        a3,
        p4,
        nil(),
        p5,
        nil(),
        p6,
        "};\n\n"@,
    );
    let whole = "\n"@ + "let alloc_"@ + safe + "_this : LLVMSetup SetupValue = do {\n"@
        + "    // Allocate the vtable: "@ + dec(slots) + " function pointers\n"@
        + "    let vtable_ty = llvm_array "@ + dec(slots) + " (llvm_int 64);\n"@
        + "    vtable_ptr <- llvm_alloc_readonly_aligned 8 vtable_ty;\n"@
        + "\n    // Point vtable slots to the global stub vtable\n"@
        + "    llvm_points_to_at_type vtable_ptr vtable_ty\n"@
        + "        (llvm_global_initializer \""@ + safe + "_vtable\");\n"@
        + "\n    // Allocate `this`: first 8 bytes = vptr -> vtable\n"@
        + "    this_ptr <- llvm_alloc (llvm_int 64);\n"@
        + "    llvm_points_to this_ptr vtable_ptr;\n"@ + "\n    return this_ptr;\n"@ + "};\n\n"@;
    assert(class_helper(group, vdtor) == head + whole) by {
        broadcast use group_append;

    }
    lemma_helper_text(safe, slots);
    lemma_row(head, p1, a1, p2, p3, a3, p4, p5, p6, "};\n\n"@);
    seq![p1, p2, p3, p4, p5, p6]
}

proof fn lemma_row(
    head: Seq<char>,
    p1: Seq<char>,
    a1: Seq<char>,
    p2: Seq<char>,
    p3: Seq<char>,
    a3: Seq<char>,
    p4: Seq<char>,
    p5: Seq<char>,
    p6: Seq<char>,
    end: Seq<char>,
)
    ensures
        head + p1 + a1 + p2 + nil() + p3 + a3 + p4 + nil() + p5 + nil() + p6 + end == head + (p1 + a1
            + p2 + p3 + a3 + p4 + p5 + p6 + end),
{
    broadcast use group_append;

}

/// The text of the function that makes an object, in its parts.
proof fn lemma_helper_text(safe: Seq<char>, slots: nat)
    ensures
        "\n"@ + "let alloc_"@ + safe + "_this : LLVMSetup SetupValue = do {\n"@
            + "    // Allocate the vtable: "@ + dec(slots) + " function pointers\n"@
            + "    let vtable_ty = llvm_array "@ + dec(slots) + " (llvm_int 64);\n"@
            + "    vtable_ptr <- llvm_alloc_readonly_aligned 8 vtable_ty;\n"@
            + "\n    // Point vtable slots to the global stub vtable\n"@
            + "    llvm_points_to_at_type vtable_ptr vtable_ty\n"@
            + "        (llvm_global_initializer \""@ + safe + "_vtable\");\n"@
            + "\n    // Allocate `this`: first 8 bytes = vptr -> vtable\n"@
            + "    this_ptr <- llvm_alloc (llvm_int 64);\n"@
            + "    llvm_points_to this_ptr vtable_ptr;\n"@ + "\n    return this_ptr;\n"@
            + "};\n\n"@ == ("\nlet alloc_"@ + safe + "_this : LLVMSetup SetupValue = do {\n"@) + ("    // Allocate the vtable: "@ + dec(slots) + " function pointers\n"@)
            + ("    let vtable_ty = llvm_array "@ + dec(slots) + " (llvm_int 64);\n"@) + ("    vtable_ptr <- llvm_alloc_readonly_aligned 8 vtable_ty;\n"@
                + "\n    // Point vtable slots to the global stub vtable\n"@
                + "    llvm_points_to_at_type vtable_ptr vtable_ty\n"@
                + "        (llvm_global_initializer \""@ + safe + "_vtable\");\n"@)
            + "\n    // Allocate `this`: first 8 bytes = vptr -> vtable\n"@
            + "    this_ptr <- llvm_alloc (llvm_int 64);\n"@ + "    llvm_points_to this_ptr vtable_ptr;\n"@
            + "\n    return this_ptr;\n"@ + "};\n\n"@,
{
    broadcast use group_append;

    reveal_strlit("\n");
    reveal_strlit("let alloc_");
    reveal_strlit("\nlet alloc_");
    assert("\n"@ + "let alloc_"@ =~= "\nlet alloc_"@);
}

/// The first class of a name.
proof fn lemma_find_group(g: Seq<GroupView>, name: Seq<char>, i: int, j: int)
    requires
        0 <= i <= j < g.len(),
        g[j].name == name,
        forall|k: int| 0 <= k < j ==> (#[trigger] g[k]).name != name,
    ensures
        find_group(g, name, i) == Some(j),
    decreases j - i,
{
    if i < j {
        lemma_find_group(g, name, i + 1, j);
    }
}

/// The parts of the override of a constructor.
proof fn lemma_ctor_in_order(
    ctor: ClassConstructor,
    groups: Seq<GroupView>,
    vdtor: Seq<Seq<char>>,
    j: int,
    v: Seq<Seq<char>>,
    w: Seq<Seq<char>>,
)
    requires
        0 <= j < groups.len(),
        groups[j].name == ctor.class_name@,
        forall|k: int| 0 <= k < j ==> (#[trigger] groups[k]).name != ctor.class_name@,
        in_order(ctor_this(&ctor), v),
        in_order(ctor_value(&ctor), w),
    ensures
        ({
            let safe = lower_id(ctor.class_name@);
            in_order(
                ctor_override(ctor, groups, vdtor),
                v + seq![
                    "\n    llvm_execute_func [this_ptr];\n"@,
                    "    let vtable_ty = llvm_array "@ + dec(table_slots(groups[j], vdtor))
                        + " (llvm_int 64);\n"@
                        + "    vtable_ptr <- llvm_alloc_readonly_aligned 8 vtable_ty;\n"@
                        + "    llvm_points_to_at_type vtable_ptr vtable_ty\n"@
                        + "        (llvm_global_initializer \""@ + safe + "_vtable\");\n"@,
                ] + w + seq![
                    if starts(ctor.mangled_name@, "_Z"@) {
                        "};\n"@ + "ov_"@ + safe + "_ctor <- llvm_unsafe_assume_spec m \""@
                            + ctor.mangled_name@ + "\" "@ + safe + "_ctor_override;\n\n"@
                    } else {
                        "    llvm_return this_ptr;\n"@ + ("};\n"@ + "ov_"@ + safe + "_ctor <- llvm_unsafe_assume_spec m \""@
                            + ctor.mangled_name@ + "\" "@ + safe + "_ctor_override;\n\n"@)
                    },
                ],
            )
        }),
{
    let safe = lower_id(ctor.class_name@);
    lemma_find_group(groups, ctor.class_name@, 0, j);
    let slots = slot_count(groups[j], vdtor);
    assert(slots == table_slots(groups[j], vdtor));
    let head = "// Constructor override for "@ + ctor.class_name@ + ": wires vptr to "@ + safe
        + "_vtable\n"@ + "let "@ + safe + "_ctor_override : LLVMSetup () = do {\n"@;
    let a = ctor_this(&ctor);
    let call = "\n    llvm_execute_func [this_ptr];\n"@;
    let note = "\n    // Postcondition: allocate stub vtable and wire vptr\n"@;
    let table = "    let vtable_ty = llvm_array "@ + dec(slots) + " (llvm_int 64);\n"@
        + "    vtable_ptr <- llvm_alloc_readonly_aligned 8 vtable_ty;\n"@
        + "    llvm_points_to_at_type vtable_ptr vtable_ty\n"@
        + "        (llvm_global_initializer \""@ + safe + "_vtable\");\n"@;
    let b = ctor_value(&ctor);
    let bound = "};\n"@ + "ov_"@ + safe + "_ctor <- llvm_unsafe_assume_spec m \""@ + ctor.mangled_name@
        + "\" "@ + safe + "_ctor_override;\n\n"@;
    let end = if starts(ctor.mangled_name@, "_Z"@) {
        bound
    } else {
        "    llvm_return this_ptr;\n"@ + bound
    };
    assert(ctor_override(ctor, groups, vdtor) == head + a + call + note + table + b + end) by {
        broadcast use group_append;

    }
    lemma_self_in_order(call);
    lemma_self_in_order(table);
    lemma_self_in_order(end);
    lemma_in_order_ahead(head, a, v);
    lemma_in_order_join(head + a, v, call, seq![call]);
    lemma_in_order_behind(head + a + call, note, v + seq![call]);
    lemma_in_order_join(head + a + call + note, v + seq![call], table, seq![table]);
    lemma_lists(v, call, table, table);
    lemma_in_order_join(head + a + call + note + table, v + seq![call, table], b, w);
    lemma_in_order_join(
        head + a + call + note + table + b,
        v + seq![call, table] + w,
        end,
        seq![end],
    );
}

/// The constructor of a class with virtual methods is overridden: after the
/// call the object points to the stub table of its class, which has as many
/// slots as the class. In the MSVC mangling the constructor returns the
/// object.
#[verifier::rlimit(60)]
pub proof fn law_constructor_wires_stub_table(
    methods: Seq<InterfaceMethod>,
    groups: Seq<GroupView>,
    constructors: Seq<ClassConstructor>,
    vdtor: Seq<String>,
    i: int,
    j: int,
)
    requires
        0 <= i < constructors.len(),
        0 <= j < groups.len(),
        groups[j].name == constructors[i].class_name@,
        forall|k: int| 0 <= k < j ==> (#[trigger] groups[k]).name != constructors[i].class_name@,
    ensures
        ({
            let ctor = constructors[i];
            let safe = lower_id(ctor.class_name@);
            in_order(
                override_index(methods, groups, constructors, vdtor),
                seq![
                    "\n    llvm_execute_func [this_ptr];\n"@,
                    "    let vtable_ty = llvm_array "@
                        + dec(table_slots(groups[j], views(vdtor))) + " (llvm_int 64);\n"@
                        + "    vtable_ptr <- llvm_alloc_readonly_aligned 8 vtable_ty;\n"@
                        + "    llvm_points_to_at_type vtable_ptr vtable_ty\n"@
                        + "        (llvm_global_initializer \""@ + safe + "_vtable\");\n"@,
                    if ctor.layout_fields@.len() > 0 {
                        "    llvm_points_to this_ptr (llvm_packed_struct_value\n"@
                            + "        [ vtable_ptr\n"@
                    } else {
                        "    llvm_points_to this_ptr vtable_ptr;\n"@
                    },
                    if starts(ctor.mangled_name@, "_Z"@) {
                        "};\n"@ + "ov_"@ + safe + "_ctor <- llvm_unsafe_assume_spec m \""@
                            + ctor.mangled_name@ + "\" "@ + safe + "_ctor_override;\n\n"@
                    } else {
                        "    llvm_return this_ptr;\n"@ + ("};\n"@ + "ov_"@ + safe + "_ctor <- llvm_unsafe_assume_spec m \""@
                            + ctor.mangled_name@ + "\" "@ + safe + "_ctor_override;\n\n"@)
                    },
                ],
            )
        }),
{
    let ctor = constructors[i];
    let safe = lower_id(ctor.class_name@);
    let none = Seq::<Seq<char>>::empty();
    let call = "\n    llvm_execute_func [this_ptr];\n"@;
    let table = "    let vtable_ty = llvm_array "@ + dec(table_slots(groups[j], views(vdtor)))
        + " (llvm_int 64);\n"@ + "    vtable_ptr <- llvm_alloc_readonly_aligned 8 vtable_ty;\n"@
        + "    llvm_points_to_at_type vtable_ptr vtable_ty\n"@
        + "        (llvm_global_initializer \""@ + safe + "_vtable\");\n"@;
    let end = if starts(ctor.mangled_name@, "_Z"@) {
        "};\n"@ + "ov_"@ + safe + "_ctor <- llvm_unsafe_assume_spec m \""@
            + ctor.mangled_name@ + "\" "@ + safe + "_ctor_override;\n\n"@
    } else {
        "    llvm_return this_ptr;\n"@ + ("};\n"@ + "ov_"@ + safe + "_ctor <- llvm_unsafe_assume_spec m \""@
            + ctor.mangled_name@ + "\" "@ + safe + "_ctor_override;\n\n"@)
    };
    let first = lemma_ctor_value_start(&ctor);
    lemma_none_in_order(ctor_this(&ctor));
    lemma_ctor_in_order(ctor, groups, views(vdtor), j, none, seq![first]);
    lemma_nothing_append(seq![call, table]);
    lemma_list_of_three(call, table, first);
    lemma_list_of_four(call, table, first, end);
    lemma_ctor_in_index(methods, groups, constructors, vdtor, i, seq![call, table, first, end]);
}

/// Where the data members are known, each holds its initial value after the
/// call: the given literal, or zero, in as many bits as the member has.
pub proof fn law_constructor_sets_members(
    methods: Seq<InterfaceMethod>,
    groups: Seq<GroupView>,
    constructors: Seq<ClassConstructor>,
    vdtor: Seq<String>,
    i: int,
    j: int,
    k: int,
)
    requires
        0 <= i < constructors.len(),
        0 <= j < groups.len(),
        groups[j].name == constructors[i].class_name@,
        forall|k: int| 0 <= k < j ==> (#[trigger] groups[k]).name != constructors[i].class_name@,
        0 <= k < constructors[i].layout_fields@.len(),
    ensures
        ({
            let f = constructors[i].layout_fields@[k];
            let lit = if f.2@.len() == 0 {
                "0"@
            } else {
                f.2@
            };
            in_order(
                override_index(methods, groups, constructors, vdtor),
                seq![
                    "\n    llvm_execute_func [this_ptr];\n"@,
                    "        , llvm_term {{ "@ + lit + " : ["@ + dec(member_width(f.1))
                        + "] }}  // "@ + f.0@ + "\n"@,
                ],
            )
        }),
{
    let ctor = constructors[i];
    let none = Seq::<Seq<char>>::empty();
    let call = "\n    llvm_execute_func [this_ptr];\n"@;
    let safe = lower_id(ctor.class_name@);
    let text = ctor_override(ctor, groups, views(vdtor));
    let table = "    let vtable_ty = llvm_array "@ + dec(table_slots(groups[j], views(vdtor)))
        + " (llvm_int 64);\n"@ + "    vtable_ptr <- llvm_alloc_readonly_aligned 8 vtable_ty;\n"@
        + "    llvm_points_to_at_type vtable_ptr vtable_ty\n"@
        + "        (llvm_global_initializer \""@ + safe + "_vtable\");\n"@;
    let end = if starts(ctor.mangled_name@, "_Z"@) {
        "};\n"@ + "ov_"@ + safe + "_ctor <- llvm_unsafe_assume_spec m \""@
            + ctor.mangled_name@ + "\" "@ + safe + "_ctor_override;\n\n"@
    } else {
        "    llvm_return this_ptr;\n"@ + ("};\n"@ + "ov_"@ + safe + "_ctor <- llvm_unsafe_assume_spec m \""@
            + ctor.mangled_name@ + "\" "@ + safe + "_ctor_override;\n\n"@)
    };
    let item = member_values_item(ctor.layout_fields@[k]);
    lemma_self_in_order(item);
    let s = lemma_member_values_splits(ctor.layout_fields@, k);
    lemma_in_order_more(s.0, item, s.1, seq![item]);
    lemma_values_in_ctor(&ctor, seq![item]);
    lemma_none_in_order(ctor_this(&ctor));
    lemma_ctor_in_order(ctor, groups, views(vdtor), j, none, seq![item]);
    lemma_nothing_append(seq![call, table]);
    lemma_list_of_three(call, table, item);
    lemma_in_order_first(text, seq![call, table, item], seq![end]);
    lemma_in_order_without(text, call, table, item);
    lemma_ctor_in_index(methods, groups, constructors, vdtor, i, seq![call, item]);
}

proof fn lemma_in_order_without(s: Seq<char>, a: Seq<char>, b: Seq<char>, c: Seq<char>)
    requires
        in_order(s, seq![a, b, c]),
    ensures
        in_order(s, seq![a, c]),
{
    reveal(in_order);
    let v = seq![a, b, c];
    let places = choose|places: Seq<int>| placed(s, v, places);
    let w = seq![a, c];
    let q = seq![places[0], places[2]];
    assert(at(s, v[0], places[0]) && at(s, v[2], places[2]));
    assert(places[0] + v[0].len() <= places[2]);
    assert(placed(s, w, q));
}

proof fn lemma_ctor_in_index(
    methods: Seq<InterfaceMethod>,
    groups: Seq<GroupView>,
    constructors: Seq<ClassConstructor>,
    vdtor: Seq<String>,
    i: int,
    v: Seq<Seq<char>>,
)
    requires
        0 <= i < constructors.len(),
        in_order(ctor_override(constructors[i], groups, views(vdtor)), v),
    ensures
        in_order(override_index(methods, groups, constructors, vdtor), v),
{
    let none = Seq::<Seq<char>>::empty();
    let s = lemma_ctor_overrides_splits(constructors, groups, views(vdtor), i);
    lemma_in_order_more(s.0, ctor_override(constructors[i], groups, views(vdtor)), s.1, v);
    lemma_none_in_order(include_lines(methods));
    lemma_none_in_order(bindings(methods));
    lemma_none_in_order(class_helpers(groups, vdtor));
    lemma_index_in_order(methods, groups, constructors, vdtor, none, none, none, v);
    assert(none + none + none + v =~= v);
}

proof fn lemma_values_in_ctor(ctor: &ClassConstructor, v: Seq<Seq<char>>)
    requires
        ctor.layout_fields@.len() > 0,
        in_order(member_values(ctor.layout_fields@), v),
    ensures
        in_order(ctor_value(ctor), v),
{
    broadcast use group_order;

}

/// How the value of the object starts.
proof fn lemma_ctor_value_start(ctor: &ClassConstructor) -> (r: Seq<char>)
    ensures
        in_order(ctor_value(ctor), seq![r]),
        r == if ctor.layout_fields@.len() > 0 {
            "    llvm_points_to this_ptr (llvm_packed_struct_value\n"@
                + "        [ vtable_ptr\n"@
        } else {
            "    llvm_points_to this_ptr vtable_ptr;\n"@
        },
{
    let fields = ctor.layout_fields@;
    let pad = padding_bytes(fields);
    if fields.len() > 0 {
        let note = "    // Initialize vptr + all data members\n"@;
        let r = "    llvm_points_to this_ptr (llvm_packed_struct_value\n"@ + "        [ vtable_ptr\n"@;
        let values = member_values(fields);
        let padding = only_if(
            pad > 0,
            "        , llvm_term {{ ["@ + joined(zeros(pad), ", "@) + "] : ["@ + dec(pad)
                + "][8] }}  // padding\n"@,
        );
        assert(ctor_value(ctor) == note + r + values + padding + "        ]);\n"@) by {
            broadcast use group_append;

        }
        lemma_one_in_order(note, r, values);
        lemma_in_order_behind(note + r + values, padding, seq![r]);
        lemma_in_order_behind(note + r + values + padding, "        ]);\n"@, seq![r]);
        r
    } else {
        let r = "    llvm_points_to this_ptr vtable_ptr;\n"@;
        lemma_self_in_order(r);
        r
    }
}

/// The setup of one field of an object that holds interface pointers stands
/// in the setup of the fields.
proof fn lemma_container_fields_splits(
    param: Seq<char>,
    kinds: Seq<(Seq<char>, Option<Seq<char>>)>,
    i: int,
) -> (r: (Seq<char>, Seq<char>))
    requires
        0 <= i < kinds.len(),
    ensures
        container_fields(param, kinds) == r.0 + container_field(param, kinds[i], i as nat) + r.1,
    decreases kinds.len(),
{
    let rest = container_fields(param, kinds.drop_last());
    let last = container_field(param, kinds.last(), (kinds.len() - 1) as nat);
    if i == kinds.len() - 1 {
        lemma_append_nothing(rest + last);
        (rest, nil())
    } else {
        let r = lemma_container_fields_splits(param, kinds.drop_last(), i);
        lemma_append_assoc(r.0 + container_field(param, kinds[i], i as nat), r.1, last);
        (r.0, r.1 + last)
    }
}

/// An object that holds interface pointers has one slot for each field. A
/// field that points to an interface is made by the function of that class,
/// any other is memory of its own; the object is allocated with that many
/// slots and holds the fields in their order.
pub proof fn law_container_holds_every_field(
    param: Seq<char>,
    kinds: Seq<(Seq<char>, Option<Seq<char>>)>,
    i: int,
)
    requires
        0 <= i < kinds.len(),
    ensures
        container_slots(param, kinds.len()).len() == kinds.len(),
        container_slots(param, kinds.len())[i] == param + "_f"@ + dec(i as nat),
        in_order(
            container_text(param, kinds),
            seq![
                if kinds[i].1 is Some {
                    "    "@ + param + "_f"@ + dec(i as nat) + " <- alloc_"@
                        + lower_id(kinds[i].1->0) + "_this;  // "@
                } else {
                    "    "@ + param + "_f"@ + dec(i as nat)
                        + " <- llvm_alloc (llvm_int 64);  // "@
                },
                "    "@ + param + "_ptr <- llvm_alloc (llvm_array "@ + dec(kinds.len())
                    + " (llvm_int 64));\n"@,
                "    llvm_points_to "@ + param + "_ptr (llvm_packed_struct_value ["@
                    + joined(container_slots(param, kinds.len()), ", "@) + "]);\n"@,
            ],
        ),
{
    let n = i as nat;
    let head = "    // "@ + param + ": container class with interface fields — wire each vptr.\n"@;
    let fields = container_fields(param, kinds);
    let slots = joined(container_slots(param, kinds.len()), ", "@);
    let alloc = "    "@ + param + "_ptr <- llvm_alloc (llvm_array "@ + dec(kinds.len())
        + " (llvm_int 64));\n"@;
    let points = "    llvm_points_to "@ + param + "_ptr (llvm_packed_struct_value ["@ + slots + "]);\n"@;
    let start = match kinds[i].1 {
        Some(iface) => "    "@ + param + "_f"@ + dec(n) + " <- alloc_"@ + lower_id(iface) + "_this;  // "@,
        None => "    "@ + param + "_f"@ + dec(n) + " <- llvm_alloc (llvm_int 64);  // "@,
    };
    lemma_self_in_order(start);
    assert(in_order(container_field(param, kinds[i], n), seq![start])) by {
        broadcast use lemma_in_order_behind;

    }
    let s = lemma_container_fields_splits(param, kinds, i);
    lemma_in_order_more(s.0, container_field(param, kinds[i], n), s.1, seq![start]);
    assert(container_text(param, kinds) == head + fields + alloc + points) by {
        broadcast use group_append;

    }
    lemma_self_in_order(alloc);
    lemma_self_in_order(points);
    lemma_in_order_ahead(head, fields, seq![start]);
    lemma_in_order_join(head + fields, seq![start], alloc, seq![alloc]);
    lemma_in_order_join(head + fields + alloc, seq![start] + seq![alloc], points, seq![points]);
    lemma_list_of_two(start, alloc);
    lemma_list_of_three(start, alloc, points);
}

/// The override of a function that creates an object takes any arguments, may
/// write every global variable, and returns an object that the function of
/// the interface class makes.
#[verifier::rlimit(60)]
pub proof fn law_factory_returns_wired_object(
    spec: &SpecConstraint,
    interface_class: Seq<char>,
    globals: Seq<GlobalView>,
)
    ensures
        ({
            let iface = lower_id(interface_class);
            let id = sanitized(spec_key(spec));
            let args = Seq::new(
                spec.params@.len(),
                |i: int|
                    if spec.params@[i].alloc_type is FreshVar {
                        "llvm_term "@ + spec.params@[i].name@
                    } else {
                        spec.params@[i].name@ + "_ptr"@
                    },
            );
            let target = match spec.mangled_name {
                Some(m) => m@,
                None => spec.function_name@,
            };
            in_order(
                factory_text(spec, interface_class, globals),
                seq![
                    "\n    llvm_execute_func ["@ + joined(args, ", "@) + "];\n\n"@,
                    "    this_pointer <- alloc_"@ + iface + "_this;\n"@,
                    "    llvm_return this_pointer;\n"@,
                    "ov_"@ + id + " <- llvm_unsafe_assume_spec m \""@ + target + "\" "@ + id
                        + "_factory;\n"@,
                ],
            )
        }),
        forall|i: int|
            0 <= i < globals.len() ==> {
                let g = #[trigger] globals[i];
                let safe = sanitized(g.name);
                let bits: nat = match g.ty {
                    TypeView::SignedInt(b) => b as nat,
                    TypeView::UnsignedInt(b) => b as nat,
                    TypeView::Bool => 1,
                    _ => 32,
                };
                in_order(
                    factory_text(spec, interface_class, globals),
                    seq![
                        "\n    llvm_execute_func ["@
                            + joined(param_args(spec.params@), ", "@) + "];\n\n"@,
                        "    "@ + safe + "_post <- llvm_fresh_var \""@ + safe
                            + "_post\" (llvm_int "@ + dec(bits) + ");\n"@,
                        "    llvm_points_to (llvm_global \""@ + g.mangled_name
                            + "\") (llvm_term "@ + safe + "_post);\n"@,
                    ],
                )
            },
        forall|i: int|
            0 <= i < spec.params@.len() ==> {
                let p = #[trigger] spec.params@[i];
                in_order(
                    factory_text(spec, interface_class, globals),
                    seq![
                        match p.alloc_type {
                            AllocType::FreshVar => "    "@ + p.name@ + " <- llvm_fresh_var \""@ + p.name@ + "\" ("@
                                + p.saw_type@ + ");\n"@,
                            AllocType::AllocReadonly => "    "@ + p.name@ + "_ptr <- llvm_alloc_readonly ("@
                                + p.saw_type@ + ");\n"@,
                            AllocType::AllocMutable => "    "@ + p.name@ + "_ptr <- llvm_alloc ("@ + p.saw_type@ + ");\n"@,
                        },
                        "\n    llvm_execute_func ["@
                            + joined(param_args(spec.params@), ", "@) + "];\n\n"@,
                    ],
                )
            },
{
    let iface = lower_id(interface_class);
    let id = sanitized(spec_key(spec));
    let none = Seq::<Seq<char>>::empty();
    let text = factory_text(spec, interface_class, globals);
    let call = "\n    llvm_execute_func ["@ + joined(param_args(spec.params@), ", "@) + "];\n\n"@;
    let made = "    this_pointer <- alloc_"@ + iface + "_this;\n"@;
    let returned = "    llvm_return this_pointer;\n"@;
    let end = "ov_"@ + id + " <- llvm_unsafe_assume_spec m \""@ + target_of(spec) + "\" "@ + id
        + "_factory;\n"@;
    lemma_param_args(spec.params@);
    lemma_none_in_order(factory_params(spec.params@));
    lemma_none_in_order(only_if(globals.len() > 0, factory_globals(globals) + "\n"@));
    lemma_factory_in_order(spec, interface_class, globals, none, none);
    assert(none + seq![call] + none + seq![made, returned, end] =~= seq![call, made, returned, end]);
    assert forall|i: int| 0 <= i < globals.len() implies {
        let g = #[trigger] globals[i];
        let safe = sanitized(g.name);
        let bits: nat = match g.ty {
            TypeView::SignedInt(b) => b as nat,
            TypeView::UnsignedInt(b) => b as nat,
            TypeView::Bool => 1,
            _ => 32,
        };
        in_order(
            text,
            seq![
                call,
                "    "@ + safe + "_post <- llvm_fresh_var \""@ + safe
                    + "_post\" (llvm_int "@ + dec(bits) + ");\n"@,
                "    llvm_points_to (llvm_global \""@ + g.mangled_name + "\") (llvm_term "@
                    + safe + "_post);\n"@,
            ],
        )
    } by {
        let g = globals[i];
        let safe = sanitized(g.name);
        let bits: nat = init_bits(g.ty) as nat;
        let a = "    "@ + safe + "_post <- llvm_fresh_var \""@ + safe + "_post\" (llvm_int "@
            + dec(bits) + ");\n"@;
        let b = "    llvm_points_to (llvm_global \""@ + g.mangled_name + "\") (llvm_term "@ + safe
            + "_post);\n"@;
        lemma_factory_global_lines(g);
        let s = lemma_factory_globals_splits(globals, i);
        lemma_in_order_more(s.0, factory_globals_item(g), s.1, seq![a, b]);
        lemma_in_order_behind(factory_globals(globals), "\n"@, seq![a, b]);
        lemma_factory_in_order(spec, interface_class, globals, none, seq![a, b]);
        assert(none + seq![call] + seq![a, b] =~= seq![call, a, b]);
        lemma_in_order_first(text, seq![call, a, b], seq![made, returned, end]);
    }
    assert forall|i: int| 0 <= i < spec.params@.len() implies {
        let p = #[trigger] spec.params@[i];
        in_order(
            text,
            seq![
                match p.alloc_type {
                    AllocType::FreshVar => "    "@ + p.name@ + " <- llvm_fresh_var \""@ + p.name@ + "\" ("@
                        + p.saw_type@ + ");\n"@,
                    AllocType::AllocReadonly => "    "@ + p.name@ + "_ptr <- llvm_alloc_readonly ("@ + p.saw_type@ + ");\n"@,
                    AllocType::AllocMutable => "    "@ + p.name@ + "_ptr <- llvm_alloc ("@ + p.saw_type@ + ");\n"@,
                },
                call,
            ],
        )
    } by {
        let item = factory_params_item(spec.params@[i]);
        lemma_self_in_order(item);
        let s = lemma_factory_params_splits(spec.params@, i);
        lemma_in_order_more(s.0, item, s.1, seq![item]);
        lemma_factory_in_order(spec, interface_class, globals, seq![item], none);
        assert(seq![item] + seq![call] + none =~= seq![item, call]);
        lemma_in_order_first(text, seq![item, call], seq![made, returned, end]);
    }
}

/// The lines of one global variable.
proof fn lemma_factory_global_lines(g: GlobalView)
    ensures
        ({
            let safe = sanitized(g.name);
            in_order(
                factory_globals_item(g),
                seq![
                    "    "@ + safe + "_post <- llvm_fresh_var \""@ + safe
                        + "_post\" (llvm_int "@ + dec(init_bits(g.ty) as nat) + ");\n"@,
                    "    llvm_points_to (llvm_global \""@ + g.mangled_name
                        + "\") (llvm_term "@ + safe + "_post);\n"@,
                ],
            )
        }),
{
    let safe = sanitized(g.name);
    let post = safe + "_post"@;
    let bits: nat = init_bits(g.ty) as nat;
    let a = "    "@ + post + " <- llvm_fresh_var \""@ + post + "\" (llvm_int "@ + dec(bits) + ");\n"@;
    let b = "    llvm_points_to (llvm_global \""@ + g.mangled_name + "\") (llvm_term "@ + post + ");\n"@;
    lemma_self_in_order(a);
    lemma_self_in_order(b);
    lemma_in_order_join(a, seq![a], b, seq![b]);
    lemma_list_of_two(a, b);
    assert(factory_globals_item(g) == a + b) by {
        broadcast use group_append;

    }
    lemma_post_texts(safe, bits, g.mangled_name);
}

proof fn lemma_post_texts(safe: Seq<char>, bits: nat, name: Seq<char>)
    ensures
        "    "@ + (safe + "_post"@) + " <- llvm_fresh_var \""@ + (safe + "_post"@) + "\" (llvm_int "@
            + dec(bits) + ");\n"@ == "    "@ + safe + "_post <- llvm_fresh_var \""@ + safe + "_post\" (llvm_int "@
                + dec(bits) + ");\n"@,
        "    llvm_points_to (llvm_global \""@ + name + "\") (llvm_term "@ + (safe + "_post"@)
            + ");\n"@ == "    llvm_points_to (llvm_global \""@ + name + "\") (llvm_term "@ + safe
                + "_post);\n"@,
{
    lemma_post_glue();
    let a = "    "@ + safe;
    lemma_append_assoc("    "@, safe, "_post"@);
    lemma_append_assoc(a, "_post"@, " <- llvm_fresh_var \""@);
    let b = a + "_post <- llvm_fresh_var \""@;
    lemma_append_assoc(b, safe, "_post"@);
    lemma_append_assoc(b + safe, "_post"@, "\" (llvm_int "@);
    let c = "    llvm_points_to (llvm_global \""@ + name + "\") (llvm_term "@;
    lemma_append_assoc(c, safe, "_post"@);
    lemma_append_assoc(c + safe, "_post"@, ");\n"@);
}

proof fn lemma_post_glue()
    ensures
        "_post"@ + " <- llvm_fresh_var \""@ == "_post <- llvm_fresh_var \""@,
        "_post"@ + "\" (llvm_int "@ == "_post\" (llvm_int "@,
        "_post"@ + ");\n"@ == "_post);\n"@,
{
    reveal_strlit("_post");
    reveal_strlit(");\n");
    reveal_strlit("_post);\n");
    reveal_strlit(" <- llvm_fresh_var \"");
    reveal_strlit("_post <- llvm_fresh_var \"");
    reveal_strlit("\" (llvm_int ");
    reveal_strlit("_post\" (llvm_int ");
    assert("_post"@ + " <- llvm_fresh_var \""@ =~= "_post <- llvm_fresh_var \""@);
    assert("_post"@ + "\" (llvm_int "@ =~= "_post\" (llvm_int "@);
    assert("_post"@ + ");\n"@ =~= "_post);\n"@);
}

/// The parts of the override of a function that creates an object.
proof fn lemma_factory_in_order(
    spec: &SpecConstraint,
    interface_class: Seq<char>,
    globals: Seq<GlobalView>,
    v: Seq<Seq<char>>,
    w: Seq<Seq<char>>,
)
    requires
        in_order(factory_params(spec.params@), v),
        in_order(only_if(globals.len() > 0, factory_globals(globals) + "\n"@), w),
    ensures
        ({
            let iface = lower_id(interface_class);
            let id = sanitized(spec_key(spec));
            in_order(
                factory_text(spec, interface_class, globals),
                v + seq!["\n    llvm_execute_func ["@ + joined(param_args(spec.params@), ", "@)
                    + "];\n\n"@]
                    + w + seq![
                    "    this_pointer <- alloc_"@ + iface + "_this;\n"@,
                    "    llvm_return this_pointer;\n"@,
                    "ov_"@ + id + " <- llvm_unsafe_assume_spec m \""@ + target_of(spec)
                        + "\" "@ + id + "_factory;\n"@,
                ],
            )
        }),
{
    let iface = lower_id(interface_class);
    let id = sanitized(spec_key(spec));
    let head = "// Factory spec for "@ + spec.function_name@ + ": returns "@ + interface_class
        + "* wired to "@ + iface + "_vtable.\n"@
        + "// Must be included after interface_overrides.saw.\n\n"@ + "let "@ + id
        + "_factory : LLVMSetup () = do {\n"@;
    let a = factory_params(spec.params@);
    let call = "\n    llvm_execute_func ["@ + joined(param_args(spec.params@), ", "@) + "];\n\n"@;
    let b = only_if(globals.len() > 0, factory_globals(globals) + "\n"@);
    let made = "    this_pointer <- alloc_"@ + iface + "_this;\n"@;
    let returned = "    llvm_return this_pointer;\n"@;
    let end = "ov_"@ + id + " <- llvm_unsafe_assume_spec m \""@ + target_of(spec) + "\" "@ + id
        + "_factory;\n"@;
    assert(factory_text(spec, interface_class, globals) == head + a + call + b + made + returned
        + "};\n"@ + end) by {
        broadcast use group_append;

    }
    lemma_self_in_order(call);
    lemma_self_in_order(made);
    lemma_self_in_order(returned);
    lemma_self_in_order(end);
    lemma_in_order_ahead(head, a, v);
    lemma_in_order_join(head + a, v, call, seq![call]);
    let x = v + seq![call] + w;
    lemma_in_order_join(head + a + call, v + seq![call], b, w);
    let s = head + a + call + b;
    lemma_in_order_join(s, x, made, seq![made]);
    lemma_in_order_join(s + made, x + seq![made], returned, seq![returned]);
    lemma_in_order_behind(s + made + returned, "};\n"@, x + seq![made] + seq![returned]);
    lemma_in_order_join(
        s + made + returned + "};\n"@,
        x + seq![made] + seq![returned],
        end,
        seq![end],
    );
    assert(x + seq![made] + seq![returned] + seq![end] =~= x + seq![made, returned, end]);
}

} // verus!
