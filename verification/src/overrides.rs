//! The index of the interface overrides, the helpers that allocate objects
//! of interface classes, and objects that hold interface pointers.

use vstd::prelude::*;

use crate::class_groups::{ClassGroup, GroupView, groups_view, methods_view};
use crate::constraints::{
    type_view, ClassConstructor, InterfaceMethod, TypeInfo, TypeView,
};
use crate::havoc_params::{
    class_bits, field_width, member_bits, member_types, padding_bytes, put_member_types,
    trailing_padding_bytes,
};
use crate::names::{
    lower_id, sanitize_lower, sanitize_name, sanitized, stub_function_name, stub_name,
};
use crate::text::{
    CharSet, after_prefix, dec, find, group_append, group_views, join, joined, lemma_append_assoc,
    lemma_append_nothing, nil, only_if, opt_string, owned, position, put, put2, put3, put5, put7,
    put_dec, same, slice_has, split_whitespace, starts, starts_with, strip_prefix, trim, trim_end,
    trim_text, trimmed_end, views, words,
};

verus! {

/// A field of an object that holds interface pointers.
#[derive(Debug, PartialEq, Eq)]
pub enum FieldKind {
    /// A pointer to an interface: the name of the field and of the class.
    Interface(String, String),
    /// Anything else: the name of the field.
    Other(String),
}

pub open spec fn index_header() -> Seq<char> {
    "// Auto-generated interface override setup with vtable resolution\n"@ + "//\n"@
        + "// For DIRECT calls (function is 'declare' in bitcode):\n"@
        + "//   Just use llvm_unsafe_assume_spec with the mangled name directly.\n"@
        + "//   No extra files needed — the havoc specs bind to the declared symbol.\n"@
        + "//\n"@ + "// For VTABLE INDIRECT calls (virtual dispatch through this->vptr):\n"@
        + "//   m_stubs <- llvm_load_module \"vtable_stubs.ll\";\n"@
        + "//   m       <- llvm_combine_modules m_main m_stubs;\n"@
        + "//   The vtable global provides the function pointer resolution chain:\n"@
        + "//     this->vptr -> vtable[slot] -> stub function -> havoc spec\n"@ + "//\n"@
        + "// Usage:\n"@ + "//   m_main  <- llvm_load_module \"your_code.bc\";\n"@
        + "//   m_stubs <- llvm_load_module \"vtable_stubs.ll\";\n"@
        + "//   m       <- llvm_combine_modules m_main m_stubs;\n"@
        + "//   include \"interface_overrides.saw\";\n"@ + "//\n"@
        + "// For each interface class, a helper is generated:\n"@
        + "//   alloc_<class>_this : LLVMSetup Term\n"@
        + "// which allocates a properly-formed `this` pointer with vptr wired\n"@
        + "// to the stub vtable. Use it in your verification specs.\n\n"@
}

fn emit_header(out: &mut String)
    ensures
        final(out)@ == old(out)@ + index_header(),
{
    broadcast use {group_append, group_views};
    put(out, "// Auto-generated interface override setup with vtable resolution\n");
    put(out, "//\n");
    put(out, "// For DIRECT calls (function is 'declare' in bitcode):\n");
    put(out, "//   Just use llvm_unsafe_assume_spec with the mangled name directly.\n");
    put(out, "//   No extra files needed — the havoc specs bind to the declared symbol.\n");
    put(out, "//\n");
    put(out, "// For VTABLE INDIRECT calls (virtual dispatch through this->vptr):\n");
    put(out, "//   m_stubs <- llvm_load_module \"vtable_stubs.ll\";\n");
    put(out, "//   m       <- llvm_combine_modules m_main m_stubs;\n");
    put(out, "//   The vtable global provides the function pointer resolution chain:\n");
    put(out, "//     this->vptr -> vtable[slot] -> stub function -> havoc spec\n");
    put(out, "//\n");
    put(out, "// Usage:\n");
    put(out, "//   m_main  <- llvm_load_module \"your_code.bc\";\n");
    put(out, "//   m_stubs <- llvm_load_module \"vtable_stubs.ll\";\n");
    put(out, "//   m       <- llvm_combine_modules m_main m_stubs;\n");
    put(out, "//   include \"interface_overrides.saw\";\n");
    put(out, "//\n");
    put(out, "// For each interface class, a helper is generated:\n");
    put(out, "//   alloc_<class>_this : LLVMSetup Term\n");
    put(out, "// which allocates a properly-formed `this` pointer with vptr wired\n");
    put(out, "// to the stub vtable. Use it in your verification specs.\n\n");
}

/// The file name of the specification of a method.
pub open spec fn havoc_file_name(class_name: Seq<char>, method_name: Seq<char>) -> Seq<char> {
    sanitized(class_name) + "_"@ + sanitized(method_name) + "_havoc_spec.saw"@
}

/// The file name of the specification of a method.
pub fn havoc_file(method: &InterfaceMethod) -> (r: String)
    ensures
        r@ == havoc_file_name(method.class_name@, method.method.name@),
{
    broadcast use {group_append, group_views};
    let mut r = sanitize_name(method.class_name.as_str());
    let m = sanitize_name(method.method.name.as_str());
    put3(&mut r, "_", m.as_str(), "_havoc_spec.saw");
    r
}

/// One line for the specification of each method that overrides no other.
pub open spec fn include_lines_item(m: InterfaceMethod) -> Seq<char> {
    if m.is_override {
        nil()
    } else {
        "include \""@ + havoc_file_name(m.class_name@, m.method.name@) + "\";\n"@
    }
}

fn put_include_lines_item(out: &mut String, m: &InterfaceMethod)
    ensures
        final(out)@ == old(out)@ + include_lines_item(*m),
{
    broadcast use {group_append, group_views};
    if !m.is_override {
        let file = havoc_file(m);
        put3(out, "include \"", file.as_str(), "\";\n");
    }
}

/// One line for the specification of each method that overrides no other.
pub open spec fn include_lines(v: Seq<InterfaceMethod>) -> Seq<char>
    decreases v.len(),
{
    if v.len() == 0 {
        nil()
    } else {
        include_lines(v.drop_last()) + include_lines_item(v.last())
    }
}

/// One line for the specification of each method that overrides no other.
fn put_include_lines(out: &mut String, v: &[InterfaceMethod])
    ensures
        final(out)@ == old(out)@ + include_lines(v@),
{
    broadcast use lemma_append_nothing;
    let mut i: usize = 0;
    assert(include_lines(v@.take(0)) =~= nil());
    while i < v.len()
        invariant
            i <= v@.len(),
            out@ == old(out)@ + include_lines(v@.take(i as int)),
        decreases v@.len() - i,
    {
        proof {
            assert(v@.take(i + 1).drop_last() =~= v@.take(i as int));
            lemma_append_assoc(old(out)@, include_lines(v@.take(i as int)), include_lines_item(v@[i as int]));
        }
        put_include_lines_item(out, &v[i]);
        i += 1;
    }
    assert(v@.take(v@.len() as int) =~= v@);
}

/// The identifier of the stub of a method.
pub open spec fn stub_id(m: InterfaceMethod) -> Seq<char> {
    sanitized(stub_name(m.class_name@, m.method.name@))
}

pub fn stub_identifier(m: &InterfaceMethod) -> (r: String)
    ensures
        r@ == stub_id(*m),
{
    sanitize_name(stub_function_name(m).as_str())
}

/// The binding of the stub of each method that overrides no other.
pub open spec fn bindings_item(m: InterfaceMethod) -> Seq<char> {
    if m.is_override {
        nil()
    } else {
        let safe = stub_id(m);
        "// "@ + m.class_name@ + "::"@ + m.method.name@
            + " — havoc: any behavior consistent with type constraints\n"@ + "ov_"@ + safe
            + " <- llvm_unsafe_assume_spec m \""@ + stub_name(m.class_name@, m.method.name@)
            + "\" "@ + safe + "_havoc;\n"@
            + match m.method.mangled_name {
            Some(mangled) => (if m.is_pure {
                "// Pure virtual — no real symbol in bitcode.\n"@
            } else {
                "// Devirtualized direct calls hit the real symbol — no override.\n"@
            }) + "// To force havoc instead, uncomment:\n"@ + "// ov_"@ + sanitized(mangled@)
                + " <- llvm_unsafe_assume_spec m \""@ + mangled@ + "\" "@ + safe + "_havoc;\n"@,
            None => nil(),
        } + "\n"@
    }
}

fn put_bindings_item(out: &mut String, m: &InterfaceMethod)
    ensures
        final(out)@ == old(out)@ + bindings_item(*m),
{
    broadcast use {group_append, group_views};
    if !m.is_override {
        let safe_id = stub_identifier(m);
        let safe = safe_id.as_str();
        let stub = stub_function_name(m);
        put5(
            out,
            "// ",
            m.class_name.as_str(),
            "::",
            m.method.name.as_str(),
            " — havoc: any behavior consistent with type constraints\n",
        );
        put7(
            out,
            "ov_",
            safe,
            " <- llvm_unsafe_assume_spec m \"",
            stub.as_str(),
            "\" ",
            safe,
            "_havoc;\n",
        );
        if let Some(mangled_name) = &m.method.mangled_name {
            let mangled = mangled_name.as_str();
            let safe_mangled = sanitize_name(mangled);
            if m.is_pure {
                put(out, "// Pure virtual — no real symbol in bitcode.\n");
            } else {
                put(out, "// Devirtualized direct calls hit the real symbol — no override.\n");
            }
            put(out, "// To force havoc instead, uncomment:\n");
            put7(
                out,
                "// ov_",
                safe_mangled.as_str(),
                " <- llvm_unsafe_assume_spec m \"",
                mangled,
                "\" ",
                safe,
                "_havoc;\n",
            );
        }
        put(out, "\n");
    }
}

/// The binding of the stub of each method that overrides no other.
pub open spec fn bindings(v: Seq<InterfaceMethod>) -> Seq<char>
    decreases v.len(),
{
    if v.len() == 0 {
        nil()
    } else {
        bindings(v.drop_last()) + bindings_item(v.last())
    }
}

/// The binding of the stub of each method that overrides no other.
fn put_bindings(out: &mut String, v: &[InterfaceMethod])
    ensures
        final(out)@ == old(out)@ + bindings(v@),
{
    broadcast use lemma_append_nothing;
    let mut i: usize = 0;
    assert(bindings(v@.take(0)) =~= nil());
    while i < v.len()
        invariant
            i <= v@.len(),
            out@ == old(out)@ + bindings(v@.take(i as int)),
        decreases v@.len() - i,
    {
        proof {
            assert(v@.take(i + 1).drop_last() =~= v@.take(i as int));
            lemma_append_assoc(old(out)@, bindings(v@.take(i as int)), bindings_item(v@[i as int]));
        }
        put_bindings_item(out, &v[i]);
        i += 1;
    }
    assert(v@.take(v@.len() as int) =~= v@);
}

/// The names to which the stubs are bound.
pub open spec fn binding_names_item(m: InterfaceMethod) -> Seq<Seq<char>> {
    if m.is_override {
        Seq::empty()
    } else {
        seq!["ov_"@ + stub_id(m)]
    }
}

fn push_binding_names_item(out: &mut Vec<String>, m: &InterfaceMethod)
    ensures
        views(final(out)@) == views(old(out)@) + binding_names_item(*m),
{
    broadcast use {group_append, group_views};
    if !m.is_override {
        let mut s = String::new();
        put2(&mut s, "ov_", stub_identifier(m).as_str());
        out.push(s);
    }
}

/// The names to which the stubs are bound.
pub open spec fn binding_names(v: Seq<InterfaceMethod>) -> Seq<Seq<char>>
    decreases v.len(),
{
    if v.len() == 0 {
        Seq::empty()
    } else {
        binding_names(v.drop_last()) + binding_names_item(v.last())
    }
}

/// The names to which the stubs are bound.
fn push_binding_names(out: &mut Vec<String>, v: &[InterfaceMethod])
    ensures
        views(final(out)@) == views(old(out)@) + binding_names(v@),
{
    broadcast use lemma_append_nothing;
    let mut i: usize = 0;
    assert(binding_names(v@.take(0)) =~= Seq::<Seq<char>>::empty());
    while i < v.len()
        invariant
            i <= v@.len(),
            views(out@) == views(old(out)@) + binding_names(v@.take(i as int)),
        decreases v@.len() - i,
    {
        proof {
            assert(v@.take(i + 1).drop_last() =~= v@.take(i as int));
            lemma_append_assoc(views(old(out)@), binding_names(v@.take(i as int)), binding_names_item(v@[i as int]));
        }
        push_binding_names_item(out, &v[i]);
        i += 1;
    }
    assert(v@.take(v@.len() as int) =~= v@);
}

pub open spec fn bindings_block(methods: Seq<InterfaceMethod>) -> Seq<char> {
    "// --- Override bindings ---\n"@
        + "// For vtable dispatch: binds to stub function names (from vtable_stubs.ll)\n"@
        + "// For direct calls: binds to the mangled C++ name (already in your bitcode)\n\n"@
        + bindings(methods)
}

fn emit_override_bindings(out: &mut String, methods: &[InterfaceMethod]) -> (names: Vec<String>)
    ensures
        final(out)@ == old(out)@ + bindings_block(methods@),
        views(names@) == binding_names(methods@),
{
    broadcast use {group_append, group_views};
    put(out, "// --- Override bindings ---\n");
    put(out, "// For vtable dispatch: binds to stub function names (from vtable_stubs.ll)\n");
    put(out, "// For direct calls: binds to the mangled C++ name (already in your bitcode)\n\n");
    put_bindings(out, methods);
    let mut names: Vec<String> = Vec::new();
    push_binding_names(&mut names, methods);
    names
}

/// The names to which the stubs of the methods of a class are bound.
pub open spec fn class_bindings(methods: Seq<InterfaceMethod>) -> Seq<Seq<char>> {
    Seq::new(methods.len(), |i: int| "ov_"@ + stub_id(methods[i]))
}

fn class_binding_list(methods: &Vec<&InterfaceMethod>) -> (r: Vec<String>)
    ensures
        views(r@) == class_bindings(methods_view(methods@)),
{
    broadcast use {group_append, group_views};
    let mut r: Vec<String> = Vec::new();
    let mut i: usize = 0;
    while i < methods.len()
        invariant
            i <= methods@.len(),
            r@.len() == i,
            forall|k: int|
                0 <= k < i ==> (#[trigger] r@[k])@ == "ov_"@ + stub_id(*methods@[k]),
        decreases methods@.len() - i,
    {
        let mut s = String::new();
        put2(&mut s, "ov_", stub_identifier(methods[i]).as_str());
        r.push(s);
        i += 1;
    }
    assert(views(r@) =~= class_bindings(methods_view(methods@)));
    r
}

/// The number of slots of a class: its methods, and one for a virtual
/// destructor.
pub open spec fn slot_count(group: GroupView, vdtor: Seq<Seq<char>>) -> nat {
    group.methods.len() + if vdtor.contains(group.name) {
        1nat
    } else {
        0nat
    }
}

/// The helper that allocates an object of a class whose virtual table
/// holds the stubs.
pub open spec fn class_helper(group: GroupView, vdtor: Seq<Seq<char>>) -> Seq<char> {
    let safe = lower_id(group.name);
    let slots = slot_count(group, vdtor);
    "// ===========================================================\n"@ + "// "@
        + group.name + ": vtable setup helper\n"@
        + "// ===========================================================\n"@ + "//\n"@
        + "// Allocates a `this` pointer (8 bytes for vptr) with the vtable\n"@
        + "// pointer wired to "@ + safe + "_vtable. SAW resolves:\n"@
        + "//   this -> vptr -> "@ + safe + "_vtable[slot] -> stub -> havoc spec\n"@ + "//\n"@
        + "// Use in your spec like:\n"@ + "//   this_ptr <- alloc_"@ + safe + "_this;\n"@ + only_if(
        group.methods.len() > 0,
        "//   llvm_verify m \"target\" ["@ + joined(class_bindings(group.methods), ", "@)
            + "] false spec z3;\n"@,
    ) + "\n"@ + "let alloc_"@ + safe + "_this : LLVMSetup SetupValue = do {\n"@
        + "    // Allocate the vtable: "@ + dec(slots) + " function pointers\n"@
        + "    let vtable_ty = llvm_array "@ + dec(slots) + " (llvm_int 64);\n"@
        + "    vtable_ptr <- llvm_alloc_readonly_aligned 8 vtable_ty;\n"@
        + "\n    // Point vtable slots to the global stub vtable\n"@
        + "    llvm_points_to_at_type vtable_ptr vtable_ty\n"@
        + "        (llvm_global_initializer \""@ + safe + "_vtable\");\n"@
        + "\n    // Allocate `this`: first 8 bytes = vptr -> vtable\n"@
        + "    this_ptr <- llvm_alloc (llvm_int 64);\n"@
        + "    llvm_points_to this_ptr vtable_ptr;\n"@ + "\n    return this_ptr;\n"@ + "};\n\n"@
}

fn count_slots(group: &ClassGroup, vdtor: &[String]) -> (n: u128)
    ensures
        n == slot_count(group@, views(vdtor@)),
{
    let n: u128 = group.methods.len() as u128;
    if slice_has(vdtor, group.name.as_str()) {
        n + 1
    } else {
        n
    }
}

fn put_class_helper(out: &mut String, group: &ClassGroup, vdtor: &[String])
    ensures
        final(out)@ == old(out)@ + class_helper(group@, views(vdtor@)),
{
    broadcast use {group_append, group_views};
    let class_name = group.name.as_str();
    let safe_class = sanitize_lower(class_name);
    let safe = safe_class.as_str();
    let slots: u128 = count_slots(group, vdtor);
    put(out, "// ===========================================================\n");
    put3(out, "// ", class_name, ": vtable setup helper\n");
    put(out, "// ===========================================================\n");
    put(out, "//\n");
    put(out, "// Allocates a `this` pointer (8 bytes for vptr) with the vtable\n");
    put3(out, "// pointer wired to ", safe, "_vtable. SAW resolves:\n");
    put3(out, "//   this -> vptr -> ", safe, "_vtable[slot] -> stub -> havoc spec\n");
    put(out, "//\n");
    put(out, "// Use in your spec like:\n");
    put3(out, "//   this_ptr <- alloc_", safe, "_this;\n");
    if group.methods.len() > 0 {
        let names = class_binding_list(&group.methods);
        put3(
            out,
            "//   llvm_verify m \"target\" [",
            join(&names, ", ").as_str(),
            "] false spec z3;\n",
        );
    }
    put(out, "\n");
    put3(out, "let alloc_", safe, "_this : LLVMSetup SetupValue = do {\n");
    put(out, "    // Allocate the vtable: ");
    put_dec(out, slots);
    put(out, " function pointers\n");
    put(out, "    let vtable_ty = llvm_array ");
    put_dec(out, slots);
    put(out, " (llvm_int 64);\n");
    put(out, "    vtable_ptr <- llvm_alloc_readonly_aligned 8 vtable_ty;\n");
    put(out, "\n    // Point vtable slots to the global stub vtable\n");
    put(out, "    llvm_points_to_at_type vtable_ptr vtable_ty\n");
    put3(out, "        (llvm_global_initializer \"", safe, "_vtable\");\n");
    put(out, "\n    // Allocate `this`: first 8 bytes = vptr -> vtable\n");
    put(out, "    this_ptr <- llvm_alloc (llvm_int 64);\n");
    put(out, "    llvm_points_to this_ptr vtable_ptr;\n");
    put(out, "\n    return this_ptr;\n");
    put(out, "};\n\n");
}

/// The helper of each class.
pub open spec fn class_helpers(v: Seq<GroupView>, vdtor: Seq<String>) -> Seq<char>
    decreases v.len(),
{
    if v.len() == 0 {
        nil()
    } else {
        class_helpers(v.drop_last(), vdtor) + class_helper(v.last(), views(vdtor))
    }
}

/// The helper of each class.
fn emit_per_class_helpers(out: &mut String, v: &[ClassGroup], vdtor: &[String])
    ensures
        final(out)@ == old(out)@ + class_helpers(groups_view(v@), vdtor@),
{
    broadcast use lemma_append_nothing;
    let ghost w = groups_view(v@);
    let mut i: usize = 0;
    assert(class_helpers(w.take(0), vdtor@) =~= nil());
    while i < v.len()
        invariant
            w == groups_view(v@),
            i <= v@.len(),
            out@ == old(out)@ + class_helpers(w.take(i as int), vdtor@),
        decreases v@.len() - i,
    {
        proof {
            assert(w.take(i + 1).drop_last() =~= w.take(i as int));
            assert(w.take(i + 1).last() == v@[i as int]@);
            lemma_append_assoc(old(out)@, class_helpers(w.take(i as int), vdtor@), class_helper(w[i as int], views(vdtor@)));
        }
        put_class_helper(out, &v[i], vdtor);
        i += 1;
    }
    assert(w.take(w.len() as int) =~= w);
}

pub open spec fn override_list(names: Seq<Seq<char>>) -> Seq<char> {
    "// All overrides for use in llvm_verify:\n"@ + "// let all_interface_overrides = ["@
        + joined(names, ", "@) + "];\n"@
}

fn emit_override_list_comment(out: &mut String, names: &Vec<String>)
    ensures
        final(out)@ == old(out)@ + override_list(views(names@)),
{
    broadcast use {group_append, group_views};
    put(out, "// All overrides for use in llvm_verify:\n");
    put3(out, "// let all_interface_overrides = [", join(names, ", ").as_str(), "];\n");
}

/// The first group of the given class from `i` on.
pub open spec fn find_group(g: Seq<GroupView>, name: Seq<char>, i: int) -> Option<int>
    decreases g.len() - i,
{
    if i < 0 || i >= g.len() {
        None
    } else if g[i].name == name {
        Some(i)
    } else {
        find_group(g, name, i + 1)
    }
}

fn group_index(groups: &[ClassGroup], name: &str) -> (r: Option<usize>)
    ensures
        match r {
            Some(i) => i < groups@.len() && find_group(groups_view(groups@), name@, 0) == Some(
                i as int,
            ),
            None => find_group(groups_view(groups@), name@, 0) is None,
        },
{
    let ghost w = groups_view(groups@);
    let mut i: usize = 0;
    while i < groups.len()
        invariant
            w == groups_view(groups@),
            i <= groups@.len(),
            find_group(w, name@, 0) == find_group(w, name@, i as int),
        decreases groups@.len() - i,
    {
        if same(groups[i].name.as_str(), name) {
            return Some(i);
        }
        i += 1;
    }
    None
}

/// The initial values of the data members: the given literal, or zero.
pub open spec fn member_values_item(f: (String, TypeInfo, String)) -> Seq<char> {
    let lit = if f.2@.len() == 0 {
        "0"@
    } else {
        f.2@
    };
    "        , llvm_term {{ "@ + lit + " : ["@ + dec(member_bits(&f.1) as nat)
        + "] }}  // "@ + f.0@ + "\n"@
}

fn put_member_values_item(out: &mut String, f: &(String, TypeInfo, String))
    ensures
        final(out)@ == old(out)@ + member_values_item(*f),
{
    broadcast use {group_append, group_views};
    let lit = if f.2.as_str().is_empty() {
        "0"
    } else {
        f.2.as_str()
    };
    put3(out, "        , llvm_term {{ ", lit, " : [");
    put_dec(out, field_width(&f.1) as u128);
    put3(out, "] }}  // ", f.0.as_str(), "\n");
}

/// The initial values of the data members: the given literal, or zero.
pub open spec fn member_values(v: Seq<(String, TypeInfo, String)>) -> Seq<char>
    decreases v.len(),
{
    if v.len() == 0 {
        nil()
    } else {
        member_values(v.drop_last()) + member_values_item(v.last())
    }
}

/// The initial values of the data members: the given literal, or zero.
fn put_member_values(out: &mut String, v: &[(String, TypeInfo, String)])
    ensures
        final(out)@ == old(out)@ + member_values(v@),
{
    broadcast use lemma_append_nothing;
    let mut i: usize = 0;
    assert(member_values(v@.take(0)) =~= nil());
    while i < v.len()
        invariant
            i <= v@.len(),
            out@ == old(out)@ + member_values(v@.take(i as int)),
        decreases v@.len() - i,
    {
        proof {
            assert(v@.take(i + 1).drop_last() =~= v@.take(i as int));
            lemma_append_assoc(old(out)@, member_values(v@.take(i as int)), member_values_item(v@[i as int]));
        }
        put_member_values_item(out, &v[i]);
        i += 1;
    }
    assert(v@.take(v@.len() as int) =~= v@);
}

/// A list of zeros.
pub open spec fn zeros(n: nat) -> Seq<Seq<char>> {
    Seq::new(n, |i: int| "0"@)
}

/// The object that a constructor initialises, before the call.
pub open spec fn ctor_this(ctor: &ClassConstructor) -> Seq<char> {
    let fields = ctor.layout_fields@;
    let pad = padding_bytes(fields);
    if fields.len() > 0 {
        "\n    // this: full class layout (vptr + data members)\n"@
            + "    this_ptr <- llvm_alloc (llvm_packed_struct_type\n"@
            + "        [ llvm_pointer (llvm_int 64)  // vptr\n"@ + member_types(fields) + only_if(
            pad > 0,
            "        , llvm_array "@ + dec(pad) + " (llvm_int 8)\n"@,
        ) + "        ]);\n"@
    } else {
        "\n    // this: passed in from operator new (precondition)\n"@
            + "    this_ptr <- llvm_alloc_aligned 8 (llvm_int 64);\n"@
    }
}

/// The object after the call: the virtual table is wired, and the data
/// members hold their initial values.
pub open spec fn ctor_value(ctor: &ClassConstructor) -> Seq<char> {
    let fields = ctor.layout_fields@;
    let pad = padding_bytes(fields);
    if fields.len() > 0 {
        "    // Initialize vptr + all data members\n"@
            + "    llvm_points_to this_ptr (llvm_packed_struct_value\n"@
            + "        [ vtable_ptr\n"@ + member_values(fields) + only_if(
            pad > 0,
            "        , llvm_term {{ ["@ + joined(zeros(pad), ", "@) + "] : ["@ + dec(pad)
                + "][8] }}  // padding\n"@,
        ) + "        ]);\n"@
    } else {
        "    llvm_points_to this_ptr vtable_ptr;\n"@
    }
}

/// Does the constructor return the object? Only in the MSVC mangling.
pub open spec fn returns_this(ctor: &ClassConstructor) -> bool {
    !starts(ctor.mangled_name@, "_Z"@)
}

/// The override of one constructor, where its class has virtual methods.
pub open spec fn ctor_override(
    ctor: ClassConstructor,
    groups: Seq<GroupView>,
    vdtor: Seq<Seq<char>>,
) -> Seq<char> {
    match find_group(groups, ctor.class_name@, 0) {
        Some(i) => {
            let safe = lower_id(ctor.class_name@);
            "// Constructor override for "@ + ctor.class_name@ + ": wires vptr to "@ + safe
                + "_vtable\n"@ + "let "@ + safe + "_ctor_override : LLVMSetup () = do {\n"@
                + ctor_this(&ctor) + "\n    llvm_execute_func [this_ptr];\n"@
                + "\n    // Postcondition: allocate stub vtable and wire vptr\n"@
                + "    let vtable_ty = llvm_array "@ + dec(slot_count(groups[i], vdtor))
                + " (llvm_int 64);\n"@
                + "    vtable_ptr <- llvm_alloc_readonly_aligned 8 vtable_ty;\n"@
                + "    llvm_points_to_at_type vtable_ptr vtable_ty\n"@
                + "        (llvm_global_initializer \""@ + safe + "_vtable\");\n"@
                + ctor_value(&ctor) + only_if(
                returns_this(&ctor),
                "    llvm_return this_ptr;\n"@,
            ) + "};\n"@ + "ov_"@ + safe + "_ctor <- llvm_unsafe_assume_spec m \""@
                + ctor.mangled_name@ + "\" "@ + safe + "_ctor_override;\n\n"@
        },
        None => nil(),
    }
}

/// Does the layout of each of the given classes fit into 32 bits?
pub open spec fn layouts_fit(
    constructors: Seq<ClassConstructor>,
    classes: Seq<Seq<char>>,
) -> bool {
    forall|i: int|
        0 <= i < constructors.len() && classes.contains(
            (#[trigger] constructors[i]).class_name@,
        ) ==> class_bits(constructors[i].layout_fields@) <= u32::MAX
}

/// The classes of the groups.
pub open spec fn group_names(groups: Seq<GroupView>) -> Seq<Seq<char>> {
    Seq::new(groups.len(), |i: int| groups[i].name)
}

proof fn lemma_find_group(groups: Seq<GroupView>, name: Seq<char>, i: int)
    requires
        0 <= i,
        find_group(groups, name, i) is Some,
    ensures
        group_names(groups).contains(name),
    decreases groups.len() - i,
{
    if i < groups.len() && groups[i].name == name {
        assert(group_names(groups)[i] == name);
    } else if i < groups.len() {
        lemma_find_group(groups, name, i + 1);
    }
}

fn put_ctor_this(out: &mut String, ctor: &ClassConstructor)
    requires
        class_bits(ctor.layout_fields@) <= u32::MAX,
    ensures
        final(out)@ == old(out)@ + ctor_this(ctor),
{
    broadcast use {group_append, group_views};
    let fields = ctor.layout_fields.as_slice();
    if fields.len() > 0 {
        let pad: u32 = trailing_padding_bytes(fields);
        put(out, "\n    // this: full class layout (vptr + data members)\n");
        put(out, "    this_ptr <- llvm_alloc (llvm_packed_struct_type\n");
        put(out, "        [ llvm_pointer (llvm_int 64)  // vptr\n");
        put_member_types(out, fields);
        if pad > 0 {
            put(out, "        , llvm_array ");
            put_dec(out, pad as u128);
            put(out, " (llvm_int 8)\n");
        }
        put(out, "        ]);\n");
    } else {
        put(out, "\n    // this: passed in from operator new (precondition)\n");
        put(out, "    this_ptr <- llvm_alloc_aligned 8 (llvm_int 64);\n");
    }
}

fn zero_list(n: u32) -> (r: Vec<String>)
    ensures
        views(r@) == zeros(n as nat),
{
    broadcast use {group_append, group_views};
    let mut r: Vec<String> = Vec::new();
    let mut i: u32 = 0;
    while i < n
        invariant
            i <= n,
            views(r@) == zeros(i as nat),
        decreases n - i,
    {
        r.push(owned("0"));
        assert(zeros((i + 1) as nat) =~= zeros(i as nat).push("0"@));
        i += 1;
    }
    r
}

fn put_ctor_value(out: &mut String, ctor: &ClassConstructor)
    requires
        class_bits(ctor.layout_fields@) <= u32::MAX,
    ensures
        final(out)@ == old(out)@ + ctor_value(ctor),
{
    broadcast use {group_append, group_views};
    let fields = ctor.layout_fields.as_slice();
    if fields.len() > 0 {
        let pad: u32 = trailing_padding_bytes(fields);
        put(out, "    // Initialize vptr + all data members\n");
        put(out, "    llvm_points_to this_ptr (llvm_packed_struct_value\n");
        put(out, "        [ vtable_ptr\n");
        put_member_values(out, fields);
        if pad > 0 {
            let list = zero_list(pad);
            put3(out, "        , llvm_term {{ [", join(&list, ", ").as_str(), "] : [");
            put_dec(out, pad as u128);
            put(out, "][8] }}  // padding\n");
        }
        put(out, "        ]);\n");
    } else {
        put(out, "    llvm_points_to this_ptr vtable_ptr;\n");
    }
}

fn put_ctor_override(out: &mut String, ctor: &ClassConstructor, groups: &[ClassGroup], vdtor: &[String])
    requires
        find_group(groups_view(groups@), ctor.class_name@, 0) is Some ==> class_bits(
            ctor.layout_fields@,
        ) <= u32::MAX,
    ensures
        final(out)@ == old(out)@ + ctor_override(*ctor, groups_view(groups@), views(vdtor@)),
{
    broadcast use {group_append, group_views};
    if let Some(i) = group_index(groups, ctor.class_name.as_str()) {
        let safe_class = sanitize_lower(ctor.class_name.as_str());
        let safe = safe_class.as_str();
        let slots: u128 = count_slots(&groups[i], vdtor);
        put5(
            out,
            "// Constructor override for ",
            ctor.class_name.as_str(),
            ": wires vptr to ",
            safe,
            "_vtable\n",
        );
        put3(out, "let ", safe, "_ctor_override : LLVMSetup () = do {\n");
        put_ctor_this(out, ctor);
        put(out, "\n    llvm_execute_func [this_ptr];\n");
        put(out, "\n    // Postcondition: allocate stub vtable and wire vptr\n");
        put(out, "    let vtable_ty = llvm_array ");
        put_dec(out, slots);
        put(out, " (llvm_int 64);\n");
        put(out, "    vtable_ptr <- llvm_alloc_readonly_aligned 8 vtable_ty;\n");
        put(out, "    llvm_points_to_at_type vtable_ptr vtable_ty\n");
        put3(out, "        (llvm_global_initializer \"", safe, "_vtable\");\n");
        put_ctor_value(out, ctor);
        if !starts_with(ctor.mangled_name.as_str(), "_Z") {
            put(out, "    llvm_return this_ptr;\n");
        }
        put(out, "};\n");
        put7(
            out,
            "ov_",
            safe,
            "_ctor <- llvm_unsafe_assume_spec m \"",
            ctor.mangled_name.as_str(),
            "\" ",
            safe,
            "_ctor_override;\n\n",
        );
    }
}

pub open spec fn ctor_overrides(
    constructors: Seq<ClassConstructor>,
    groups: Seq<GroupView>,
    vdtor: Seq<Seq<char>>,
) -> Seq<char>
    decreases constructors.len(),
{
    if constructors.len() == 0 {
        nil()
    } else {
        ctor_overrides(constructors.drop_last(), groups, vdtor) + ctor_override(
            constructors.last(),
            groups,
            vdtor,
        )
    }
}

pub open spec fn ctor_block(
    constructors: Seq<ClassConstructor>,
    groups: Seq<GroupView>,
    vdtor: Seq<Seq<char>>,
) -> Seq<char> {
    "\n// ===========================================================\n"@
        + "// Constructor overrides for vtable wiring\n"@
        + "// ===========================================================\n"@ + "//\n"@
        + "// These override real constructors to wire vptr to stub vtables.\n"@
        + "// Use when verifying functions that construct objects internally\n"@
        + "// (e.g. `new OkLog()`) rather than receiving them as parameters.\n\n"@
        + ctor_overrides(constructors, groups, vdtor)
}

fn put_ctor_overrides(
    out: &mut String,
    constructors: &[ClassConstructor],
    groups: &[ClassGroup],
    vdtor: &[String],
)
    requires
        layouts_fit(constructors@, group_names(groups_view(groups@))),
    ensures
        final(out)@ == old(out)@ + ctor_overrides(
            constructors@,
            groups_view(groups@),
            views(vdtor@),
        ),
{
    broadcast use lemma_append_nothing;

    let ghost g = groups_view(groups@);
    let ghost d = views(vdtor@);
    let mut i: usize = 0;
    assert(ctor_overrides(constructors@.take(0), g, d) =~= nil());
    while i < constructors.len()
        invariant
            layouts_fit(constructors@, group_names(g)),
            g == groups_view(groups@),
            d == views(vdtor@),
            i <= constructors@.len(),
            out@ == old(out)@ + ctor_overrides(constructors@.take(i as int), g, d),
        decreases constructors@.len() - i,
    {
        proof {
            assert(constructors@.take(i + 1).drop_last() =~= constructors@.take(i as int));
            lemma_append_assoc(
                old(out)@,
                ctor_overrides(constructors@.take(i as int), g, d),
                ctor_override(constructors@[i as int], g, d),
            );
        }
        proof {
            let name = constructors@[i as int].class_name@;
            if find_group(g, name, 0) is Some {
                lemma_find_group(g, name, 0);
            }
        }
        put_ctor_override(out, &constructors[i], groups, vdtor);
        i += 1;
    }
    assert(constructors@.take(constructors@.len() as int) =~= constructors@);
}

fn emit_ctor_overrides(
    out: &mut String,
    constructors: &[ClassConstructor],
    groups: &[ClassGroup],
    vdtor: &[String],
)
    requires
        layouts_fit(constructors@, group_names(groups_view(groups@))),
    ensures
        final(out)@ == old(out)@ + ctor_block(constructors@, groups_view(groups@), views(vdtor@)),
{
    broadcast use {group_append, group_views};
    put(out, "\n// ===========================================================\n");
    put(out, "// Constructor overrides for vtable wiring\n");
    put(out, "// ===========================================================\n");
    put(out, "//\n");
    put(out, "// These override real constructors to wire vptr to stub vtables.\n");
    put(out, "// Use when verifying functions that construct objects internally\n");
    put(out, "// (e.g. `new OkLog()`) rather than receiving them as parameters.\n\n");
    put_ctor_overrides(out, constructors, groups, vdtor);
}

/// The index of the interface overrides.
pub open spec fn override_index(
    methods: Seq<InterfaceMethod>,
    groups: Seq<GroupView>,
    constructors: Seq<ClassConstructor>,
    vdtor: Seq<String>,
) -> Seq<char> {
    index_header() + include_lines(methods) + "\n"@ + bindings_block(methods)
        + class_helpers(groups, vdtor) + override_list(binding_names(methods)) + only_if(
        constructors.len() > 0,
        ctor_block(constructors, groups, views(vdtor)),
    )
}

/// The index of the interface overrides: the specifications of the
/// methods, the bindings of their stubs, a helper for each class, and the
/// overrides of the constructors.
pub fn generate_override_index_with_vtable(
    methods: &[InterfaceMethod],
    by_class: &[ClassGroup],
    constructors: &[ClassConstructor],
    classes_with_vdtor: &[String],
) -> (r: String)
    requires
        layouts_fit(constructors@, group_names(groups_view(by_class@))),
    ensures
        r@ == override_index(
            methods@,
            groups_view(by_class@),
            constructors@,
            classes_with_vdtor@,
        ),
{
    broadcast use {group_append, group_views};
    let mut out = String::new();
    emit_header(&mut out);
    put_include_lines(&mut out, methods);
    put(&mut out, "\n");
    let names = emit_override_bindings(&mut out, methods);
    emit_per_class_helpers(&mut out, by_class, classes_with_vdtor);
    emit_override_list_comment(&mut out, &names);
    if constructors.len() > 0 {
        emit_ctor_overrides(&mut out, constructors, by_class, classes_with_vdtor);
    }
    out
}

/// The class name inside the text of a smart pointer: what stands before
/// the closing bracket, without stars, up to white space.
pub open spec fn pointee_class(rest: Seq<char>, end: int) -> Seq<char> {
    let inner = trim_text(trimmed_end(trim_text(rest.subrange(0, end)), CharSet::Is('*')));
    let w = words(inner);
    if w.len() > 0 {
        w[0]
    } else {
        inner
    }
}

/// The interface that a smart pointer of the given kind points to.
pub open spec fn smart_interface(
    name: Seq<char>,
    wrap: Seq<char>,
    classes: Seq<Seq<char>>,
) -> Option<Seq<char>> {
    match after_prefix(name, wrap) {
        Some(rest) => match find(rest, ">"@) {
            Some(end) => if classes.contains(pointee_class(rest, end)) {
                Some(pointee_class(rest, end))
            } else {
                None
            },
            None => None,
        },
        None => None,
    }
}

/// The interface that a smart pointer points to.
pub open spec fn wrapped_interface(name: Seq<char>, classes: Seq<Seq<char>>) -> Option<Seq<char>> {
    if smart_interface(name, "std::unique_ptr<"@, classes) is Some {
        smart_interface(name, "std::unique_ptr<"@, classes)
    } else if smart_interface(name, "unique_ptr<"@, classes) is Some {
        smart_interface(name, "unique_ptr<"@, classes)
    } else if smart_interface(name, "std::shared_ptr<"@, classes) is Some {
        smart_interface(name, "std::shared_ptr<"@, classes)
    } else {
        smart_interface(name, "shared_ptr<"@, classes)
    }
}

/// The interface that a field points to, as a plain or as a smart pointer.
pub open spec fn interface_name(ty: TypeView, classes: Seq<Seq<char>>) -> Option<Seq<char>> {
    match ty {
        TypeView::Pointer(inner) => match *inner {
            TypeView::Struct { name, .. } => if classes.contains(name) {
                Some(name)
            } else {
                None
            },
            TypeView::Opaque { name, .. } => if classes.contains(name) {
                Some(name)
            } else {
                None
            },
            _ => None,
        },
        TypeView::Struct { name, .. } => wrapped_interface(name, classes),
        TypeView::Opaque { name, .. } => wrapped_interface(name, classes),
        _ => None,
    }
}

fn find_smart_interface(name: &str, wrap: &str, classes: &[String]) -> (r: Option<String>)
    ensures
        opt_string(r) == smart_interface(name@, wrap@, views(classes@)),
{
    broadcast use {group_append, group_views};
    if let Some(rest) = strip_prefix(name, wrap) {
        if let Some(end) = position(rest, ">") {
            let inner = trim(trim_end(trim(rest.substring_char(0, end)), CharSet::Is('*')));
            let list = split_whitespace(inner);
            let simple = if list.len() > 0 {
                assert(views(list@)[0] == list@[0]@);
                list[0].clone()
            } else {
                owned(inner)
            };
            if slice_has(classes, simple.as_str()) {
                return Some(simple);
            }
        }
    }
    None
}

fn find_wrapped_interface(name: &str, classes: &[String]) -> (r: Option<String>)
    ensures
        opt_string(r) == wrapped_interface(name@, views(classes@)),
{
    let a = find_smart_interface(name, "std::unique_ptr<", classes);
    if a.is_some() {
        return a;
    }
    let b = find_smart_interface(name, "unique_ptr<", classes);
    if b.is_some() {
        return b;
    }
    let c = find_smart_interface(name, "std::shared_ptr<", classes);
    if c.is_some() {
        return c;
    }
    find_smart_interface(name, "shared_ptr<", classes)
}

/// The interface that a field points to, as a plain or as a smart pointer.
pub fn field_interface_name(ty: &TypeInfo, interface_classes: &[String]) -> (r: Option<String>)
    ensures
        opt_string(r) == interface_name(ty@, views(interface_classes@)),
{
    proof {
        reveal_with_fuel(type_view, 2);
    }
    match ty {
        TypeInfo::Pointer(inner) => match &**inner {
            TypeInfo::Struct { name, .. } => if slice_has(interface_classes, name.as_str()) {
                Some(name.clone())
            } else {
                None
            },
            TypeInfo::Opaque { name, .. } => if slice_has(interface_classes, name.as_str()) {
                Some(name.clone())
            } else {
                None
            },
            _ => None,
        },
        TypeInfo::Struct { name, .. } => find_wrapped_interface(name.as_str(), interface_classes),
        TypeInfo::Opaque { name, .. } => find_wrapped_interface(name.as_str(), interface_classes),
        _ => None,
    }
}

/// What a field is, apart from how it is stored: its name, and the
/// interface that it points to.
pub open spec fn kind_view(k: FieldKind) -> (Seq<char>, Option<Seq<char>>) {
    match k {
        FieldKind::Interface(name, iface) => (name@, Some(iface@)),
        FieldKind::Other(name) => (name@, None),
    }
}

pub open spec fn kinds_view(v: Seq<FieldKind>) -> Seq<(Seq<char>, Option<Seq<char>>)> {
    Seq::new(v.len(), |i: int| kind_view(v[i]))
}

pub open spec fn field_kinds(
    fields: Seq<(String, TypeInfo)>,
    classes: Seq<Seq<char>>,
) -> Seq<(Seq<char>, Option<Seq<char>>)> {
    Seq::new(fields.len(), |i: int| (fields[i].0@, interface_name(fields[i].1@, classes)))
}

/// Does one of the fields point to an interface?
pub open spec fn holds_interface(kinds: Seq<(Seq<char>, Option<Seq<char>>)>) -> bool {
    exists|i: int| 0 <= i < kinds.len() && (#[trigger] kinds[i]).1 is Some
}

/// The fields of a class that is no interface and that holds an interface
/// pointer; `None` for any other type.
pub open spec fn container_of(
    ty: &TypeInfo,
    classes: Seq<Seq<char>>,
) -> Option<Seq<(Seq<char>, Option<Seq<char>>)>> {
    match ty {
        TypeInfo::Pointer(inner) => match **inner {
            TypeInfo::Struct { name, fields, .. } => {
                let kinds = field_kinds(fields@, classes);
                if !classes.contains(name@) && holds_interface(kinds) {
                    Some(kinds)
                } else {
                    None
                }
            },
            _ => None,
        },
        _ => None,
    }
}

pub open spec fn opt_kinds(
    o: Option<Vec<FieldKind>>,
) -> Option<Seq<(Seq<char>, Option<Seq<char>>)>> {
    match o {
        Some(v) => Some(kinds_view(v@)),
        None => None,
    }
}

/// The fields of a class that is no interface and that holds an interface
/// pointer; `None` for any other type.
pub fn container_layout_for(ty: &TypeInfo, interface_classes: &[String]) -> (r: Option<
    Vec<FieldKind>,
>)
    ensures
        opt_kinds(r) == container_of(ty, views(interface_classes@)),
{
    broadcast use {group_append, group_views};
    let ghost classes = views(interface_classes@);
    if let TypeInfo::Pointer(inner) = ty {
        if let TypeInfo::Struct { name, fields, .. } = &**inner {
            if slice_has(interface_classes, name.as_str()) {
                return None;
            }
            let ghost want = field_kinds(fields@, classes);
            let mut kinds: Vec<FieldKind> = Vec::new();
            let mut any = false;
            let mut i: usize = 0;
            while i < fields.len()
                invariant
                    classes == views(interface_classes@),
                    want == field_kinds(fields@, classes),
                    i <= fields@.len(),
                    kinds@.len() == i,
                    forall|k: int| 0 <= k < i ==> kind_view(#[trigger] kinds@[k]) == want[k],
                    any == exists|k: int| 0 <= k < i && (#[trigger] want[k]).1 is Some,
                decreases fields@.len() - i,
            {
                assert(want[i as int].0 == fields@[i as int].0@);
                match field_interface_name(&fields[i].1, interface_classes) {
                    Some(iface) => {
                        any = true;
                        assert(want[i as int].1 is Some);
                        kinds.push(FieldKind::Interface(fields[i].0.clone(), iface));
                    },
                    None => {
                        kinds.push(FieldKind::Other(fields[i].0.clone()));
                    },
                }
                i += 1;
            }
            assert(kinds_view(kinds@) =~= want);
            if any {
                return Some(kinds);
            }
        }
    }
    None
}

/// The allocation of field `i` of an object that holds interface pointers.
pub open spec fn container_field(
    param: Seq<char>,
    kind: (Seq<char>, Option<Seq<char>>),
    i: nat,
) -> Seq<char> {
    match kind.1 {
        Some(iface) => "    "@ + param + "_f"@ + dec(i) + " <- alloc_"@ + lower_id(iface) + "_this;  // "@
            + kind.0 + " : "@ + iface + "*\n"@,
        None => "    "@ + param + "_f"@ + dec(i) + " <- llvm_alloc (llvm_int 64);  // "@ + kind.0
            + " (opaque slot)\n"@,
    }
}

pub open spec fn container_fields(
    param: Seq<char>,
    kinds: Seq<(Seq<char>, Option<Seq<char>>)>,
) -> Seq<char>
    decreases kinds.len(),
{
    if kinds.len() == 0 {
        nil()
    } else {
        container_fields(param, kinds.drop_last()) + container_field(
            param,
            kinds.last(),
            (kinds.len() - 1) as nat,
        )
    }
}

pub open spec fn container_slots(param: Seq<char>, n: nat) -> Seq<Seq<char>> {
    Seq::new(n, |i: int| param + "_f"@ + dec(i as nat))
}

/// An object that holds interface pointers.
pub open spec fn container_text(
    param: Seq<char>,
    kinds: Seq<(Seq<char>, Option<Seq<char>>)>,
) -> Seq<char> {
    "    // "@ + param + ": container class with interface fields — wire each vptr.\n"@
        + container_fields(param, kinds) + "    "@ + param + "_ptr <- llvm_alloc (llvm_array "@
        + dec(kinds.len()) + " (llvm_int 64));\n"@ + "    llvm_points_to "@ + param
        + "_ptr (llvm_packed_struct_value ["@
        + joined(container_slots(param, kinds.len()), ", "@) + "]);\n"@
}

fn put_container_field(out: &mut String, param: &str, kind: &FieldKind, i: usize)
    ensures
        final(out)@ == old(out)@ + container_field(param@, kind_view(*kind), i as nat),
{
    broadcast use {group_append, group_views};
    match kind {
        FieldKind::Interface(name, iface) => {
            let safe = sanitize_lower(iface.as_str());
            put3(out, "    ", param, "_f");
            put_dec(out, i as u128);
            put7(
                out,
                " <- alloc_",
                safe.as_str(),
                "_this;  // ",
                name.as_str(),
                " : ",
                iface.as_str(),
                "*\n",
            );
        },
        FieldKind::Other(name) => {
            put3(out, "    ", param, "_f");
            put_dec(out, i as u128);
            put3(out, " <- llvm_alloc (llvm_int 64);  // ", name.as_str(), " (opaque slot)\n");
        },
    }
}

fn put_container_fields(out: &mut String, param: &str, fields: &[FieldKind])
    ensures
        final(out)@ == old(out)@ + container_fields(param@, kinds_view(fields@)),
{
    broadcast use lemma_append_nothing;

    let ghost w = kinds_view(fields@);
    let mut i: usize = 0;
    assert(container_fields(param@, w.take(0)) =~= nil());
    while i < fields.len()
        invariant
            w == kinds_view(fields@),
            i <= fields@.len(),
            out@ == old(out)@ + container_fields(param@, w.take(i as int)),
        decreases fields@.len() - i,
    {
        proof {
            assert(w.take(i + 1).drop_last() =~= w.take(i as int));
            lemma_append_assoc(
                old(out)@,
                container_fields(param@, w.take(i as int)),
                container_field(param@, w[i as int], i as nat),
            );
        }
        put_container_field(out, param, &fields[i], i);
        i += 1;
    }
    assert(w.take(w.len() as int) =~= w);
}

fn container_slot_list(param: &str, n: usize) -> (r: Vec<String>)
    ensures
        views(r@) == container_slots(param@, n as nat),
{
    broadcast use {group_append, group_views};
    let mut r: Vec<String> = Vec::new();
    let mut i: usize = 0;
    while i < n
        invariant
            i <= n,
            r@.len() == i,
            forall|k: int| 0 <= k < i ==> (#[trigger] r@[k])@ == param@ + "_f"@ + dec(k as nat),
        decreases n - i,
    {
        let mut s = String::new();
        put2(&mut s, param, "_f");
        put_dec(&mut s, i as u128);
        r.push(s);
        i += 1;
    }
    assert(views(r@) =~= container_slots(param@, n as nat));
    r
}

/// Emits an object that holds interface pointers: each such field points
/// to an object of its class, every other field to a fresh slot.
pub fn emit_container_this(out: &mut String, param_name: &str, fields: &[FieldKind])
    ensures
        final(out)@ == old(out)@ + container_text(param_name@, kinds_view(fields@)),
{
    broadcast use {group_append, group_views};
    let param = param_name;
    put3(out, "    // ", param, ": container class with interface fields — wire each vptr.\n");
    put_container_fields(out, param, fields);
    let slots = container_slot_list(param, fields.len());
    put3(out, "    ", param, "_ptr <- llvm_alloc (llvm_array ");
    put_dec(out, fields.len() as u128);
    put(out, " (llvm_int 64));\n");
    put5(
        out,
        "    llvm_points_to ",
        param,
        "_ptr (llvm_packed_struct_value [",
        join(&slots, ", ").as_str(),
        "]);\n",
    );
}

} // verus!
