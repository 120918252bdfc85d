//! Stubs and specifications for the methods of Rust traits, for functions
//! that take `&dyn Trait` where the implementation is not known.

use vstd::prelude::*;

use crate::llvm_spec::{GeneratedFile, files_view};
use crate::text::{
    dec, group_append, group_views, join, joined, lemma_append_assoc, lemma_append_nothing,
    lemma_mentions_inside, lemma_mentions_more, mentions, nil, owned, put, put2, put3, put4, put5,
    put7, put_dec, starts, views,
};

verus! {

/// The traits of which stubs are needed.
#[derive(Debug)]
pub struct TraitSchema {
    pub traits: Vec<Trait>,
}

#[derive(Debug)]
pub struct Trait {
    pub name: String,
    pub methods: Vec<Method>,
}

#[derive(Debug)]
pub struct Method {
    pub name: String,
    pub args: Vec<RustType>,
    pub ret: RustType,
}

/// The types that a specification can model.
#[derive(Debug, Clone, Copy, PartialEq, Eq, Structural)]
pub enum RustType {
    Bool,
    U8,
    U16,
    U32,
    U64,
    I8,
    I16,
    I32,
    I64,
    Usize,
    Isize,
    /// A reference.
    Ref,
    /// A raw pointer.
    Ptr,
    /// No value.
    Unit,
}

impl RustType {
    /// The IR type.
    pub open spec fn ir(self) -> Seq<char> {
        match self {
            RustType::Bool => "i1"@,
            RustType::U8 | RustType::I8 => "i8"@,
            RustType::U16 | RustType::I16 => "i16"@,
            RustType::U32 | RustType::I32 => "i32"@,
            RustType::U64 | RustType::I64 | RustType::Usize | RustType::Isize => "i64"@,
            RustType::Ref | RustType::Ptr => "ptr"@,
            RustType::Unit => "void"@,
        }
    }

    /// The width of an integer; `None` for other types.
    pub open spec fn bits(self) -> Option<u32> {
        match self {
            RustType::U8 | RustType::I8 => Some(8u32),
            RustType::U16 | RustType::I16 => Some(16u32),
            RustType::U32 | RustType::I32 => Some(32u32),
            RustType::U64 | RustType::I64 | RustType::Usize | RustType::Isize => Some(64u32),
            _ => None,
        }
    }

    /// Is a value of the type an address?
    pub open spec fn pointer(self) -> bool {
        self is Ref || self is Ptr
    }

    /// The IR type.
    pub fn llvm_ty(&self) -> (r: &'static str)
        ensures
            r@ == self.ir(),
    {
        match self {
            RustType::Bool => "i1",
            RustType::U8 | RustType::I8 => "i8",
            RustType::U16 | RustType::I16 => "i16",
            RustType::U32 | RustType::I32 => "i32",
            RustType::U64 | RustType::I64 | RustType::Usize | RustType::Isize => "i64",
            RustType::Ref | RustType::Ptr => "ptr",
            RustType::Unit => "void",
        }
    }

    /// The width of an integer; `None` for other types.
    pub fn int_bits(&self) -> (r: Option<u32>)
        ensures
            r == self.bits(),
    {
        match self {
            RustType::U8 | RustType::I8 => Some(8),
            RustType::U16 | RustType::I16 => Some(16),
            RustType::U32 | RustType::I32 => Some(32),
            RustType::U64 | RustType::I64 | RustType::Usize | RustType::Isize => Some(64),
            _ => None,
        }
    }
}

/// What is done at each part of a schema. Each step takes the state that
/// the visitor was in to the next one.
pub trait TraitVisitor: Sized {
    /// The state of a visitor.
    type S;

    spec fn state(&self) -> Self::S;

    spec fn schema_started(s: Self::S, schema: &TraitSchema) -> Self::S;

    spec fn trait_started(s: Self::S, t: &Trait) -> Self::S;

    spec fn method_seen(s: Self::S, t: &Trait, m: &Method, slot: nat) -> Self::S;

    spec fn trait_ended(s: Self::S, t: &Trait) -> Self::S;

    spec fn schema_ended(s: Self::S, schema: &TraitSchema) -> Self::S;

    fn visit_schema_start(&mut self, s: &TraitSchema)
        ensures
            final(self).state() == Self::schema_started(old(self).state(), s),
    ;

    fn visit_trait_start(&mut self, t: &Trait)
        ensures
            final(self).state() == Self::trait_started(old(self).state(), t),
    ;

    fn visit_method(&mut self, t: &Trait, m: &Method, slot: usize)
        ensures
            final(self).state() == Self::method_seen(old(self).state(), t, m, slot as nat),
    ;

    fn visit_trait_end(&mut self, t: &Trait)
        ensures
            final(self).state() == Self::trait_ended(old(self).state(), t),
    ;

    fn visit_schema_end(&mut self, s: &TraitSchema)
        ensures
            final(self).state() == Self::schema_ended(old(self).state(), s),
    ;
}

/// The state after the first `n` methods of a trait.
pub open spec fn methods_walked<V: TraitVisitor>(s: V::S, t: &Trait, n: nat) -> V::S
    decreases n,
{
    if n == 0 {
        s
    } else {
        V::method_seen(
            methods_walked::<V>(s, t, (n - 1) as nat),
            t,
            &t.methods@[n - 1],
            (n - 1) as nat,
        )
    }
}

/// The state after the first `n` traits.
pub open spec fn traits_walked<V: TraitVisitor>(s: V::S, traits: Seq<Trait>, n: nat) -> V::S
    decreases n,
{
    if n == 0 {
        s
    } else {
        let t = &traits[n - 1];
        let before = V::trait_started(traits_walked::<V>(s, traits, (n - 1) as nat), t);
        V::trait_ended(methods_walked::<V>(before, t, t.methods@.len()), t)
    }
}

/// The state after the schema.
pub open spec fn walked<V: TraitVisitor>(s: V::S, schema: &TraitSchema) -> V::S {
    V::schema_ended(
        traits_walked::<V>(
            V::schema_started(s, schema),
            schema.traits@,
            schema.traits@.len(),
        ),
        schema,
    )
}

fn walk_methods<V: TraitVisitor>(t: &Trait, v: &mut V)
    ensures
        final(v).state() == methods_walked::<V>(old(v).state(), t, t.methods@.len()),
{
    let mut i: usize = 0;
    while i < t.methods.len()
        invariant
            i <= t.methods@.len(),
            v.state() == methods_walked::<V>(old(v).state(), t, i as nat),
        decreases t.methods@.len() - i,
    {
        v.visit_method(t, &t.methods[i], i);
        i += 1;
    }
}

/// Leads a visitor over the whole schema.
pub fn walk<V: TraitVisitor>(schema: &TraitSchema, v: &mut V)
    ensures
        final(v).state() == walked::<V>(old(v).state(), schema),
{
    v.visit_schema_start(schema);
    let ghost first = v.state();
    let mut i: usize = 0;
    while i < schema.traits.len()
        invariant
            i <= schema.traits@.len(),
            v.state() == traits_walked::<V>(first, schema.traits@, i as nat),
        decreases schema.traits@.len() - i,
    {
        let t = &schema.traits[i];
        v.visit_trait_start(t);
        walk_methods(t, v);
        v.visit_trait_end(t);
        i += 1;
    }
    v.visit_schema_end(schema);
}

/// The name of the stub of a method.
pub open spec fn trait_stub_name(t: Seq<char>, m: Seq<char>) -> Seq<char> {
    "__stub_"@ + t + "_"@ + m
}

fn make_stub_name(t: &Trait, m: &Method) -> (r: String)
    ensures
        r@ == trait_stub_name(t.name@, m.name@),
{
    broadcast use {group_append, group_views};
    let mut r = String::new();
    put4(&mut r, "__stub_", t.name.as_str(), "_", m.name.as_str());
    r
}

/// The head of the module of stubs.
pub open spec fn stubs_head() -> Seq<char> {
    "; Auto-generated by saw-spec-gen: rust trait vtable stubs.\n"@
        + "; Layout matches what rustc emits for `&dyn Trait`:\n"@
        + ";   offset  0: drop_in_place (ptr)\n"@ + ";   offset  8: size           (i64)\n"@
        + ";   offset 16: align          (i64)\n"@ + ";   offset 24: first method   (ptr)\n\n"@
        + "target datalayout = \"e-m:w-p270:32:32-p271:32:32-p272:64:64-i64:64-f80:128-n8:16:32:64-S128\"\n"@
        + "target triple = \"x86_64-pc-windows-msvc\"\n\n"@
}

/// One parameter of a stub.
pub open spec fn stub_param(ty: RustType, i: nat) -> Seq<char> {
    ty.ir() + " %a"@ + dec(i)
}

/// The parameters of a stub.
pub open spec fn stub_params(args: Seq<RustType>) -> Seq<Seq<char>> {
    Seq::new(args.len(), |i: int| stub_param(args[i], i as nat))
}

/// The body of a stub: it returns zero or nothing.
pub open spec fn stub_body(ret: RustType) -> Seq<char> {
    match ret {
        RustType::Unit => "  ret void"@,
        RustType::Ref | RustType::Ptr => "  ret ptr null"@,
        RustType::Bool => "  ret i1 0"@,
        _ => "  ret "@ + ret.ir() + " 0"@,
    }
}

/// The stub of a method.
pub open spec fn stub_text(t: &Trait, m: &Method) -> Seq<char> {
    "define "@ + m.ret.ir() + " @"@ + trait_stub_name(t.name@, m.name@) + "("@
        + joined(stub_params(m.args@), ", "@) + ") {\n"@ + stub_body(m.ret) + "\n"@ + "}\n\n"@
}

fn make_stub_param(ty: &RustType, i: usize) -> (r: String)
    ensures
        r@ == stub_param(*ty, i as nat),
{
    broadcast use {group_append, group_views};
    let mut r = String::new();
    put2(&mut r, ty.llvm_ty(), " %a");
    put_dec(&mut r, i as u128);
    r
}

fn make_stub_params(args: &Vec<RustType>) -> (r: Vec<String>)
    ensures
        views(r@) == stub_params(args@),
{
    broadcast use {group_append, group_views};
    let mut r: Vec<String> = Vec::new();
    let mut i: usize = 0;
    while i < args.len()
        invariant
            i <= args@.len(),
            r@.len() == i,
            forall|k: int| 0 <= k < i ==> (#[trigger] r@[k])@ == stub_param(args@[k], k as nat),
        decreases args@.len() - i,
    {
        r.push(make_stub_param(&args[i], i));
        i += 1;
    }
    assert(views(r@) =~= stub_params(args@));
    r
}

fn make_stub_body(ret: &RustType) -> (r: String)
    ensures
        r@ == stub_body(*ret),
{
    broadcast use {group_append, group_views};
    match ret {
        RustType::Unit => owned("  ret void"),
        RustType::Ref | RustType::Ptr => owned("  ret ptr null"),
        RustType::Bool => owned("  ret i1 0"),
        _ => {
            let mut r = String::new();
            put3(&mut r, "  ret ", ret.llvm_ty(), " 0");
            r
        },
    }
}

fn put_stub(out: &mut String, t: &Trait, m: &Method)
    ensures
        final(out)@ == old(out)@ + stub_text(t, m),
{
    broadcast use {group_append, group_views};
    put7(
        out,
        "define ",
        m.ret.llvm_ty(),
        " @",
        make_stub_name(t, m).as_str(),
        "(",
        join(&make_stub_params(&m.args), ", ").as_str(),
        ") {\n",
    );
    put2(out, make_stub_body(&m.ret).as_str(), "\n");
    put(out, "}\n\n");
}

/// The types of the slots of a virtual table: three of the object, and
/// one for each method.
pub open spec fn slot_types(n: nat) -> Seq<Seq<char>>
    decreases n,
{
    if n == 0 {
        seq!["ptr"@, "i64"@, "i64"@]
    } else {
        slot_types((n - 1) as nat).push("ptr"@)
    }
}

/// The value of the slot of a method.
pub open spec fn slot_value(t: Seq<char>, m: Seq<char>) -> Seq<char> {
    "ptr @"@ + trait_stub_name(t, m)
}

/// The values of the slots, for the first `n` methods.
pub open spec fn slot_values(t: &Trait, n: nat) -> Seq<Seq<char>>
    decreases n,
{
    if n == 0 {
        seq!["ptr null"@, "i64 0"@, "i64 1"@]
    } else {
        slot_values(t, (n - 1) as nat).push(slot_value(t.name@, t.methods@[n - 1].name@))
    }
}

/// The virtual table of a trait.
pub open spec fn vtable_text(t: &Trait) -> Seq<char> {
    let n = t.methods@.len();
    let values = joined(slot_values(t, n), ",\n  "@);
    "@__stubvtable_"@ + t.name@ + " = constant { "@ + joined(slot_types(n), ", "@)
        + " } {\n"@ + "  "@ + values + "\n"@ + "}\n\n"@
}

/// The slot of each method holds its stub, behind the three slots of the
/// object.
pub proof fn law_slots(t: &Trait, n: nat)
    requires
        n <= t.methods@.len(),
    ensures
        slot_types(n).len() == n + 3,
        slot_values(t, n).len() == n + 3,
        forall|i: int|
            0 <= i < n ==> #[trigger] slot_values(t, n)[i + 3] == slot_value(
                t.name@,
                t.methods@[i].name@,
            ),
    decreases n,
{
    if n > 0 {
        law_slots(t, (n - 1) as nat);
        assert forall|i: int| 0 <= i < n implies #[trigger] slot_values(t, n)[i + 3] == slot_value(
            t.name@,
            t.methods@[i].name@,
        ) by {
            if i < n - 1 {
                assert(slot_values(t, (n - 1) as nat)[i + 3] == slot_value(
                    t.name@,
                    t.methods@[i].name@,
                ));
            }
        }
    }
}

fn make_slot_value(t: &Trait, m: &Method) -> (r: String)
    ensures
        r@ == slot_value(t.name@, m.name@),
{
    broadcast use {group_append, group_views};
    let mut r = String::new();
    put2(&mut r, "ptr @", make_stub_name(t, m).as_str());
    r
}

fn make_slots(t: &Trait) -> (r: (Vec<String>, Vec<String>))
    ensures
        views(r.0@) == slot_types(t.methods@.len()),
        views(r.1@) == slot_values(t, t.methods@.len()),
{
    broadcast use {group_append, group_views};
    let mut types: Vec<String> = Vec::new();
    types.push(owned("ptr"));
    types.push(owned("i64"));
    types.push(owned("i64"));
    let mut values: Vec<String> = Vec::new();
    values.push(owned("ptr null"));
    values.push(owned("i64 0"));
    values.push(owned("i64 1"));
    let mut i: usize = 0;
    assert(views(types@) =~= slot_types(0));
    assert(views(values@) =~= slot_values(t, 0));
    while i < t.methods.len()
        invariant
            i <= t.methods@.len(),
            views(types@) == slot_types(i as nat),
            views(values@) == slot_values(t, i as nat),
        decreases t.methods@.len() - i,
    {
        types.push(owned("ptr"));
        values.push(make_slot_value(t, &t.methods[i]));
        i += 1;
    }
    (types, values)
}

fn put_vtable(out: &mut String, t: &Trait)
    ensures
        final(out)@ == old(out)@ + vtable_text(t),
{
    broadcast use {group_append, group_views};
    let (types, values) = make_slots(t);
    let list = join(&values, ",\n  ");
    put5(
        out,
        "@__stubvtable_",
        t.name.as_str(),
        " = constant { ",
        join(&types, ", ").as_str(),
        " } {\n",
    );
    put3(out, "  ", list.as_str(), "\n");
    put(out, "}\n\n");
}

/// Emits a module with a stub for each method and a virtual table for
/// each trait, in the layout of trait objects.
pub struct LlvmStubEmitter {
    out: String,
}

impl LlvmStubEmitter {
    pub fn new() -> (r: LlvmStubEmitter)
        ensures
            r.state() == stubs_head(),
    {
        let mut s = LlvmStubEmitter { out: String::new() };
        s.preamble();
        s
    }

    /// The module.
    pub fn finish(self) -> (r: String)
        ensures
            r@ == self.state(),
    {
        self.out
    }

    fn preamble(&mut self)
        ensures
            final(self).state() == old(self).state() + stubs_head(),
    {
        broadcast use {group_append, group_views};
        put(&mut self.out, "; Auto-generated by saw-spec-gen: rust trait vtable stubs.\n");
        put(&mut self.out, "; Layout matches what rustc emits for `&dyn Trait`:\n");
        put(&mut self.out, ";   offset  0: drop_in_place (ptr)\n");
        put(&mut self.out, ";   offset  8: size           (i64)\n");
        put(&mut self.out, ";   offset 16: align          (i64)\n");
        put(&mut self.out, ";   offset 24: first method   (ptr)\n\n");
        put(
            &mut self.out,
            "target datalayout = \"e-m:w-p270:32:32-p271:32:32-p272:64:64-i64:64-f80:128-n8:16:32:64-S128\"\n",
        );
        put(&mut self.out, "target triple = \"x86_64-pc-windows-msvc\"\n\n");
    }
}

impl Default for LlvmStubEmitter {
    fn default() -> (r: LlvmStubEmitter)
        ensures
            r.state() == stubs_head(),
    {
        LlvmStubEmitter::new()
    }
}

impl TraitVisitor for LlvmStubEmitter {
    type S = Seq<char>;

    closed spec fn state(&self) -> Seq<char> {
        self.out@
    }

    open spec fn schema_started(s: Seq<char>, schema: &TraitSchema) -> Seq<char> {
        s
    }

    open spec fn trait_started(s: Seq<char>, t: &Trait) -> Seq<char> {
        s
    }

    open spec fn method_seen(s: Seq<char>, t: &Trait, m: &Method, slot: nat) -> Seq<char> {
        s + stub_text(t, m)
    }

    open spec fn trait_ended(s: Seq<char>, t: &Trait) -> Seq<char> {
        s + vtable_text(t)
    }

    open spec fn schema_ended(s: Seq<char>, schema: &TraitSchema) -> Seq<char> {
        s
    }

    fn visit_schema_start(&mut self, _s: &TraitSchema) {
    }

    fn visit_trait_start(&mut self, _t: &Trait) {
    }

    fn visit_method(&mut self, t: &Trait, m: &Method, _slot: usize) {
        put_stub(&mut self.out, t, m);
    }

    fn visit_trait_end(&mut self, t: &Trait) {
        put_vtable(&mut self.out, t);
    }

    fn visit_schema_end(&mut self, _s: &TraitSchema) {
    }
}

/// The head of the script.
pub open spec fn trait_overrides_head() -> Seq<char> {
    "// Auto-generated by saw-spec-gen. INCLUDE AFTER `m <- llvm_load_module ...`.\n"@
        + "//\n"@ + "// For each trait method we expose:\n"@
        + "//   <Trait>_<method>_ret : a `fresh_symbolic` SAW Term reusable in\n"@
        + "//                          your outer verify-spec's postcondition.\n"@
        + "//   <Trait>_<method>_havoc_spec : a SAW LLVMSetup spec asserting the\n"@
        + "//                                 stub returns that symbol.\n"@
        + "// After all bindings we expose `trait_overrides : [LLVMOverride]`.\n"@
}

/// The width that an argument is modelled with.
pub open spec fn arg_bits(ty: RustType) -> nat {
    match ty.bits() {
        Some(b) => b as nat,
        None => 32,
    }
}

/// The declaration of an argument.
pub open spec fn arg_line(ty: RustType, i: nat) -> Seq<char> {
    if ty.pointer() {
        "    a"@ + dec(i) + " <- llvm_alloc (llvm_int 8);  // ptr\n"@
    } else if ty is Unit {
        nil()
    } else {
        "    a"@ + dec(i) + " <- llvm_fresh_var \"a"@ + dec(i) + "\" (llvm_int "@
            + dec(arg_bits(ty)) + ");\n"@
    }
}

/// The declarations of the first `n` arguments.
pub open spec fn arg_lines(args: Seq<RustType>, n: nat) -> Seq<char>
    decreases n,
{
    if n == 0 {
        nil()
    } else {
        arg_lines(args, (n - 1) as nat) + arg_line(args[n - 1], (n - 1) as nat)
    }
}

/// An argument of the call.
pub open spec fn arg_term(ty: RustType, i: nat) -> Seq<char> {
    if ty.pointer() {
        "a"@ + dec(i)
    } else {
        "llvm_term a"@ + dec(i)
    }
}

/// The first `n` arguments of the call, those without a value left out.
pub open spec fn arg_terms(args: Seq<RustType>, n: nat) -> Seq<Seq<char>>
    decreases n,
{
    if n == 0 {
        Seq::empty()
    } else if args[n - 1] is Unit {
        arg_terms(args, (n - 1) as nat)
    } else {
        arg_terms(args, (n - 1) as nat).push(arg_term(args[n - 1], (n - 1) as nat))
    }
}

/// What a method is called in the script.
pub open spec fn method_id(t: &Trait, m: &Method) -> Seq<char> {
    t.name@ + "_"@ + m.name@
}

/// The name of the override of a method.
pub open spec fn method_override(t: &Trait, m: &Method) -> Seq<char> {
    "ov_"@ + method_id(t, m)
}

/// The variable for what a method returns, where that is an integer.
pub open spec fn fresh_line(id: Seq<char>, ret: RustType) -> Seq<char> {
    match ret.bits() {
        Some(bits) => "\n"@ + id + "_ret <- fresh_symbolic \""@ + id + "_ret\" {| ["@ + dec(bits as nat)
            + "] |};\n"@,
        None => nil(),
    }
}

/// The statement of what a method returns.
pub open spec fn return_lines(id: Seq<char>, ret: RustType) -> Seq<char> {
    if ret is Unit {
        nil()
    } else if ret.pointer() {
        "    ret_ptr <- llvm_alloc (llvm_int 8);\n    llvm_return ret_ptr;\n"@
    } else {
        "    llvm_return (llvm_term "@ + id + "_ret);\n"@
    }
}

/// The specification of a method and its override.
pub open spec fn method_text(t: &Trait, m: &Method) -> Seq<char> {
    let id = method_id(t, m);
    let n = m.args@.len();
    fresh_line(id, m.ret) + "let "@ + id + "_havoc_spec = do {\n"@ + arg_lines(m.args@, n)
        + "    llvm_execute_func ["@ + joined(arg_terms(m.args@, n), ", "@) + "];\n"@
        + return_lines(id, m.ret) + "};\n"@ + "ov_"@ + id + " <- llvm_unsafe_assume_spec m \""@
        + trait_stub_name(t.name@, m.name@) + "\" "@ + id + "_havoc_spec;\n"@
}

fn put_arg_line(out: &mut String, ty: &RustType, i: usize)
    ensures
        final(out)@ == old(out)@ + arg_line(*ty, i as nat),
{
    broadcast use {group_append, group_views};
    match ty {
        RustType::Ref | RustType::Ptr => {
            put(out, "    a");
            put_dec(out, i as u128);
            put(out, " <- llvm_alloc (llvm_int 8);  // ptr\n");
        },
        RustType::Unit => {},
        _ => {
            let bits: u32 = match ty.int_bits() {
                Some(b) => b,
                None => 32,
            };
            put(out, "    a");
            put_dec(out, i as u128);
            put(out, " <- llvm_fresh_var \"a");
            put_dec(out, i as u128);
            put(out, "\" (llvm_int ");
            put_dec(out, bits as u128);
            put(out, ");\n");
        },
    }
}

fn put_arg_lines(out: &mut String, args: &Vec<RustType>)
    ensures
        final(out)@ == old(out)@ + arg_lines(args@, args@.len()),
{
    broadcast use lemma_append_nothing;
    let mut i: usize = 0;
    while i < args.len()
        invariant
            i <= args@.len(),
            out@ == old(out)@ + arg_lines(args@, i as nat),
        decreases args@.len() - i,
    {
        proof {
            lemma_append_assoc(
                old(out)@,
                arg_lines(args@, i as nat),
                arg_line(args@[i as int], i as nat),
            );
        }
        put_arg_line(out, &args[i], i);
        i += 1;
    }
}

fn make_arg_term(ty: &RustType, i: usize) -> (r: String)
    ensures
        r@ == arg_term(*ty, i as nat),
{
    broadcast use {group_append, group_views};
    let mut r = String::new();
    match ty {
        RustType::Ref | RustType::Ptr => {
            put(&mut r, "a");
            put_dec(&mut r, i as u128);
        },
        _ => {
            put(&mut r, "llvm_term a");
            put_dec(&mut r, i as u128);
        },
    }
    r
}

fn make_arg_terms(args: &Vec<RustType>) -> (r: Vec<String>)
    ensures
        views(r@) == arg_terms(args@, args@.len()),
{
    broadcast use {group_append, group_views};
    let mut r: Vec<String> = Vec::new();
    let mut i: usize = 0;
    while i < args.len()
        invariant
            i <= args@.len(),
            views(r@) == arg_terms(args@, i as nat),
        decreases args@.len() - i,
    {
        match args[i] {
            RustType::Unit => {},
            _ => {
                r.push(make_arg_term(&args[i], i));
            },
        }
        i += 1;
    }
    r
}

fn put_fresh_line(out: &mut String, id: &str, ret: &RustType)
    ensures
        final(out)@ == old(out)@ + fresh_line(id@, *ret),
{
    broadcast use {group_append, group_views};
    if let Some(bits) = ret.int_bits() {
        put5(out, "\n", id, "_ret <- fresh_symbolic \"", id, "_ret\" {| [");
        put_dec(out, bits as u128);
        put(out, "] |};\n");
    }
}

fn put_return_lines(out: &mut String, id: &str, ret: &RustType)
    ensures
        final(out)@ == old(out)@ + return_lines(id@, *ret),
{
    broadcast use {group_append, group_views};
    match ret {
        RustType::Unit => {},
        RustType::Ref | RustType::Ptr => {
            put(out, "    ret_ptr <- llvm_alloc (llvm_int 8);\n    llvm_return ret_ptr;\n");
        },
        _ => {
            put3(out, "    llvm_return (llvm_term ", id, "_ret);\n");
        },
    }
}

fn make_method_id(t: &Trait, m: &Method) -> (r: String)
    ensures
        r@ == method_id(t, m),
{
    broadcast use {group_append, group_views};
    let mut r = String::new();
    put3(&mut r, t.name.as_str(), "_", m.name.as_str());
    r
}

fn put_method(out: &mut String, t: &Trait, m: &Method)
    ensures
        final(out)@ == old(out)@ + method_text(t, m),
{
    broadcast use {group_append, group_views};
    let name = make_method_id(t, m);
    let id = name.as_str();
    put_fresh_line(out, id, &m.ret);
    put3(out, "let ", id, "_havoc_spec = do {\n");
    put_arg_lines(out, &m.args);
    put3(out, "    llvm_execute_func [", join(&make_arg_terms(&m.args), ", ").as_str(), "];\n");
    put_return_lines(out, id, &m.ret);
    put(out, "};\n");
    put7(
        out,
        "ov_",
        id,
        " <- llvm_unsafe_assume_spec m \"",
        make_stub_name(t, m).as_str(),
        "\" ",
        id,
        "_havoc_spec;\n",
    );
}

/// Emits a script with a specification and an override for each method,
/// and a list of all overrides.
pub struct SawSpecEmitter {
    out: String,
    override_idents: Vec<String>,
}

/// The script, given its text so far and the overrides.
pub open spec fn with_override_list(s: (Seq<char>, Seq<Seq<char>>)) -> Seq<char> {
    s.0 + "\nlet trait_overrides = ["@ + joined(s.1, ", "@) + "];\n"@
}

impl SawSpecEmitter {
    pub fn new() -> (r: SawSpecEmitter)
        ensures
            r.state() == (nil(), Seq::<Seq<char>>::empty()),
    {
        broadcast use {group_append, group_views};
        let r = SawSpecEmitter { out: String::new(), override_idents: Vec::new() };
        assert(views(r.override_idents@) =~= Seq::<Seq<char>>::empty());
        r
    }

    /// The script.
    pub fn finish(self) -> (r: String)
        ensures
            r@ == with_override_list(self.state()),
    {
        broadcast use {group_append, group_views};
        let mut out = self.out;
        put3(
            &mut out,
            "\nlet trait_overrides = [",
            join(&self.override_idents, ", ").as_str(),
            "];\n",
        );
        out
    }
}

impl Default for SawSpecEmitter {
    fn default() -> (r: SawSpecEmitter)
        ensures
            r.state() == (nil(), Seq::<Seq<char>>::empty()),
    {
        SawSpecEmitter::new()
    }
}

impl TraitVisitor for SawSpecEmitter {
    type S = (Seq<char>, Seq<Seq<char>>);

    closed spec fn state(&self) -> (Seq<char>, Seq<Seq<char>>) {
        (self.out@, views(self.override_idents@))
    }

    open spec fn schema_started(s: (Seq<char>, Seq<Seq<char>>), schema: &TraitSchema) -> (
        Seq<char>,
        Seq<Seq<char>>,
    ) {
        (s.0 + trait_overrides_head(), s.1)
    }

    open spec fn trait_started(s: (Seq<char>, Seq<Seq<char>>), t: &Trait) -> (
        Seq<char>,
        Seq<Seq<char>>,
    ) {
        s
    }

    open spec fn method_seen(
        s: (Seq<char>, Seq<Seq<char>>),
        t: &Trait,
        m: &Method,
        slot: nat,
    ) -> (Seq<char>, Seq<Seq<char>>) {
        (s.0 + method_text(t, m), s.1.push(method_override(t, m)))
    }

    open spec fn trait_ended(s: (Seq<char>, Seq<Seq<char>>), t: &Trait) -> (
        Seq<char>,
        Seq<Seq<char>>,
    ) {
        s
    }

    open spec fn schema_ended(s: (Seq<char>, Seq<Seq<char>>), schema: &TraitSchema) -> (
        Seq<char>,
        Seq<Seq<char>>,
    ) {
        s
    }

    fn visit_schema_start(&mut self, _s: &TraitSchema) {
        broadcast use {group_append, group_views};

        put(
            &mut self.out,
            "// Auto-generated by saw-spec-gen. INCLUDE AFTER `m <- llvm_load_module ...`.\n",
        );
        put(&mut self.out, "//\n");
        put(&mut self.out, "// For each trait method we expose:\n");
        put(&mut self.out, "//   <Trait>_<method>_ret : a `fresh_symbolic` SAW Term reusable in\n");
        put(&mut self.out, "//                          your outer verify-spec's postcondition.\n");
        put(
            &mut self.out,
            "//   <Trait>_<method>_havoc_spec : a SAW LLVMSetup spec asserting the\n",
        );
        put(&mut self.out, "//                                 stub returns that symbol.\n");
        put(&mut self.out, "// After all bindings we expose `trait_overrides : [LLVMOverride]`.\n");
    }

    fn visit_trait_start(&mut self, _t: &Trait) {
    }

    fn visit_method(&mut self, t: &Trait, m: &Method, _slot: usize) {
        broadcast use {group_append, group_views};

        put_method(&mut self.out, t, m);
        let mut name = String::new();
        put2(&mut name, "ov_", make_method_id(t, m).as_str());
        self.override_idents.push(name);
    }

    fn visit_trait_end(&mut self, _t: &Trait) {
    }

    fn visit_schema_end(&mut self, _s: &TraitSchema) {
    }
}

/// The overrides of the first `n` methods of a trait, in order.
pub open spec fn trait_override_names(t: &Trait, n: nat) -> Seq<Seq<char>> {
    Seq::new(n, |i: int| method_override(t, &t.methods@[i]))
}

/// The overrides of the methods of the first `n` traits, in order.
pub open spec fn override_names(traits: Seq<Trait>, n: nat) -> Seq<Seq<char>>
    decreases n,
{
    if n == 0 {
        Seq::empty()
    } else {
        let t = &traits[n - 1];
        override_names(traits, (n - 1) as nat) + trait_override_names(t, t.methods@.len())
    }
}

/// Does the script bind the override?
pub open spec fn binds(text: Seq<char>, name: Seq<char>) -> bool {
    mentions(text, name + " <- llvm_unsafe_assume_spec m \""@)
}

/// Does the text begin with the one given, and bind the overrides?
pub open spec fn extends_binding(
    before: Seq<char>,
    text: Seq<char>,
    names: Seq<Seq<char>>,
) -> bool {
    &&& starts(text, before)
    &&& forall|i: int| 0 <= i < names.len() ==> binds(text, #[trigger] names[i])
}

proof fn lemma_starts_further(a: Seq<char>, b: Seq<char>, c: Seq<char>)
    requires
        starts(b, a),
        starts(c, b),
    ensures
        starts(c, a),
{
    assert(c.subrange(0, a.len() as int) =~= b.subrange(0, a.len() as int));
}

proof fn lemma_binds_further(a: Seq<char>, b: Seq<char>, name: Seq<char>)
    requires
        starts(b, a),
        binds(a, name),
    ensures
        binds(b, name),
{
    let tail = b.subrange(a.len() as int, b.len() as int);
    assert(b =~= nil() + a + tail);
    lemma_mentions_more(nil(), a, tail, name + " <- llvm_unsafe_assume_spec m \""@);
}

#[verifier::rlimit(60)]
proof fn lemma_method_binds(before: Seq<char>, t: &Trait, m: &Method)
    ensures
        starts(before + method_text(t, m), before),
        binds(before + method_text(t, m), method_override(t, m)),
{
    let text = before + method_text(t, m);
    assert(text.subrange(0, before.len() as int) =~= before);
    let id = method_id(t, m);
    let n = m.args@.len();
    let bound = method_override(t, m) + " <- llvm_unsafe_assume_spec m \""@;
    let head = before + fresh_line(id, m.ret) + "let "@ + id + "_havoc_spec = do {\n"@ + arg_lines(
        m.args@,
        n,
    ) + "    llvm_execute_func ["@ + joined(arg_terms(m.args@, n), ", "@) + "];\n"@
        + return_lines(id, m.ret) + "};\n"@;
    let tail = trait_stub_name(t.name@, m.name@) + "\" "@ + id + "_havoc_spec;\n"@;
    assert(text == head + bound + tail) by {
        broadcast use group_append;

    }
    lemma_mentions_inside(head, bound, tail);
}

proof fn lemma_methods_bound(s: (Seq<char>, Seq<Seq<char>>), t: &Trait, n: nat)
    requires
        n <= t.methods@.len(),
    ensures
        methods_walked::<SawSpecEmitter>(s, t, n).1 == s.1 + trait_override_names(t, n),
        extends_binding(
            s.0,
            methods_walked::<SawSpecEmitter>(s, t, n).0,
            trait_override_names(t, n),
        ),
    decreases n,
{
    if n > 0 {
        let m = &t.methods@[n - 1];
        let w = methods_walked::<SawSpecEmitter>(s, t, (n - 1) as nat);
        let x = methods_walked::<SawSpecEmitter>(s, t, n);
        let names = trait_override_names(t, n);
        let rest = trait_override_names(t, (n - 1) as nat);
        lemma_methods_bound(s, t, (n - 1) as nat);
        lemma_method_binds(w.0, t, m);
        lemma_starts_further(s.0, w.0, x.0);
        assert(names =~= rest.push(method_override(t, m)));
        assert(x.1 =~= s.1 + names);
        assert forall|i: int| 0 <= i < names.len() implies binds(x.0, #[trigger] names[i]) by {
            if i < n - 1 {
                assert(names[i] == rest[i]);
                lemma_binds_further(w.0, x.0, names[i]);
            }
        }
    } else {
        assert(s.1 + trait_override_names(t, 0) =~= s.1);
        assert(s.0.subrange(0, s.0.len() as int) =~= s.0);
    }
}

proof fn lemma_traits_bound(s: (Seq<char>, Seq<Seq<char>>), traits: Seq<Trait>, n: nat)
    requires
        n <= traits.len(),
    ensures
        traits_walked::<SawSpecEmitter>(s, traits, n).1 == s.1 + override_names(traits, n),
        extends_binding(
            s.0,
            traits_walked::<SawSpecEmitter>(s, traits, n).0,
            override_names(traits, n),
        ),
    decreases n,
{
    if n > 0 {
        let t = &traits[n - 1];
        let w = traits_walked::<SawSpecEmitter>(s, traits, (n - 1) as nat);
        let x = traits_walked::<SawSpecEmitter>(s, traits, n);
        let rest = override_names(traits, (n - 1) as nat);
        let own = trait_override_names(t, t.methods@.len());
        let names = override_names(traits, n);
        lemma_traits_bound(s, traits, (n - 1) as nat);
        lemma_methods_bound(w, t, t.methods@.len());
        lemma_starts_further(s.0, w.0, x.0);
        assert(x.1 =~= s.1 + names);
        assert forall|i: int| 0 <= i < names.len() implies binds(x.0, #[trigger] names[i]) by {
            if i < rest.len() {
                assert(names[i] == rest[i]);
                lemma_binds_further(w.0, x.0, names[i]);
            } else {
                assert(names[i] == own[i - rest.len()]);
            }
        }
    } else {
        assert(s.1 + override_names(traits, 0) =~= s.1);
        assert(s.0.subrange(0, s.0.len() as int) =~= s.0);
    }
}

/// The list at the end of the script names the override of every method, in
/// the order of the schema, and the text before the list binds each of
/// them.
pub proof fn law_one_override_per_method(schema: &TraitSchema)
    ensures
        ({
            let w = walked::<SawSpecEmitter>((nil(), Seq::<Seq<char>>::empty()), schema);
            let names = override_names(schema.traits@, schema.traits@.len());
            &&& w.1 == names
            &&& with_override_list(w) == w.0 + "\nlet trait_overrides = ["@ + joined(names, ", "@)
                + "];\n"@
            &&& forall|i: int| 0 <= i < names.len() ==> binds(w.0, #[trigger] names[i])
        }),
{
    let s = (nil(), Seq::<Seq<char>>::empty());
    let traits = schema.traits@;
    let w = walked::<SawSpecEmitter>(s, schema);
    let names = override_names(traits, traits.len());
    lemma_traits_bound(SawSpecEmitter::schema_started(s, schema), traits, traits.len());
    assert(s.1 + names =~= names);
    assert(with_override_list(w) =~= w.0 + "\nlet trait_overrides = ["@ + joined(names, ", "@)
        + "];\n"@);
}

/// The module of stubs and the script of overrides for a schema.
pub fn emit_trait_stubs(schema: &TraitSchema) -> (r: Vec<GeneratedFile>)
    ensures
        files_view(r@) == seq![
            ("trait_stubs.ll"@, walked::<LlvmStubEmitter>(stubs_head(), schema)),
            (
                "interface_overrides.saw"@,
                with_override_list(
                    walked::<SawSpecEmitter>((nil(), Seq::<Seq<char>>::empty()), schema),
                ),
            ),
        ],
{
    let mut llvm = LlvmStubEmitter::new();
    walk(schema, &mut llvm);
    let mut saw = SawSpecEmitter::new();
    walk(schema, &mut saw);
    let mut files: Vec<GeneratedFile> = Vec::new();
    files.push(GeneratedFile { name: owned("trait_stubs.ll"), content: llvm.finish() });
    files.push(GeneratedFile { name: owned("interface_overrides.saw"), content: saw.finish() });
    assert(files_view(files@) =~= seq![files@[0]@, files@[1]@]);
    files
}

} // verus!
