//! Overrides of functions that the bitcode calls and that cannot be
//! executed symbolically: functions that are only declared, bodies with
//! variable arguments, and parts of the runtime library.
//!
//! Each override takes any arguments, writes any byte through each pointer
//! argument and any value to the global variables that the function
//! writes, and returns any value. Known methods of standard containers are
//! modelled instead, and so is `memcmp` where all its calls have one
//! length; known results of runtime functions are pinned.

use vstd::prelude::*;

use crate::bitcode_overrides_functional::{
    ContainerCatalog, FunctionalLayouts, emit_shared_ghost_decl, functional_text, ghost_symbol,
    layouts_of, needs_vector_ghost, try_emit_functional,
};
use crate::bitcode_overrides_functional_string::layout_view;
use crate::bitcode_overrides_functional_vector::ghost_decl;
use crate::ir_layout::IrStructDef;
use crate::constraints::{globals_view, GlobalVarInfo, GlobalView, TypeInfo, TypeView};
use crate::memcmp_override::{emit_faithful_memcmp, length_text, memcmp_text};
use crate::names::{sanitize_name, sanitized};
use crate::status_primitives::{
    is_msvc_mutex_helper, is_noreturn_throw, msvc_mutex_helper, msvc_mutex_noop_return,
    mutex_primitive, noreturn_throw, success_sentinel,
};
use crate::text::{
    after_prefix, before_suffix, cut, dec, group_append, group_views, join, joined,
    lemma_append_assoc, lemma_append_nothing, lemma_views_push, list_has, nil, numeral, only_if,
    parse_bounded, parsed, put, put2, put3, put5, put6, put_dec, same, slice_has, split_once,
    strip_prefix, strip_suffix, trim, trim_text, views,
};

verus! {

/// Why a function cannot be executed symbolically.
#[derive(Debug, Clone, Copy, PartialEq, Eq, Structural)]
pub enum BrokenReason {
    DeclareOnly,
    UsesVarargsIntrinsic,
    StlOverride,
    MsvcMutexHelper,
}

/// A function to be overridden.
#[derive(Debug, PartialEq, Eq)]
pub struct OverrideTarget {
    pub symbol: String,
    pub is_variadic: bool,
    pub reason: BrokenReason,
    /// The IR types of the parameters before the variable ones.
    pub fixed_param_ir_types: Vec<String>,
    pub return_ir_type: String,
    /// The symbols of the global variables that the function may write.
    pub globals_written: Vec<String>,
}

/// A piece of script, and the names of the overrides that it binds.
#[derive(Debug, PartialEq, Eq)]
pub struct EmittedBitcodeOverrides {
    pub snippet: String,
    pub override_names: Vec<String>,
}

impl EmittedBitcodeOverrides {
    /// Does the script bind no override?
    pub fn is_empty(&self) -> (r: bool)
        ensures
            r == (self.override_names@.len() == 0),
    {
        self.override_names.len() == 0
    }

    /// The empty script.
    pub fn empty() -> (r: EmittedBitcodeOverrides)
        ensures
            r.snippet@ == nil(),
            r.override_names@.len() == 0,
    {
        EmittedBitcodeOverrides { snippet: String::new(), override_names: Vec::new() }
    }
}

/// The width of an IR integer type: an `i` and the number of bits.
pub open spec fn ir_int_bits(ty: Seq<char>) -> Option<nat> {
    match after_prefix(ty, "i"@) {
        Some(bits) => parsed(bits, u32::MAX as nat),
        None => None,
    }
}

fn int_bits(ty: &str) -> (r: Option<u32>)
    ensures
        match r {
            Some(n) => ir_int_bits(ty@) == Some(n as nat),
            None => ir_int_bits(ty@) is None,
        },
{
    match strip_prefix(ty, "i") {
        Some(bits) => match parse_bounded(bits, u32::MAX as u64) {
            Some(n) => Some(n as u32),
            None => None,
        },
        None => None,
    }
}

/// Is the parameter passed as an integer? Every other one is passed as a
/// pointer to bytes.
pub open spec fn passed_as_int(ty: Seq<char>) -> bool {
    ty != "ptr"@ && ir_int_bits(ty) is Some
}

/// The setup of parameter `i`.
pub open spec fn override_param(ty: Seq<char>, i: nat) -> Seq<char> {
    if passed_as_int(ty) {
        "    p"@ + dec(i) + " <- llvm_fresh_var \"p"@ + dec(i) + "\" (llvm_int "@
            + dec(ir_int_bits(ty)->0) + ");\n"@
    } else {
        "    p"@ + dec(i) + " <- llvm_fresh_pointer (llvm_int 8);\n"@
    }
}

/// How parameter `i` is passed.
pub open spec fn override_arg(ty: Seq<char>, i: nat) -> Seq<char> {
    if passed_as_int(ty) {
        "llvm_term p"@ + dec(i)
    } else {
        "p"@ + dec(i)
    }
}

/// After the call, a byte behind pointer parameter `i` holds any value.
pub open spec fn override_clobber(ty: Seq<char>, i: nat) -> Seq<char> {
    if passed_as_int(ty) {
        nil()
    } else {
        "    p"@ + dec(i) + "_after <- llvm_fresh_var \"p"@ + dec(i)
            + "_after\" (llvm_int 8);\n"@ + "    llvm_points_to_at_type p"@ + dec(i)
            + " (llvm_int 8) (llvm_term p"@ + dec(i) + "_after);\n"@
    }
}

pub open spec fn override_params(types: Seq<String>) -> Seq<char>
    decreases types.len(),
{
    if types.len() == 0 {
        nil()
    } else {
        override_params(types.drop_last()) + override_param(
            types.last()@,
            (types.len() - 1) as nat,
        )
    }
}

pub open spec fn override_args(types: Seq<String>) -> Seq<Seq<char>> {
    Seq::new(types.len(), |i: int| override_arg(types[i]@, i as nat))
}

pub open spec fn override_clobbers(types: Seq<String>) -> Seq<char>
    decreases types.len(),
{
    if types.len() == 0 {
        nil()
    } else {
        override_clobbers(types.drop_last()) + override_clobber(
            types.last()@,
            (types.len() - 1) as nat,
        )
    }
}

fn put_override_param(out: &mut String, clobbers: &mut String, ty: &str, i: usize) -> (arg: String)
    ensures
        final(out)@ == old(out)@ + override_param(ty@, i as nat),
        final(clobbers)@ == old(clobbers)@ + override_clobber(ty@, i as nat),
        arg@ == override_arg(ty@, i as nat),
{
    broadcast use {group_append, group_views};
    let num = numeral(i as u128);
    let n = num.as_str();
    let mut arg = String::new();
    if !same(ty, "ptr") {
        if let Some(bits) = int_bits(ty) {
            put5(out, "    p", n, " <- llvm_fresh_var \"p", n, "\" (llvm_int ");
            put_dec(out, bits as u128);
            put(out, ");\n");
            put2(&mut arg, "llvm_term p", n);
            return arg;
        }
    }
    put3(out, "    p", n, " <- llvm_fresh_pointer (llvm_int 8);\n");
    put5(clobbers, "    p", n, "_after <- llvm_fresh_var \"p", n, "_after\" (llvm_int 8);\n");
    put5(
        clobbers,
        "    llvm_points_to_at_type p",
        n,
        " (llvm_int 8) (llvm_term p",
        n,
        "_after);\n",
    );
    put2(&mut arg, "p", n);
    arg
}

/// Emits the setup of the parameters; gives the arguments, and what is
/// written through the pointers.
fn put_override_params(out: &mut String, types: &Vec<String>) -> (r: (Vec<String>, String))
    ensures
        final(out)@ == old(out)@ + override_params(types@),
        views(r.0@) == override_args(types@),
        r.1@ == override_clobbers(types@),
{
    broadcast use lemma_append_nothing;

    let mut args: Vec<String> = Vec::new();
    let mut clobbers = String::new();
    let mut i: usize = 0;
    while i < types.len()
        invariant
            i <= types@.len(),
            out@ == old(out)@ + override_params(types@.take(i as int)),
            clobbers@ == override_clobbers(types@.take(i as int)),
            args@.len() == i,
            forall|k: int|
                0 <= k < i ==> (#[trigger] args@[k])@ == override_arg(types@[k]@, k as nat),
        decreases types@.len() - i,
    {
        proof {
            assert(types@.take(i + 1).drop_last() =~= types@.take(i as int));
            lemma_append_assoc(
                old(out)@,
                override_params(types@.take(i as int)),
                override_param(types@[i as int]@, i as nat),
            );
        }
        let arg = put_override_param(out, &mut clobbers, types[i].as_str(), i);
        args.push(arg);
        i += 1;
    }
    proof {
        assert(types@.take(types@.len() as int) =~= types@);
        assert(views(args@) =~= override_args(types@));
    }
    (args, clobbers)
}

/// The width of a global variable that an override can write: an integer
/// or a truth value.
pub open spec fn clobber_bits(ty: TypeView) -> Option<u32> {
    match ty {
        TypeView::SignedInt(w) => Some(w),
        TypeView::UnsignedInt(w) => Some(w),
        TypeView::Bool => Some(1u32),
        _ => None,
    }
}

/// The width of a global variable that an override can write.
pub fn global_width_bits(ty: &TypeInfo) -> (r: Option<u32>)
    ensures
        r == clobber_bits(ty@),
{
    match ty {
        TypeInfo::SignedInt(w) => Some(*w),
        TypeInfo::UnsignedInt(w) => Some(*w),
        TypeInfo::Bool => Some(1),
        _ => None,
    }
}

/// The global variables that the function writes hold any value after the call.
pub open spec fn written_globals_item(g: GlobalView, written: Seq<String>) -> Seq<char> {
    if views(written).contains(g.mangled_name) && clobber_bits(g.ty) is Some {
        let safe = sanitized(g.name);
        "    "@ + safe + "_after <- llvm_fresh_var \""@ + safe + "_after\" (llvm_int "@
            + dec(clobber_bits(g.ty)->0 as nat) + ");\n"@
            + "    llvm_points_to (llvm_global \""@ + g.mangled_name + "\") (llvm_term "@ + safe
            + "_after);\n"@
    } else {
        nil()
    }
}

fn put_written_globals_item(out: &mut String, g: &GlobalVarInfo, written: &[String])
    ensures
        final(out)@ == old(out)@ + written_globals_item(g@, written@),
{
    broadcast use {group_append, group_views};
    if slice_has(written, g.mangled_name.as_str()) {
        if let Some(bits) = global_width_bits(&g.ty) {
            let safe_name = sanitize_name(g.name.as_str());
            let safe = safe_name.as_str();
            put5(out, "    ", safe, "_after <- llvm_fresh_var \"", safe, "_after\" (llvm_int ");
            put_dec(out, bits as u128);
            put(out, ");\n");
            put5(
                out,
                "    llvm_points_to (llvm_global \"",
                g.mangled_name.as_str(),
                "\") (llvm_term ",
                safe,
                "_after);\n",
            );
        }
    }
}

/// The global variables that the function writes hold any value after the call.
pub open spec fn written_globals(v: Seq<GlobalView>, written: Seq<String>) -> Seq<char>
    decreases v.len(),
{
    if v.len() == 0 {
        nil()
    } else {
        written_globals(v.drop_last(), written) + written_globals_item(v.last(), written)
    }
}

/// The global variables that the function writes hold any value after the call.
fn put_written_globals(out: &mut String, v: &[GlobalVarInfo], written: &[String])
    ensures
        final(out)@ == old(out)@ + written_globals(globals_view(v@), written@),
{
    broadcast use lemma_append_nothing;
    let ghost w = globals_view(v@);
    let mut i: usize = 0;
    assert(written_globals(w.take(0), written@) =~= nil());
    while i < v.len()
        invariant
            w == globals_view(v@),
            i <= v@.len(),
            out@ == old(out)@ + written_globals(w.take(i as int), written@),
        decreases v@.len() - i,
    {
        proof {
            assert(w.take(i + 1).drop_last() =~= w.take(i as int));
            assert(w.take(i + 1).last() == v@[i as int]@);
            lemma_append_assoc(old(out)@, written_globals(w.take(i as int), written@), written_globals_item(w[i as int], written@));
        }
        put_written_globals_item(out, &v[i], written);
        i += 1;
    }
    assert(w.take(w.len() as int) =~= w);
}

/// The number of bytes of an IR array of bytes.
pub open spec fn ir_byte_array(ty: Seq<char>) -> Option<nat> {
    match after_prefix(ty, "["@) {
        Some(rest) => match before_suffix(rest, "]"@) {
            Some(inner) => match cut(inner, " x "@) {
                Some((n, elem)) => if trim_text(elem) == "i8"@ {
                    parsed(trim_text(n), u32::MAX as nat)
                } else {
                    None
                },
                None => None,
            },
            None => None,
        },
        None => None,
    }
}

fn byte_array_len(ty: &str) -> (r: Option<u64>)
    ensures
        match r {
            Some(n) => ir_byte_array(ty@) == Some(n as nat),
            None => ir_byte_array(ty@) is None,
        },
{
    if let Some(rest) = strip_prefix(ty, "[") {
        if let Some(inner) = strip_suffix(rest, "]") {
            if let Some((n, elem)) = split_once(inner, " x ") {
                if same(trim(elem), "i8") {
                    return parse_bounded(trim(n), u32::MAX as u64);
                }
            }
        }
    }
    None
}

/// The result: pinned for a mutex primitive or a mutex helper, any value
/// of an integer, an array of bytes or a pointer otherwise.
pub open spec fn override_return(symbol: Seq<char>, ty: Seq<char>) -> Seq<char> {
    if ty == "void"@ {
        nil()
    } else if ty == "ptr"@ {
        "    rv <- llvm_fresh_pointer (llvm_int 8);\n"@ + "    llvm_return rv;\n"@
    } else if let Some(bits) = ir_int_bits(ty) {
        if mutex_primitive(symbol) {
            "    // status primitive: pin success sentinel (0 = _Thrd_success) instead of a fresh return\n"@
                + "    llvm_return (llvm_term {{ 0 : ["@ + dec(bits) + "] }});\n"@
        } else if msvc_mutex_helper(symbol) {
            "    // mutex helper: a no-op that succeeds in a sequential proof\n"@
                + "    llvm_return (llvm_term {{ 1 : ["@ + dec(bits) + "] }});\n"@
        } else {
            "    rv <- llvm_fresh_var \"rv\" (llvm_int "@ + dec(bits) + ");\n"@
                + "    llvm_return (llvm_term rv);\n"@
        }
    } else if let Some(n) = ir_byte_array(ty) {
        "    rv <- llvm_fresh_var \"rv\" (llvm_array "@ + dec(n) + " (llvm_int 8));\n"@
            + "    llvm_return (llvm_term rv);\n"@
    } else {
        "    rv <- llvm_fresh_pointer (llvm_int 8);\n"@ + "    llvm_return rv;\n"@
    }
}

fn put_override_return(out: &mut String, symbol: &str, ty: &str)
    ensures
        final(out)@ == old(out)@ + override_return(symbol@, ty@),
{
    broadcast use {group_append, group_views};
    if same(ty, "void") {
        return;
    }
    if same(ty, "ptr") {
        put(out, "    rv <- llvm_fresh_pointer (llvm_int 8);\n");
        put(out, "    llvm_return rv;\n");
        return;
    }
    if let Some(bits) = int_bits(ty) {
        if success_sentinel(symbol).is_some() {
            put(
                out,
                "    // status primitive: pin success sentinel (0 = _Thrd_success) instead of a fresh return\n",
            );
            put(out, "    llvm_return (llvm_term {{ 0 : [");
            put_dec(out, bits as u128);
            put(out, "] }});\n");
        } else if msvc_mutex_noop_return(symbol).is_some() {
            put(out, "    // mutex helper: a no-op that succeeds in a sequential proof\n");
            put(out, "    llvm_return (llvm_term {{ 1 : [");
            put_dec(out, bits as u128);
            put(out, "] }});\n");
        } else {
            put(out, "    rv <- llvm_fresh_var \"rv\" (llvm_int ");
            put_dec(out, bits as u128);
            put(out, ");\n");
            put(out, "    llvm_return (llvm_term rv);\n");
        }
        return;
    }
    if let Some(n) = byte_array_len(ty) {
        put(out, "    rv <- llvm_fresh_var \"rv\" (llvm_array ");
        put_dec(out, n as u128);
        put(out, " (llvm_int 8));\n");
        put(out, "    llvm_return (llvm_term rv);\n");
        return;
    }
    put(out, "    rv <- llvm_fresh_pointer (llvm_int 8);\n");
    put(out, "    llvm_return rv;\n");
}

pub open spec fn reason_text(reason: BrokenReason) -> Seq<char> {
    match reason {
        BrokenReason::DeclareOnly => "declare-only"@,
        BrokenReason::UsesVarargsIntrinsic => "body uses llvm.va_*"@,
        BrokenReason::StlOverride => "stl-override"@,
        BrokenReason::MsvcMutexHelper => "msvc-mutex-helper"@,
    }
}

fn reason_tag(reason: BrokenReason) -> (r: &'static str)
    ensures
        r@ == reason_text(reason),
{
    match reason {
        BrokenReason::DeclareOnly => "declare-only",
        BrokenReason::UsesVarargsIntrinsic => "body uses llvm.va_*",
        BrokenReason::StlOverride => "stl-override",
        BrokenReason::MsvcMutexHelper => "msvc-mutex-helper",
    }
}

/// Does the function leave the memory behind its arguments alone? Mutex
/// primitives and mutex helpers are no-ops in a sequential proof.
pub open spec fn keeps_memory(symbol: Seq<char>) -> bool {
    mutex_primitive(symbol) || msvc_mutex_helper(symbol)
}

/// The override of one function.
pub open spec fn one_text(
    t: &OverrideTarget,
    safe: Seq<char>,
    ov_name: Seq<char>,
    globals: Seq<GlobalView>,
) -> Seq<char> {
    let symbol = t.symbol@;
    let types = t.fixed_param_ir_types@;
    let variadic = only_if(t.is_variadic, "; variadic"@);
    "\n// override: "@ + symbol + "  ["@ + reason_text(t.reason) + variadic + "]\n"@
        + "let "@ + safe + "_spec = do {\n"@ + override_params(types)
        + "    llvm_execute_func ["@ + joined(override_args(types), ", "@) + "];\n"@ + only_if(
        !keeps_memory(symbol),
        override_clobbers(types),
    ) + written_globals(globals, t.globals_written@) + only_if(
        noreturn_throw(symbol),
        "    llvm_postcond {{ False }};\n"@,
    ) + override_return(symbol, t.return_ir_type@) + "};\n"@ + ov_name
        + " <- llvm_unsafe_assume_spec m \""@ + symbol + "\" "@ + safe + "_spec;\n"@
}

/// Emits the override of one function. A function that always throws has
/// the postcondition `False`: behind its call nothing is reachable.
fn emit_one(
    out: &mut String,
    t: &OverrideTarget,
    safe: &str,
    ov_name: &str,
    mutable_globals: &[GlobalVarInfo],
)
    ensures
        final(out)@ == old(out)@ + one_text(
            t,
            safe@,
            ov_name@,
            globals_view(mutable_globals@),
        ),
{
    broadcast use {group_append, group_views};
    let symbol = t.symbol.as_str();
    let variadic = if t.is_variadic {
        "; variadic"
    } else {
        ""
    };
    proof {
        reveal_strlit("");
        assert(""@ =~= nil());
    }
    put6(out, "\n// override: ", symbol, "  [", reason_tag(t.reason), variadic, "]\n");
    put3(out, "let ", safe, "_spec = do {\n");
    let (args, clobbers) = put_override_params(out, &t.fixed_param_ir_types);
    put3(out, "    llvm_execute_func [", join(&args, ", ").as_str(), "];\n");
    if !(success_sentinel(symbol).is_some() || is_msvc_mutex_helper(symbol)) {
        put(out, clobbers.as_str());
    }
    put_written_globals(out, mutable_globals, t.globals_written.as_slice());
    if is_noreturn_throw(symbol) {
        put(out, "    llvm_postcond {{ False }};\n");
    }
    put_override_return(out, symbol, t.return_ir_type.as_str());
    put(out, "};\n");
    put6(out, ov_name, " <- llvm_unsafe_assume_spec m \"", symbol, "\" ", safe, "_spec;\n");
}

/// The name to which the override of a symbol is bound.
pub open spec fn override_name(symbol: Seq<char>) -> Seq<char> {
    "ov_"@ + sanitized(symbol)
}

/// Is the function passed over: covered already, or of a name that is
/// bound already?
pub open spec fn passed_over(
    t: &OverrideTarget,
    covered: Seq<Seq<char>>,
    bound: Seq<Seq<char>>,
) -> bool {
    covered.contains(t.symbol@) || bound.contains(override_name(t.symbol@))
}

/// The override of one function: its model where it has one. `memcmp` has
/// one where all its calls have one length.
pub open spec fn target_text(
    t: &OverrideTarget,
    globals: Seq<GlobalView>,
    layouts: &FunctionalLayouts,
    compared_length: Option<u64>,
) -> Seq<char> {
    let safe = sanitized(t.symbol@);
    let ov_name = override_name(t.symbol@);
    match functional_text(t.symbol@, safe, ov_name, layouts) {
        Some(text) => text,
        None => match compared_length {
            Some(n) => if t.symbol@ == "memcmp"@ {
                memcmp_text(safe, ov_name, length_text(n))
            } else {
                one_text(t, safe, ov_name, globals)
            },
            None => one_text(t, safe, ov_name, globals),
        },
    }
}

/// The names that are bound, in order.
pub open spec fn bound_names(targets: Seq<OverrideTarget>, covered: Seq<Seq<char>>) -> Seq<Seq<char>>
    decreases targets.len(),
{
    if targets.len() == 0 {
        Seq::empty()
    } else {
        let before = bound_names(targets.drop_last(), covered);
        if passed_over(&targets.last(), covered, before) {
            before
        } else {
            before.push(override_name(targets.last().symbol@))
        }
    }
}

/// The overrides, in order.
pub open spec fn bound_texts(
    targets: Seq<OverrideTarget>,
    covered: Seq<Seq<char>>,
    globals: Seq<GlobalView>,
    layouts: &FunctionalLayouts,
    compared_length: Option<u64>,
) -> Seq<char>
    decreases targets.len(),
{
    if targets.len() == 0 {
        nil()
    } else {
        let before = bound_names(targets.drop_last(), covered);
        if passed_over(&targets.last(), covered, before) {
            bound_texts(targets.drop_last(), covered, globals, layouts, compared_length)
        } else {
            bound_texts(targets.drop_last(), covered, globals, layouts, compared_length)
                + target_text(&targets.last(), globals, layouts, compared_length)
        }
    }
}

/// Does one of the functions denote a vector method that is modelled?
pub open spec fn some_ghost(targets: Seq<OverrideTarget>) -> bool {
    exists|i: int| 0 <= i < targets.len() && ghost_symbol((#[trigger] targets[i]).symbol@)
}

/// The whole script.
pub open spec fn overrides_text(
    targets: Seq<OverrideTarget>,
    covered: Seq<Seq<char>>,
    globals: Seq<GlobalView>,
    layouts: &FunctionalLayouts,
    compared_length: Option<u64>,
) -> Seq<char> {
    if targets.len() == 0 {
        nil()
    } else {
        "// Bitcode-derived extern overrides (saw-spec-gen extern_override_scan)\n"@
            + "// These cover symbols the clang-AST path filter dropped (system\n"@
            + "// headers) and variadic functions whose body uses llvm.va_*\n"@
            + "// intrinsics that Crucible-LLVM cannot symbolically execute.\n"@ + only_if(
            some_ghost(targets),
            ghost_decl(),
        ) + bound_texts(targets, covered, globals, layouts, compared_length)
    }
}

fn symbols_of(targets: &[OverrideTarget]) -> (r: Vec<&str>)
    ensures
        r@.len() == targets@.len(),
        forall|i: int| 0 <= i < r@.len() ==> (#[trigger] r@[i])@ == targets@[i].symbol@,
{
    broadcast use {group_append, group_views};
    let mut r: Vec<&str> = Vec::new();
    let mut i: usize = 0;
    while i < targets.len()
        invariant
            i <= targets@.len(),
            r@.len() == i,
            forall|k: int| 0 <= k < i ==> (#[trigger] r@[k])@ == targets@[k].symbol@,
        decreases targets@.len() - i,
    {
        r.push(targets[i].symbol.as_str());
        i += 1;
    }
    r
}

fn override_binding(symbol: &str) -> (r: String)
    ensures
        r@ == override_name(symbol@),
{
    broadcast use {group_append, group_views};
    let mut r = String::new();
    put2(&mut r, "ov_", sanitize_name(symbol).as_str());
    r
}

fn put_target(
    out: &mut String,
    t: &OverrideTarget,
    mutable_globals: &[GlobalVarInfo],
    layouts: &FunctionalLayouts,
    compared_length: Option<u64>,
)
    ensures
        final(out)@ == old(out)@ + target_text(
            t,
            globals_view(mutable_globals@),
            layouts,
            compared_length,
        ),
{
    broadcast use {group_append, group_views};
    let symbol = t.symbol.as_str();
    let safe = sanitize_name(symbol);
    let ov_name = override_binding(symbol);
    if try_emit_functional(out, symbol, safe.as_str(), ov_name.as_str(), layouts) {
        return;
    }
    if let Some(n) = compared_length {
        if same(symbol, "memcmp") {
            emit_faithful_memcmp(out, safe.as_str(), ov_name.as_str(), n);
            return;
        }
    }
    emit_one(out, t, safe.as_str(), ov_name.as_str(), mutable_globals);
}

fn put_targets(
    out: &mut String,
    targets: &[OverrideTarget],
    covered: &[String],
    mutable_globals: &[GlobalVarInfo],
    layouts: &FunctionalLayouts,
    compared_length: Option<u64>,
) -> (names: Vec<String>)
    ensures
        final(out)@ == old(out)@ + bound_texts(
            targets@,
            views(covered@),
            globals_view(mutable_globals@),
            layouts,
            compared_length,
        ),
        views(names@) == bound_names(targets@, views(covered@)),
{
    broadcast use {lemma_append_nothing, lemma_views_push};

    let ghost c = views(covered@);
    let ghost g = globals_view(mutable_globals@);
    let mut names: Vec<String> = Vec::new();
    let mut i: usize = 0;
    assert(views(names@) =~= Seq::<Seq<char>>::empty());
    while i < targets.len()
        invariant
            c == views(covered@),
            g == globals_view(mutable_globals@),
            i <= targets@.len(),
            out@ == old(out)@ + bound_texts(targets@.take(i as int), c, g, layouts, compared_length),
            views(names@) == bound_names(targets@.take(i as int), c),
        decreases targets@.len() - i,
    {
        proof {
            assert(targets@.take(i + 1).drop_last() =~= targets@.take(i as int));
            lemma_append_assoc(
                old(out)@,
                bound_texts(targets@.take(i as int), c, g, layouts, compared_length),
                target_text(&targets@[i as int], g, layouts, compared_length),
            );
        }
        let t = &targets[i];
        let ov_name = override_binding(t.symbol.as_str());
        if !slice_has(covered, t.symbol.as_str()) && !list_has(&names, ov_name.as_str()) {
            put_target(out, t, mutable_globals, layouts, compared_length);
            names.push(ov_name);
        }
        i += 1;
    }
    assert(targets@.take(targets@.len() as int) =~= targets@);
    names
}

fn emit_all(
    targets: &[OverrideTarget],
    already_covered: &[String],
    mutable_globals: &[GlobalVarInfo],
    layouts: &FunctionalLayouts,
    compared_length: Option<u64>,
) -> (r: EmittedBitcodeOverrides)
    ensures
        r.snippet@ == overrides_text(
            targets@,
            views(already_covered@),
            globals_view(mutable_globals@),
            layouts,
            compared_length,
        ),
        views(r.override_names@) == bound_names(targets@, views(already_covered@)),
{
    broadcast use {group_append, group_views};
    let mut out = String::new();
    if targets.len() == 0 {
        let names: Vec<String> = Vec::new();
        return EmittedBitcodeOverrides { snippet: out, override_names: names };
    }
    put(&mut out, "// Bitcode-derived extern overrides (saw-spec-gen extern_override_scan)\n");
    put(&mut out, "// These cover symbols the clang-AST path filter dropped (system\n");
    put(&mut out, "// headers) and variadic functions whose body uses llvm.va_*\n");
    put(&mut out, "// intrinsics that Crucible-LLVM cannot symbolically execute.\n");
    let symbols = symbols_of(targets);
    let needed = needs_vector_ghost(symbols.as_slice());
    proof {
        if needed {
            let i = choose|i: int|
                0 <= i < symbols@.len() && ghost_symbol((#[trigger] symbols@[i])@);
            assert(ghost_symbol(targets@[i].symbol@));
        } else if some_ghost(targets@) {
            let i = choose|i: int|
                0 <= i < targets@.len() && ghost_symbol((#[trigger] targets@[i]).symbol@);
            assert(ghost_symbol(symbols@[i]@));
        }
    }
    if needed {
        emit_shared_ghost_decl(&mut out);
    }
    let names = put_targets(
        &mut out,
        targets,
        already_covered,
        mutable_globals,
        layouts,
        compared_length,
    );
    EmittedBitcodeOverrides { snippet: out, override_names: names }
}

/// Emits an override for each function, except those whose symbol is
/// covered already. No name is bound twice.
pub fn emit_overrides(
    targets: &[OverrideTarget],
    already_covered: &[String],
    mutable_globals: &[GlobalVarInfo],
    layouts: &FunctionalLayouts,
) -> (r: EmittedBitcodeOverrides)
    ensures
        r.snippet@ == overrides_text(
            targets@,
            views(already_covered@),
            globals_view(mutable_globals@),
            layouts,
            None,
        ),
        views(r.override_names@) == bound_names(targets@, views(already_covered@)),
{
    broadcast use {group_append, group_views};
    emit_all(targets, already_covered, mutable_globals, layouts, None)
}

/// No name is bound twice.
pub proof fn law_names_bound_once(targets: Seq<OverrideTarget>, covered: Seq<Seq<char>>)
    ensures
        bound_names(targets, covered).no_duplicates(),
    decreases targets.len(),
{
    if targets.len() > 0 {
        law_names_bound_once(targets.drop_last(), covered);
    }
}

/// A function whose symbol is covered already gets no override of its own:
/// what the other functions get is the same without it.
pub proof fn law_covered_is_skipped(
    targets: Seq<OverrideTarget>,
    t: OverrideTarget,
    covered: Seq<Seq<char>>,
    globals: Seq<GlobalView>,
    layouts: FunctionalLayouts,
    compared_length: Option<u64>,
)
    requires
        covered.contains(t.symbol@),
    ensures
        bound_names(targets.push(t), covered) == bound_names(targets, covered),
        bound_texts(targets.push(t), covered, globals, &layouts, compared_length) == bound_texts(
            targets,
            covered,
            globals,
            &layouts,
            compared_length,
        ),
{
    assert(targets.push(t).drop_last() =~= targets);
}

/// A function whose symbol is not covered has its override bound.
pub proof fn law_uncovered_is_bound(
    targets: Seq<OverrideTarget>,
    covered: Seq<Seq<char>>,
    i: int,
)
    requires
        0 <= i < targets.len(),
        !covered.contains(targets[i].symbol@),
    ensures
        bound_names(targets, covered).contains(override_name(targets[i].symbol@)),
    decreases targets.len(),
{
    let rest = targets.drop_last();
    let before = bound_names(rest, covered);
    let all = bound_names(targets, covered);
    let name = override_name(targets[i].symbol@);
    if i < rest.len() {
        assert(rest[i] == targets[i]);
        law_uncovered_is_bound(rest, covered, i);
        let k = choose|k: int| 0 <= k < before.len() && before[k] == name;
        assert(all[k] == name);
    } else if !before.contains(name) {
        assert(all[before.len() as int] == name);
    }
}

/// What a scan of the bitcode found.
#[derive(Debug, PartialEq, Eq)]
pub struct BitcodeScan {
    /// The functions to be overridden.
    pub targets: Vec<OverrideTarget>,
    /// The symbols of the global variables that are not constant.
    pub mutable_globals: Vec<String>,
    /// The structs.
    pub struct_defs: Vec<(String, IrStructDef)>,
    /// The length that all calls of `memcmp` pass, where it is one constant.
    pub compared_length: Option<u64>,
}

/// The symbols that need no override of the scan. `memcmp` always needs
/// one: the specification made for it from its declaration does not match
/// its calls, and no script includes it.
pub open spec fn spared(covered: Seq<Seq<char>>) -> Seq<Seq<char>> {
    covered.filter(|s: Seq<char>| s != "memcmp"@)
}

fn spare(covered: &[String]) -> (r: Vec<String>)
    ensures
        views(r@) == spared(views(covered@)),
{
    broadcast use {group_append, group_views};
    let ghost c = views(covered@);
    let mut r: Vec<String> = Vec::new();
    let mut i: usize = 0;
    proof {
        reveal(Seq::filter);
        assert(views(r@) =~= spared(c.take(0)));
    }
    while i < covered.len()
        invariant
            c == views(covered@),
            i <= covered@.len(),
            views(r@) == spared(c.take(i as int)),
        decreases covered@.len() - i,
    {
        proof {
            reveal(Seq::filter);
            assert(c.take(i + 1).drop_last() =~= c.take(i as int));
            assert(c.take(i + 1).last() == covered@[i as int]@);
        }
        if !same(covered[i].as_str(), "memcmp") {
            r.push(covered[i].clone());
        }
        i += 1;
    }
    assert(c.take(c.len() as int) =~= c);
    r
}

proof fn lemma_spared(covered: Seq<Seq<char>>, symbol: Seq<char>)
    ensures
        spared(covered).contains(symbol) <==> covered.contains(symbol) && symbol != "memcmp"@,
    decreases covered.len(),
{
    reveal(Seq::filter);
    if covered.len() > 0 {
        let rest = covered.drop_last();
        lemma_spared(rest, symbol);
        let all = spared(covered);
        if rest.contains(symbol) {
            let k = choose|k: int| 0 <= k < rest.len() && rest[k] == symbol;
            assert(covered[k] == symbol);
        }
        if spared(rest).contains(symbol) {
            let k = choose|k: int| 0 <= k < spared(rest).len() && spared(rest)[k] == symbol;
            assert(all[k] == symbol);
        }
        if covered.last() == symbol && symbol != "memcmp"@ {
            assert(all[all.len() - 1] == symbol);
        }
        if covered.contains(symbol) && covered.last() != symbol {
            let k = choose|k: int| 0 <= k < covered.len() && covered[k] == symbol;
            assert(rest[k] == symbol);
        }
        if all.contains(symbol) && !spared(rest).contains(symbol) {
            let k = choose|k: int| 0 <= k < all.len() && all[k] == symbol;
            if k < spared(rest).len() {
                assert(spared(rest)[k] == symbol);
            }
            assert(covered[covered.len() - 1] == symbol);
        }
    }
}

/// Of the functions that a scan found, `memcmp` has its override bound
/// whatever is covered, and any other is left out exactly when it is
/// covered.
pub proof fn law_memcmp_is_bound(
    targets: Seq<OverrideTarget>,
    covered: Seq<Seq<char>>,
    i: int,
)
    requires
        0 <= i < targets.len(),
    ensures
        targets[i].symbol@ == "memcmp"@ ==> bound_names(targets, spared(covered)).contains(
            override_name("memcmp"@),
        ),
        targets[i].symbol@ != "memcmp"@ ==> spared(covered).contains(targets[i].symbol@)
            == covered.contains(targets[i].symbol@),
{
    lemma_spared(covered, targets[i].symbol@);
    if targets[i].symbol@ == "memcmp"@ {
        law_uncovered_is_bound(targets, spared(covered), i);
    }
}

/// The global variables that are mutable and that an override can write.
pub open spec fn writable_globals(all: Seq<GlobalView>, mutable: Seq<Seq<char>>) -> Seq<GlobalView> {
    all.filter(|g: GlobalView| mutable.contains(g.mangled_name) && clobber_bits(g.ty) is Some)
}

fn filter_globals(all_globals: &[GlobalVarInfo], mutable: &Vec<String>) -> (r: Vec<GlobalVarInfo>)
    ensures
        globals_view(r@) == writable_globals(globals_view(all_globals@), views(mutable@)),
{
    broadcast use {group_append, group_views};
    let ghost w = globals_view(all_globals@);
    let ghost m = views(mutable@);
    let mut r: Vec<GlobalVarInfo> = Vec::new();
    let mut i: usize = 0;
    proof {
        reveal(Seq::filter);
        assert(globals_view(r@) =~= writable_globals(w.take(0), m));
    }
    while i < all_globals.len()
        invariant
            w == globals_view(all_globals@),
            m == views(mutable@),
            i <= all_globals@.len(),
            globals_view(r@) == writable_globals(w.take(i as int), m),
        decreases all_globals@.len() - i,
    {
        proof {
            reveal(Seq::filter);
            assert(w.take(i + 1).drop_last() =~= w.take(i as int));
            assert(w.take(i + 1).last() == all_globals@[i as int]@);
        }
        let g = &all_globals[i];
        let ghost before = r@;
        if list_has(mutable, g.mangled_name.as_str()) && global_width_bits(&g.ty).is_some() {
            r.push(g.duplicate());
            assert(globals_view(r@) =~= globals_view(before).push(g@));
        }
        i += 1;
    }
    assert(w.take(w.len() as int) =~= w);
    r
}

/// Emits an override for each function that a scan of the bitcode found;
/// nothing where there is no scan. Only mutable global variables that an
/// override can write are written. `memcmp` is overridden also where it is
/// covered.
pub fn scan_and_emit(
    scan: Option<&BitcodeScan>,
    already_covered: &[String],
    all_globals: &[GlobalVarInfo],
    container_catalog: &ContainerCatalog,
) -> (r: EmittedBitcodeOverrides)
    ensures
        match scan {
            Some(s) => exists|layouts: FunctionalLayouts|
                layout_view(layouts.string) == layouts_of(s.struct_defs@, container_catalog)
                    && r.snippet@ == #[trigger] overrides_text(
                    s.targets@,
                    spared(views(already_covered@)),
                    writable_globals(globals_view(all_globals@), views(s.mutable_globals@)),
                    &layouts,
                    s.compared_length,
                ) && views(r.override_names@) == bound_names(
                    s.targets@,
                    spared(views(already_covered@)),
                ),
            None => r.snippet@ == nil() && r.override_names@.len() == 0,
        },
{
    match scan {
        Some(s) => {
            let globals = filter_globals(all_globals, &s.mutable_globals);
            let layouts = FunctionalLayouts::discover(&s.struct_defs, container_catalog);
            let covered = spare(already_covered);
            emit_all(
                s.targets.as_slice(),
                covered.as_slice(),
                globals.as_slice(),
                &layouts,
                s.compared_length,
            )
        },
        None => EmittedBitcodeOverrides::empty(),
    }
}

} // verus!
