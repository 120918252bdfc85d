//! What is known of the verified function of a Rust crate, in terms of the
//! functions that the IR defines.

use vstd::prelude::*;
use vstd::utf8::*;

use crate::constraints::{FunctionView, ParamView, TypeView};
use crate::gen_verify_rust::{
    CandidateView, ResolveErrorView, VerifyParamView, bracketed_items, candidate_of, candidates_in,
    chosen, has_hidden_result, law_shortest_name_wins, list_of, matching_names, name_len,
    name_matches, name_suffix, range_at, range_in, ranges_of, target_in, verify_params,
};
use crate::gen_verify_rust_classify::{ReturnView, field_widths, int_width, return_ir};
use crate::ir_layout::{DefView, defs_in};
use crate::llvm_ir::ir_functions;
use crate::text::{dec, ends, lines_of, starts};

verus! {

/// Is the type an integer of the given width?
pub open spec fn integer_of(ty: TypeView, bits: u32) -> bool {
    ||| ty is Bool && bits == 1
    ||| ty == TypeView::SignedInt(bits)
    ||| ty == TypeView::UnsignedInt(bits)
}

/// Is the type an integer?
pub open spec fn is_integer(ty: TypeView) -> bool {
    ty is Bool || ty is SignedInt || ty is UnsignedInt
}

/// The parameters before the first one that the function takes itself: one
/// where the first is only written and no integer, for that holds the result.
pub open spec fn hidden_params(f: FunctionView) -> int {
    if f.params.len() > 0 && f.params[0].mutability is WriteOnly && !is_integer(f.params[0].ty) {
        1
    } else {
        0
    }
}

/// Does the description fit the function? It has one parameter for each
/// parameter of the function behind the hidden result, in the same order,
/// each of the width of its own type, and with the range that the parameter
/// list of the definition gives in the same place.
pub open spec fn fits_params(
    f: FunctionView,
    list: Option<Seq<char>>,
    params: Seq<VerifyParamView>,
) -> bool {
    let skip = hidden_params(f);
    &&& params.len() == f.params.len() - skip
    &&& forall|i: int|
        0 <= i < params.len() ==> {
            let p = #[trigger] params[i];
            &&& integer_of(f.params[skip + i].ty, p.bits)
            &&& p.index == i
            &&& p.name == "x"@ + dec(i as nat)
            &&& p.llvm_type == "i"@ + dec(p.bits as nat)
            &&& list is None ==> p.range is None
            &&& list matches Some(text) ==> {
                let items = bracketed_items(text, 0, 0, 0);
                if skip + i < items.len() {
                    p.range == range_in(items[skip + i])
                } else {
                    p.range is None
                }
            }
        }
}

/// Does the description of the result fit the function? An integer and a
/// struct of integers are returned as such, with the widths of their own
/// types; where a parameter holds the result it is returned through memory.
pub open spec fn fits_return(f: FunctionView, kind: ReturnView) -> bool {
    match kind {
        ReturnView::Scalar { bits } => hidden_params(f) == 0 && integer_of(f.return_type, bits),
        ReturnView::Aggregate { field_bits } => hidden_params(f) == 0 && match f.return_type {
            TypeView::Struct { fields, .. } => field_bits.len() == fields.len() && forall|i: int|
                0 <= i < fields.len() ==> integer_of((#[trigger] fields[i]).1, field_bits[i]),
            TypeView::Opaque { name, .. } => starts(name, "{"@),
            _ => false,
        },
        ReturnView::Sret { size_bytes, .. } => hidden_params(f) == 1 || match f.return_type {
            TypeView::Struct { size, .. } => size == Some(size_bytes) && size_bytes > 0,
            _ => false,
        },
    }
}

proof fn lemma_width(ty: TypeView)
    ensures
        int_width(ty) is Some <==> is_integer(ty),
        int_width(ty) matches Some(bits) ==> integer_of(ty, bits),
{
}

/// The parameters, one by one.
proof fn lemma_verify_params(
    params: Seq<ParamView>,
    skip: nat,
    ranges: Option<Seq<Option<(u64, u64)>>>,
    n: nat,
)
    requires
        skip + n <= params.len(),
    ensures
        verify_params(params, skip, ranges, n) is Some <==> forall|i: int|
            skip <= i < skip + n ==> is_integer((#[trigger] params[i]).ty),
        verify_params(params, skip, ranges, n) matches Some(v) ==> v.len() == n && forall|i: int|
            0 <= i < n ==> {
                let p = #[trigger] v[i];
                &&& integer_of(params[skip + i].ty, p.bits)
                &&& p.index == i
                &&& p.name == "x"@ + dec(i as nat)
                &&& p.llvm_type == "i"@ + dec(p.bits as nat)
                &&& p.range == range_at(ranges, skip + i)
            },
    decreases n,
{
    if n > 0 {
        let m = (n - 1) as nat;
        lemma_verify_params(params, skip, ranges, m);
        lemma_width(params[(skip + m) as int].ty);
        if verify_params(params, skip, ranges, n) is Some {
            let rest = verify_params(params, skip, ranges, m)->0;
            let v = verify_params(params, skip, ranges, n)->0;
            assert forall|i: int| 0 <= i < n implies {
                let p = #[trigger] v[i];
                &&& integer_of(params[skip + i].ty, p.bits)
                &&& p.index == i
                &&& p.name == "x"@ + dec(i as nat)
                &&& p.llvm_type == "i"@ + dec(p.bits as nat)
                &&& p.range == range_at(ranges, skip + i)
            } by {
                if i < m {
                    assert(v[i] == rest[i]);
                }
            }
            assert(is_integer(params[(skip + m) as int].ty));
        }
    }
}

/// The widths of the fields, one by one.
proof fn lemma_field_widths(fields: Seq<(Seq<char>, TypeView)>, n: nat)
    requires
        n <= fields.len(),
    ensures
        field_widths(fields, n) is Some <==> forall|i: int|
            0 <= i < n ==> is_integer((#[trigger] fields[i]).1),
        field_widths(fields, n) matches Some(v) ==> v.len() == n && forall|i: int|
            0 <= i < n ==> integer_of((#[trigger] fields[i]).1, v[i]),
    decreases n,
{
    if n > 0 {
        lemma_field_widths(fields, (n - 1) as nat);
        lemma_width(fields[n - 1].1);
    }
}

/// A candidate fits its function.
proof fn lemma_candidate_fits(
    f: FunctionView,
    list: Option<Seq<char>>,
    defs: Seq<(Seq<char>, DefView)>,
)
    ensures
        candidate_of(f, list, defs) matches Some(c) ==> {
            &&& c.name == f.name
            &&& fits_params(f, list, c.params)
            &&& fits_return(f, c.return_kind)
            &&& c.return_llvm_type == return_ir(c.return_kind)
        },
        (exists|i: int| hidden_params(f) <= i < f.params.len() && !is_integer((#[trigger] f.params[i]).ty))
            ==> candidate_of(f, list, defs) is None,
{
    let skip = hidden_params(f) as nat;
    if f.params.len() > 0 {
        lemma_width(f.params[0].ty);
    }
    assert(has_hidden_result(f.params) <==> hidden_params(f) == 1);
    lemma_verify_params(f.params, skip, ranges_of(list), (f.params.len() - skip) as nat);
    match f.return_type {
        TypeView::Struct { fields, .. } => {
            lemma_field_widths(fields, fields.len());
        },
        _ => {},
    }
}

/// The places of the candidates among the functions.
proof fn lemma_candidate_places(
    fs: Seq<FunctionView>,
    suffix: Seq<char>,
    lines: Seq<Seq<char>>,
    n: nat,
) -> (r: Seq<int>)
    requires
        n <= fs.len(),
    ensures
        r.len() == candidates_in(fs, suffix, lines, n).len(),
        forall|j: int|
            0 <= j < r.len() ==> 0 <= #[trigger] r[j] < n && name_matches(fs[r[j]], suffix)
                && candidate_of(
                fs[r[j]],
                list_of(lines, fs[r[j]].name, lines.len() as int),
                defs_in(lines),
            ) == Some(candidates_in(fs, suffix, lines, n)[j]),
        forall|k: int|
            0 <= k < n && name_matches(fs[k], suffix) && candidate_of(
                #[trigger] fs[k],
                list_of(lines, fs[k].name, lines.len() as int),
                defs_in(lines),
            ) is Some ==> r.contains(k),
    decreases n,
{
    if n == 0 {
        Seq::empty()
    } else {
        let m = (n - 1) as nat;
        let rest = lemma_candidate_places(fs, suffix, lines, m);
        let f = fs[n - 1];
        if name_matches(f, suffix) && candidate_of(
            f,
            list_of(lines, f.name, lines.len() as int),
            defs_in(lines),
        ) is Some {
            let r = rest.push(n - 1);
            assert(r[r.len() - 1] == n - 1);
            assert forall|k: int|
                0 <= k < n && name_matches(fs[k], suffix) && candidate_of(
                    #[trigger] fs[k],
                    list_of(lines, fs[k].name, lines.len() as int),
                    defs_in(lines),
                ) is Some implies r.contains(k) by {
                if k < m {
                    assert(rest.contains(k));
                    let j: int = choose|j: int| 0 <= j < rest.len() && rest[j] == k;
                    assert(r[j] == k);
                }
            }
            r
        } else {
            rest
        }
    }
}

/// A function is found only where the IR defines one whose mangled name ends
/// with the length of the given name and the name. The result has one
/// parameter for each parameter of that function behind the hidden result,
/// and each has the integer width of the parameter in the same place. Every
/// other function of such a name that is handled has a longer name.
pub proof fn law_target_is_a_defined_function(ir: Seq<char>, function: Seq<char>)
    requires
        target_in(ir, function) is Ok,
    ensures
        ir_functions(ir, None) is Ok,
        ({
            let fs = ir_functions(ir, None)->Ok_0;
            let a = target_in(ir, function)->Ok_0;
            exists|k: int|
                0 <= k < fs.len() && {
                    let f = #[trigger] fs[k];
                    &&& f.has_body
                    &&& ends(f.name, dec(encode_utf8(function).len()) + function)
                    &&& a.mangled_name == f.name
                    &&& fits_params(
                        f,
                        list_of(lines_of(ir), f.name, lines_of(ir).len() as int),
                        a.params,
                    )
                    &&& fits_return(f, a.return_kind)
                    &&& forall|j: int|
                        0 <= j < fs.len() && (#[trigger] fs[j]).has_body && ends(
                            fs[j].name,
                            dec(encode_utf8(function).len()) + function,
                        ) && candidate_of(
                            fs[j],
                            list_of(lines_of(ir), fs[j].name, lines_of(ir).len() as int),
                            defs_in(lines_of(ir)),
                        ) is Some ==> j == k || encode_utf8(fs[j].name).len() > encode_utf8(f.name).len()
                }
        }),
{
    let fs = ir_functions(ir, None)->Ok_0;
    let suffix = name_suffix(function);
    let lines = lines_of(ir);
    let cs = candidates_in(fs, suffix, lines, fs.len());
    let names = matching_names(fs, suffix, fs.len());
    law_shortest_name_wins(cs, names);
    let c: int = choose|c: int|
        #![trigger cs[c]]
        0 <= c < cs.len() && chosen(cs, names) == Ok::<CandidateView, ResolveErrorView>(cs[c])
            && forall|j: int|
            0 <= j < cs.len() && j != c ==> name_len(#[trigger] cs[j]) > name_len(cs[c]);
    let places = lemma_candidate_places(fs, suffix, lines, fs.len());
    let k = places[c];
    let f = fs[k];
    lemma_candidate_fits(f, list_of(lines, f.name, lines.len() as int), defs_in(lines));
    assert forall|j: int|
        0 <= j < fs.len() && (#[trigger] fs[j]).has_body && ends(fs[j].name, suffix) && candidate_of(
            fs[j],
            list_of(lines, fs[j].name, lines.len() as int),
            defs_in(lines),
        ) is Some implies j == k || encode_utf8(fs[j].name).len() > encode_utf8(f.name).len() by {
        assert(places.contains(j));
        let b: int = choose|b: int| 0 <= b < places.len() && places[b] == j;
        lemma_candidate_fits(fs[j], list_of(lines, fs[j].name, lines.len() as int), defs_in(lines));
        if b != c {
            assert(name_len(cs[b]) > name_len(cs[c]));
        }
    }
}

} // verus!
