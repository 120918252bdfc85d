//! Buffers that the user declares on the command line.

use vstd::prelude::*;

use crate::text::{
    CharSet, cut, dec, group_append, group_views, opt_string, owned, pairs_view, parse_bounded,
    parsed, pieces, put, put_dec, same, split, split_once, views,
};

verus! {

/// What the user declares of the parameters of the verified function.
#[derive(Debug, PartialEq, Eq)]
pub struct BufferOverrides {
    /// The sizes of input buffers, in bytes.
    pub in_buffer_sizes: Vec<(String, u64)>,
    /// The output buffers; a size where one is given.
    pub out_buffers: Vec<(String, Option<u64>)>,
    /// For an output buffer, the Cryptol function of what it holds.
    pub cryptol_fn_out: Vec<(String, String)>,
    /// The greatest values of length parameters.
    pub max_len_preconds: Vec<(String, String)>,
    /// For a Cryptol function, the parameters that it takes.
    pub cryptol_arg_order: Vec<(String, Vec<String>)>,
    /// The Cryptol function that holds before the call.
    pub cryptol_fn_pre: Option<String>,
}

/// Why a declaration cannot be read.
#[derive(Debug, Clone, Copy, PartialEq, Eq, Structural)]
pub enum BufferFlagError {
    /// A declaration lacks the sign between name and value.
    MissingValue,
    /// A size is no number.
    BadSize,
    /// More than one function is to hold before the call.
    TwoPreconditions,
}

/// The first entry of the given name from `i` on.
pub open spec fn size_from(v: Seq<(String, u64)>, name: Seq<char>, i: int) -> Option<u64>
    decreases v.len() - i,
{
    if i < 0 || i >= v.len() {
        None
    } else if v[i].0@ == name {
        Some(v[i].1)
    } else {
        size_from(v, name, i + 1)
    }
}

/// The first entry of the given name from `i` on.
pub open spec fn out_from(v: Seq<(String, Option<u64>)>, name: Seq<char>, i: int) -> Option<
    Option<u64>,
>
    decreases v.len() - i,
{
    if i < 0 || i >= v.len() {
        None
    } else if v[i].0@ == name {
        Some(v[i].1)
    } else {
        out_from(v, name, i + 1)
    }
}

/// The first entry of the given name from `i` on.
pub open spec fn order_from(v: Seq<(String, Vec<String>)>, name: Seq<char>, i: int) -> Option<
    Seq<Seq<char>>,
>
    decreases v.len() - i,
{
    if i < 0 || i >= v.len() {
        None
    } else if v[i].0@ == name {
        Some(views(v[i].1@))
    } else {
        order_from(v, name, i + 1)
    }
}

impl BufferOverrides {
    /// Is the parameter an input buffer?
    pub open spec fn in_buffer(&self, name: Seq<char>) -> bool {
        size_from(self.in_buffer_sizes@, name, 0) is Some
    }

    /// Is the parameter an output buffer?
    pub open spec fn out_buffer(&self, name: Seq<char>) -> bool {
        out_from(self.out_buffers@, name, 0) is Some
    }

    /// The variable for what a parameter holds before the call.
    pub open spec fn value_var(&self, name: Seq<char>) -> Seq<char> {
        if self.out_buffer(name) {
            name + "_pre"@
        } else {
            name
        }
    }

    /// The type of a buffer whose size is given.
    pub open spec fn buffer_type(&self, name: Seq<char>) -> Option<Seq<char>> {
        match size_from(self.in_buffer_sizes@, name, 0) {
            Some(n) => Some("llvm_array "@ + dec(n as nat) + " (llvm_int 8)"@),
            None => match out_from(self.out_buffers@, name, 0) {
                Some(Some(n)) => Some("llvm_array "@ + dec(n as nat) + " (llvm_int 8)"@),
                _ => None,
            },
        }
    }

    /// The arguments of a Cryptol function, where they are declared.
    pub open spec fn call_args(&self, fn_name: Seq<char>) -> Option<Seq<Seq<char>>> {
        match order_from(self.cryptol_arg_order@, fn_name, 0) {
            Some(names) => Some(Seq::new(names.len(), |i: int| self.value_var(names[i]))),
            None => None,
        }
    }

    /// No declaration.
    pub fn none() -> (r: BufferOverrides)
        ensures
            r.in_buffer_sizes@.len() == 0,
            r.out_buffers@.len() == 0,
            r.cryptol_fn_out@.len() == 0,
            r.max_len_preconds@.len() == 0,
            r.cryptol_arg_order@.len() == 0,
            r.cryptol_fn_pre is None,
    {
        BufferOverrides {
            in_buffer_sizes: Vec::new(),
            out_buffers: Vec::new(),
            cryptol_fn_out: Vec::new(),
            max_len_preconds: Vec::new(),
            cryptol_arg_order: Vec::new(),
            cryptol_fn_pre: None,
        }
    }

    fn in_size(&self, name: &str) -> (r: Option<u64>)
        ensures
            r == size_from(self.in_buffer_sizes@, name@, 0),
    {
        let v = &self.in_buffer_sizes;
        let mut i: usize = 0;
        while i < v.len()
            invariant
                v == self.in_buffer_sizes,
                i <= v@.len(),
                size_from(v@, name@, 0) == size_from(v@, name@, i as int),
            decreases v@.len() - i,
        {
            if same(v[i].0.as_str(), name) {
                return Some(v[i].1);
            }
            i += 1;
        }
        None
    }

    fn out_entry(&self, name: &str) -> (r: Option<Option<u64>>)
        ensures
            r == out_from(self.out_buffers@, name@, 0),
    {
        let v = &self.out_buffers;
        let mut i: usize = 0;
        while i < v.len()
            invariant
                v == self.out_buffers,
                i <= v@.len(),
                out_from(v@, name@, 0) == out_from(v@, name@, i as int),
            decreases v@.len() - i,
        {
            if same(v[i].0.as_str(), name) {
                return Some(v[i].1);
            }
            i += 1;
        }
        None
    }

    /// Is the parameter an input buffer?
    pub fn has_in_buffer_size(&self, name: &str) -> (r: bool)
        ensures
            r == self.in_buffer(name@),
    {
        self.in_size(name).is_some()
    }

    /// Is the parameter an output buffer?
    pub fn is_out_buffer(&self, name: &str) -> (r: bool)
        ensures
            r == self.out_buffer(name@),
    {
        self.out_entry(name).is_some()
    }

    /// The variable for what a parameter holds before the call.
    pub fn value_var_for(&self, name: &str) -> (r: String)
        ensures
            r@ == self.value_var(name@),
    {
        broadcast use {group_append, group_views};
        let mut r = owned(name);
        if self.is_out_buffer(name) {
            put(&mut r, "_pre");
        }
        r
    }

    /// The type of a buffer whose size is given.
    pub fn override_saw_type(&self, name: &str) -> (r: Option<String>)
        ensures
            opt_string(r) == self.buffer_type(name@),
    {
        broadcast use {group_append, group_views};
        let mut size = self.in_size(name);
        if size.is_none() {
            if let Some(s) = self.out_entry(name) {
                size = s;
            }
        }
        match size {
            Some(n) => {
                let mut r = String::new();
                put(&mut r, "llvm_array ");
                put_dec(&mut r, n as u128);
                put(&mut r, " (llvm_int 8)");
                Some(r)
            },
            None => None,
        }
    }

    /// The arguments of a Cryptol function, where they are declared.
    pub fn cryptol_call_args(&self, fn_name: &str) -> (r: Option<Vec<String>>)
        ensures
            match r {
                Some(v) => self.call_args(fn_name@) == Some(views(v@)),
                None => self.call_args(fn_name@) is None,
            },
    {
        let v = &self.cryptol_arg_order;
        let mut i: usize = 0;
        while i < v.len()
            invariant
                v == self.cryptol_arg_order,
                i <= v@.len(),
                order_from(v@, fn_name@, 0) == order_from(v@, fn_name@, i as int),
            decreases v@.len() - i,
        {
            if same(v[i].0.as_str(), fn_name) {
                let names = &v[i].1;
                let ghost want = self.call_args(fn_name@)->0;
                let mut r: Vec<String> = Vec::new();
                let mut k: usize = 0;
                while k < names.len()
                    invariant
                        order_from(self.cryptol_arg_order@, fn_name@, 0) == Some(views(names@)),
                        want == self.call_args(fn_name@)->0,
                        k <= names@.len(),
                        r@.len() == k,
                        forall|j: int| 0 <= j < k ==> (#[trigger] r@[j])@ == want[j],
                    decreases names@.len() - k,
                {
                    assert(views(names@)[k as int] == names@[k as int]@);
                    r.push(self.value_var_for(names[k].as_str()));
                    k += 1;
                }
                assert(views(r@) =~= want);
                return Some(r);
            }
            i += 1;
        }
        None
    }

    /// Reads the declarations of the command line, each a name and a value
    /// with `=` between them.
    ///
    /// The size of an output buffer may be `auto`. The parameters that a
    /// Cryptol function takes stand between commas.
    pub fn from_cli(
        in_buffer_size: &[String],
        out_buffer_param: &[String],
        cryptol_fn_out: &[String],
        max_len_precond: &[String],
        cryptol_arg_order: &[String],
        cryptol_fn_pre: &[String],
    ) -> (r: Result<BufferOverrides, BufferFlagError>)
        ensures
            match r {
                Ok(b) => {
                    &&& in_sizes(in_buffer_size@) == Ok::<
                        Seq<(Seq<char>, u64)>,
                        BufferFlagError,
                    >(sizes_view(b.in_buffer_sizes@))
                    &&& out_sizes(out_buffer_param@) == Ok::<
                        Seq<(Seq<char>, Option<u64>)>,
                        BufferFlagError,
                    >(outs_view(b.out_buffers@))
                    &&& pairs(cryptol_fn_out@) == Ok::<
                        Seq<(Seq<char>, Seq<char>)>,
                        BufferFlagError,
                    >(pairs_view(b.cryptol_fn_out@))
                    &&& pairs(max_len_precond@) == Ok::<
                        Seq<(Seq<char>, Seq<char>)>,
                        BufferFlagError,
                    >(pairs_view(b.max_len_preconds@))
                    &&& arg_orders(cryptol_arg_order@) == Ok::<
                        Seq<(Seq<char>, Seq<Seq<char>>)>,
                        BufferFlagError,
                    >(orders_view(b.cryptol_arg_order@))
                    &&& cryptol_fn_pre@.len() <= 1
                    &&& match b.cryptol_fn_pre {
                        Some(f) => cryptol_fn_pre@.len() == 1 && f@ == cryptol_fn_pre@[0]@,
                        None => cryptol_fn_pre@.len() == 0,
                    }
                },
                Err(e) => cli_error(
                    in_buffer_size@,
                    out_buffer_param@,
                    cryptol_fn_out@,
                    max_len_precond@,
                    cryptol_arg_order@,
                    cryptol_fn_pre@,
                ) == Some(e),
            },
    {
        let in_buffer_sizes = read_sizes(in_buffer_size)?;
        let out_buffers = read_outs(out_buffer_param)?;
        let fn_out = read_pairs(cryptol_fn_out)?;
        let max_len = read_pairs(max_len_precond)?;
        let arg_order = read_orders(cryptol_arg_order)?;
        if cryptol_fn_pre.len() > 1 {
            return Err(BufferFlagError::TwoPreconditions);
        }
        let pre = if cryptol_fn_pre.len() == 1 {
            Some(cryptol_fn_pre[0].clone())
        } else {
            None
        };
        Ok(
            BufferOverrides {
                in_buffer_sizes,
                out_buffers,
                cryptol_fn_out: fn_out,
                max_len_preconds: max_len,
                cryptol_arg_order: arg_order,
                cryptol_fn_pre: pre,
            },
        )
    }
}

/// The first error among the declarations, in the order in which they are
/// read.
pub open spec fn cli_error(
    in_buffer_size: Seq<String>,
    out_buffer_param: Seq<String>,
    cryptol_fn_out: Seq<String>,
    max_len_precond: Seq<String>,
    cryptol_arg_order: Seq<String>,
    cryptol_fn_pre: Seq<String>,
) -> Option<BufferFlagError> {
    if let Err(e) = in_sizes(in_buffer_size) {
        Some(e)
    } else if let Err(e) = out_sizes(out_buffer_param) {
        Some(e)
    } else if let Err(e) = pairs(cryptol_fn_out) {
        Some(e)
    } else if let Err(e) = pairs(max_len_precond) {
        Some(e)
    } else if let Err(e) = arg_orders(cryptol_arg_order) {
        Some(e)
    } else if cryptol_fn_pre.len() > 1 {
        Some(BufferFlagError::TwoPreconditions)
    } else {
        None
    }
}

pub open spec fn sizes_view(v: Seq<(String, u64)>) -> Seq<(Seq<char>, u64)> {
    Seq::new(v.len(), |i: int| (v[i].0@, v[i].1))
}

pub open spec fn outs_view(v: Seq<(String, Option<u64>)>) -> Seq<(Seq<char>, Option<u64>)> {
    Seq::new(v.len(), |i: int| (v[i].0@, v[i].1))
}

pub open spec fn orders_view(v: Seq<(String, Vec<String>)>) -> Seq<(Seq<char>, Seq<Seq<char>>)> {
    Seq::new(v.len(), |i: int| (v[i].0@, views(v[i].1@)))
}

/// The declarations of names and values.
pub open spec fn pairs(v: Seq<String>) -> Result<Seq<(Seq<char>, Seq<char>)>, BufferFlagError>
    decreases v.len(),
{
    if v.len() == 0 {
        Ok(Seq::empty())
    } else {
        match pairs(v.drop_last()) {
            Ok(done) => match cut(v.last()@, "="@) {
                Some(p) => Ok(done.push(p)),
                None => Err(BufferFlagError::MissingValue),
            },
            Err(e) => Err(e),
        }
    }
}

/// The declarations of sizes.
pub open spec fn in_sizes(v: Seq<String>) -> Result<Seq<(Seq<char>, u64)>, BufferFlagError>
    decreases v.len(),
{
    if v.len() == 0 {
        Ok(Seq::empty())
    } else {
        match in_sizes(v.drop_last()) {
            Ok(done) => match cut(v.last()@, "="@) {
                Some((name, size)) => match parsed(size, u64::MAX as nat) {
                    Some(n) => Ok(done.push((name, n as u64))),
                    None => Err(BufferFlagError::BadSize),
                },
                None => Err(BufferFlagError::MissingValue),
            },
            Err(e) => Err(e),
        }
    }
}

/// The declarations of output buffers.
pub open spec fn out_sizes(v: Seq<String>) -> Result<Seq<(Seq<char>, Option<u64>)>, BufferFlagError>
    decreases v.len(),
{
    if v.len() == 0 {
        Ok(Seq::empty())
    } else {
        match out_sizes(v.drop_last()) {
            Ok(done) => match cut(v.last()@, "="@) {
                Some((name, size)) => if size == "auto"@ {
                    Ok(done.push((name, None)))
                } else {
                    match parsed(size, u64::MAX as nat) {
                        Some(n) => Ok(done.push((name, Some(n as u64)))),
                        None => Err(BufferFlagError::BadSize),
                    }
                },
                None => Err(BufferFlagError::MissingValue),
            },
            Err(e) => Err(e),
        }
    }
}

/// The declarations of the parameters that Cryptol functions take.
pub open spec fn arg_orders(v: Seq<String>) -> Result<
    Seq<(Seq<char>, Seq<Seq<char>>)>,
    BufferFlagError,
>
    decreases v.len(),
{
    if v.len() == 0 {
        Ok(Seq::empty())
    } else {
        match arg_orders(v.drop_last()) {
            Ok(done) => match cut(v.last()@, "="@) {
                Some((name, args)) => Ok(done.push((name, pieces(args, CharSet::Is(','))))),
                None => Err(BufferFlagError::MissingValue),
            },
            Err(e) => Err(e),
        }
    }
}

/// An error among the first declarations is that of all.
proof fn lemma_errors_stay(v: Seq<String>, i: int)
    requires
        0 <= i <= v.len(),
    ensures
        pairs(v.take(i)) matches Err(e) ==> pairs(v) == Err::<
            Seq<(Seq<char>, Seq<char>)>,
            BufferFlagError,
        >(e),
        in_sizes(v.take(i)) matches Err(e) ==> in_sizes(v) == Err::<
            Seq<(Seq<char>, u64)>,
            BufferFlagError,
        >(e),
        out_sizes(v.take(i)) matches Err(e) ==> out_sizes(v) == Err::<
            Seq<(Seq<char>, Option<u64>)>,
            BufferFlagError,
        >(e),
        arg_orders(v.take(i)) matches Err(e) ==> arg_orders(v) == Err::<
            Seq<(Seq<char>, Seq<Seq<char>>)>,
            BufferFlagError,
        >(e),
    decreases v.len() - i,
{
    if i == v.len() {
        assert(v.take(i) =~= v);
    } else {
        lemma_errors_stay(v, i + 1);
        assert(v.take(i + 1).drop_last() =~= v.take(i));
    }
}

fn read_pairs(v: &[String]) -> (r: Result<Vec<(String, String)>, BufferFlagError>)
    ensures
        match r {
            Ok(p) => pairs(v@) == Ok::<Seq<(Seq<char>, Seq<char>)>, BufferFlagError>(
                pairs_view(p@),
            ),
            Err(e) => pairs(v@) == Err::<Seq<(Seq<char>, Seq<char>)>, BufferFlagError>(e),
        },
{
    let mut r: Vec<(String, String)> = Vec::new();
    let mut i: usize = 0;
    assert(pairs_view(r@) =~= Seq::empty());
    while i < v.len()
        invariant
            i <= v@.len(),
            pairs(v@.take(i as int)) == Ok::<Seq<(Seq<char>, Seq<char>)>, BufferFlagError>(
                pairs_view(r@),
            ),
        decreases v@.len() - i,
    {
        proof {
            assert(v@.take(i + 1).drop_last() =~= v@.take(i as int));
            lemma_errors_stay(v@, i + 1);
        }
        let ghost done = pairs_view(r@);
        match split_once(v[i].as_str(), "=") {
            Some((name, value)) => {
                r.push((owned(name), owned(value)));
                assert(pairs_view(r@) =~= done.push((name@, value@)));
            },
            None => {
                return Err(BufferFlagError::MissingValue);
            },
        }
        i += 1;
    }
    assert(v@.take(v@.len() as int) =~= v@);
    Ok(r)
}

fn read_sizes(v: &[String]) -> (r: Result<Vec<(String, u64)>, BufferFlagError>)
    ensures
        match r {
            Ok(p) => in_sizes(v@) == Ok::<Seq<(Seq<char>, u64)>, BufferFlagError>(sizes_view(p@)),
            Err(e) => in_sizes(v@) == Err::<Seq<(Seq<char>, u64)>, BufferFlagError>(e),
        },
{
    let mut r: Vec<(String, u64)> = Vec::new();
    let mut i: usize = 0;
    assert(sizes_view(r@) =~= Seq::empty());
    while i < v.len()
        invariant
            i <= v@.len(),
            in_sizes(v@.take(i as int)) == Ok::<Seq<(Seq<char>, u64)>, BufferFlagError>(
                sizes_view(r@),
            ),
        decreases v@.len() - i,
    {
        proof {
            assert(v@.take(i + 1).drop_last() =~= v@.take(i as int));
            lemma_errors_stay(v@, i + 1);
        }
        let ghost done = sizes_view(r@);
        match split_once(v[i].as_str(), "=") {
            Some((name, value)) => match parse_bounded(value, u64::MAX) {
                Some(n) => {
                    r.push((owned(name), n));
                    assert(sizes_view(r@) =~= done.push((name@, n)));
                },
                None => {
                    return Err(BufferFlagError::BadSize);
                },
            },
            None => {
                return Err(BufferFlagError::MissingValue);
            },
        }
        i += 1;
    }
    assert(v@.take(v@.len() as int) =~= v@);
    Ok(r)
}

fn read_outs(v: &[String]) -> (r: Result<Vec<(String, Option<u64>)>, BufferFlagError>)
    ensures
        match r {
            Ok(p) => out_sizes(v@) == Ok::<Seq<(Seq<char>, Option<u64>)>, BufferFlagError>(
                outs_view(p@),
            ),
            Err(e) => out_sizes(v@) == Err::<Seq<(Seq<char>, Option<u64>)>, BufferFlagError>(e),
        },
{
    let mut r: Vec<(String, Option<u64>)> = Vec::new();
    let mut i: usize = 0;
    assert(outs_view(r@) =~= Seq::empty());
    while i < v.len()
        invariant
            i <= v@.len(),
            out_sizes(v@.take(i as int)) == Ok::<Seq<(Seq<char>, Option<u64>)>, BufferFlagError>(
                outs_view(r@),
            ),
        decreases v@.len() - i,
    {
        proof {
            assert(v@.take(i + 1).drop_last() =~= v@.take(i as int));
            lemma_errors_stay(v@, i + 1);
        }
        let ghost done = outs_view(r@);
        match split_once(v[i].as_str(), "=") {
            Some((name, value)) => {
                if same(value, "auto") {
                    r.push((owned(name), None));
                    assert(outs_view(r@) =~= done.push((name@, None)));
                } else {
                    match parse_bounded(value, u64::MAX) {
                        Some(n) => {
                            r.push((owned(name), Some(n)));
                            assert(outs_view(r@) =~= done.push((name@, Some(n))));
                        },
                        None => {
                            return Err(BufferFlagError::BadSize);
                        },
                    }
                }
            },
            None => {
                return Err(BufferFlagError::MissingValue);
            },
        }
        i += 1;
    }
    assert(v@.take(v@.len() as int) =~= v@);
    Ok(r)
}

fn read_orders(v: &[String]) -> (r: Result<Vec<(String, Vec<String>)>, BufferFlagError>)
    ensures
        match r {
            Ok(p) => arg_orders(v@) == Ok::<Seq<(Seq<char>, Seq<Seq<char>>)>, BufferFlagError>(
                orders_view(p@),
            ),
            Err(e) => arg_orders(v@) == Err::<Seq<(Seq<char>, Seq<Seq<char>>)>, BufferFlagError>(
                e,
            ),
        },
{
    let mut r: Vec<(String, Vec<String>)> = Vec::new();
    let mut i: usize = 0;
    assert(orders_view(r@) =~= Seq::empty());
    while i < v.len()
        invariant
            i <= v@.len(),
            arg_orders(v@.take(i as int)) == Ok::<
                Seq<(Seq<char>, Seq<Seq<char>>)>,
                BufferFlagError,
            >(orders_view(r@)),
        decreases v@.len() - i,
    {
        proof {
            assert(v@.take(i + 1).drop_last() =~= v@.take(i as int));
            lemma_errors_stay(v@, i + 1);
        }
        let ghost done = orders_view(r@);
        match split_once(v[i].as_str(), "=") {
            Some((name, value)) => {
                let args = split(value, CharSet::Is(','));
                let ghost a = views(args@);
                r.push((owned(name), args));
                assert(orders_view(r@) =~= done.push((name@, a)));
            },
            None => {
                return Err(BufferFlagError::MissingValue);
            },
        }
        i += 1;
    }
    assert(v@.take(v@.len() as int) =~= v@);
    Ok(r)
}

} // verus!
