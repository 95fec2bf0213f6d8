//! The ABI adjuster: rewrites how each argument and the return value of a
//! function are passed, so that the device calling convention can take them.

use vstd::prelude::*;

verus! {

/// How one argument (or the return value) is passed.
#[derive(Clone, Copy, Debug, PartialEq, Eq, Structural)]
pub enum PassMode {
    /// Not passed at all (a zero-sized value).
    Ignore,
    /// Passed by value in one register.
    Direct,
    /// Passed as two scalars (a pointer and a length).
    Pair,
    /// Passed behind a pointer to a copy.
    Indirect,
}

/// The shape of an argument's type, as far as the adjuster looks at it.
#[derive(Clone, Copy, Debug, PartialEq, Eq, Structural)]
pub enum ArgKind {
    /// A scalar, a pointer to a sized value, or any other type left alone.
    Scalar,
    /// A reference to a slice (a fat pointer).
    SliceRef,
    /// A fixed-size array.
    Array,
    /// A struct, enum or tuple.
    Aggregate,
}

/// The calling convention of a function.
#[derive(Clone, Copy, Debug, PartialEq, Eq, Structural)]
pub enum Conv {
    /// The host language's own convention, left untouched.
    Rust,
    /// The C convention.
    C,
    /// A device kernel entry point.
    PtxKernel,
}

/// One argument, or the return value: its type's size and shape, and how it is passed.
#[derive(Clone, Copy, Debug, PartialEq, Eq, Structural)]
pub struct ArgAbi {
    pub size: u64,
    pub kind: ArgKind,
    pub mode: PassMode,
}

/// A function ABI descriptor.
#[derive(Debug)]
pub struct FnAbi {
    pub args: Vec<ArgAbi>,
    pub ret: ArgAbi,
    pub c_variadic: bool,
    pub fixed_count: u32,
    pub conv: Conv,
    pub can_unwind: bool,
}

/// The mathematical value of a [`FnAbi`].
pub struct FnAbiView {
    pub args: Seq<ArgAbi>,
    pub ret: ArgAbi,
    pub c_variadic: bool,
    pub fixed_count: u32,
    pub conv: Conv,
    pub can_unwind: bool,
}

impl View for FnAbi {
    type V = FnAbiView;

    open spec fn view(&self) -> FnAbiView {
        FnAbiView {
            args: self.args@,
            ret: self.ret,
            c_variadic: self.c_variadic,
            fixed_count: self.fixed_count,
            conv: self.conv,
            can_unwind: self.can_unwind,
        }
    }
}

/// The device rule for one argument: a zero-sized value is not passed, a slice
/// reference is passed as a pointer and a length, an array is passed by value;
/// anything else keeps its mode.
pub open spec fn adjusted_arg(a: ArgAbi) -> ArgAbi {
    if a.size == 0 {
        ArgAbi { mode: PassMode::Ignore, ..a }
    } else if a.kind == ArgKind::SliceRef {
        ArgAbi { mode: PassMode::Pair, ..a }
    } else if a.kind == ArgKind::Array {
        ArgAbi { mode: PassMode::Direct, ..a }
    } else {
        a
    }
}

/// A descriptor after adjustment: the host convention is left as it is; any
/// other has each argument and the return value adjusted, in place.
pub open spec fn adjusted(d: FnAbiView) -> FnAbiView {
    if d.conv == Conv::Rust {
        d
    } else {
        FnAbiView { args: d.args.map_values(|a: ArgAbi| adjusted_arg(a)), ret: adjusted_arg(d.ret), ..d }
    }
}

/// Adjusts one argument by the device rule.
pub fn readjust_arg_abi(a: ArgAbi) -> (r: ArgAbi)
    ensures
        r == adjusted_arg(a),
{
    if a.size == 0 {
        ArgAbi { mode: PassMode::Ignore, ..a }
    } else if a.kind == ArgKind::SliceRef {
        ArgAbi { mode: PassMode::Pair, ..a }
    } else if a.kind == ArgKind::Array {
        ArgAbi { mode: PassMode::Direct, ..a }
    } else {
        a
    }
}

/// Adjusts a function ABI descriptor for the device; the number and order of
/// the arguments never change, only how each is passed.
pub fn readjust_fn_abi(fn_abi: &FnAbi) -> (r: FnAbi)
    ensures
        r@ == adjusted(fn_abi@),
        r@.args.len() == fn_abi@.args.len(),
{
    if fn_abi.conv == Conv::Rust {
        return fn_abi.clone_abi();
    }
    let mut args: Vec<ArgAbi> = Vec::with_capacity(fn_abi.args.len());
    let mut i: usize = 0;
    while i < fn_abi.args.len()
        invariant
            i <= fn_abi.args@.len(),
            args@.len() == i,
            forall|j: int| 0 <= j < i ==> args@[j] == adjusted_arg(#[trigger] fn_abi.args@[j]),
        decreases fn_abi.args@.len() - i,
    {
        args.push(readjust_arg_abi(fn_abi.args[i]));
        i = i + 1;
    }
    let r = FnAbi {
        args,
        ret: readjust_arg_abi(fn_abi.ret),
        c_variadic: fn_abi.c_variadic,
        fixed_count: fn_abi.fixed_count,
        conv: fn_abi.conv,
        can_unwind: fn_abi.can_unwind,
    };
    assert(r@.args =~= fn_abi@.args.map_values(|a: ArgAbi| adjusted_arg(a)));
    r
}

impl FnAbi {
    /// A copy of this descriptor.
    pub fn clone_abi(&self) -> (r: FnAbi)
        ensures
            r@ == self@,
    {
        let mut args: Vec<ArgAbi> = Vec::with_capacity(self.args.len());
        let mut i: usize = 0;
        while i < self.args.len()
            invariant
                i <= self.args@.len(),
                args@ =~= self.args@.take(i as int),
            decreases self.args@.len() - i,
        {
            args.push(self.args[i]);
            i = i + 1;
        }
        assert(args@ =~= self.args@);
        FnAbi {
            args,
            ret: self.ret,
            c_variadic: self.c_variadic,
            fixed_count: self.fixed_count,
            conv: self.conv,
            can_unwind: self.can_unwind,
        }
    }
}

/// Adjusting an already adjusted argument changes nothing.
pub proof fn lemma_adjusted_arg_idempotent(a: ArgAbi)
    ensures
        adjusted_arg(adjusted_arg(a)) == adjusted_arg(a),
{
}

/// Adjustment is idempotent: adjusting an adjusted descriptor gives it back unchanged.
pub proof fn lemma_adjust_idempotent(d: FnAbiView)
    ensures
        adjusted(adjusted(d)) == adjusted(d),
{
    if d.conv != Conv::Rust {
        let once = adjusted(d);
        let twice = adjusted(once);
        assert forall|j: int| 0 <= j < d.args.len() implies #[trigger] twice.args[j] == once.args[j] by {
            lemma_adjusted_arg_idempotent(d.args[j]);
        }
        lemma_adjusted_arg_idempotent(d.ret);
        assert(twice.args =~= once.args);
    }
}

/// What the adjusting query provider returns for what the default provider
/// gave: an adjusted descriptor, or the default provider's error unchanged.
pub fn fn_abi_query<E>(default_result: Result<FnAbi, E>) -> (r: Result<FnAbi, E>)
    ensures
        default_result is Ok ==> r is Ok && r->Ok_0@ == adjusted(default_result->Ok_0@),
        default_result is Err ==> r == default_result,
{
    match default_result {
        Ok(d) => Ok(readjust_fn_abi(&d)),
        Err(e) => Err(e),
    }
}

} // verus!
