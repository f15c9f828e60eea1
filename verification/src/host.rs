//! What the evaluator asks of its host: the floating-point arithmetic on
//! numbers (held as the bits of an `f64`) and the native functions.
use crate::error::{Error, ErrorM};
use crate::i18n::Catalog;
use crate::stack::{FrameM, StackFrame};
use crate::value::{values_model, Value, ValueM};
use vstd::prelude::*;

verus! {

/// An operation on numbers, each given by the bits of an `f64`.
#[derive(Debug, Clone, Copy, PartialEq, Eq, Structural)]
pub enum NumOp {
    /// `-a`
    Neg(u64),
    /// `a + b`
    Add(u64, u64),
    /// `a - b`
    Sub(u64, u64),
    /// `a * b`
    Mul(u64, u64),
    /// `a / b`
    Div(u64, u64),
    /// `a % b`
    Rem(u64, u64),
    /// `(a as i64 & b as i64) as f64`
    BitAnd(u64, u64),
    /// `(a as i64 | b as i64) as f64`
    BitOr(u64, u64),
    /// `a > b`
    Greater(u64, u64),
    /// `a < b`
    Less(u64, u64),
    /// `a == b`
    Equal(u64, u64),
    /// `a == 0.0`
    IsZero(u64),
    /// `a == a.trunc()`
    IsIntable(u64),
    /// `a as usize`
    ToIndex(u64),
    /// `a.to_string()`
    Render(u64),
}

/// The answer to a [`NumOp`].
pub enum NumOut {
    Num(u64),
    Truth(bool),
    Index(usize),
    Text(String),
}

/// The model of a [`NumOut`].
pub enum NumOutM {
    Num(u64),
    Truth(bool),
    Index(usize),
    Text(Seq<char>),
}

impl View for NumOut {
    type V = NumOutM;

    open spec fn view(&self) -> NumOutM {
        match self {
            NumOut::Num(b) => NumOutM::Num(*b),
            NumOut::Truth(t) => NumOutM::Truth(*t),
            NumOut::Index(i) => NumOutM::Index(*i),
            NumOut::Text(s) => NumOutM::Text(s@),
        }
    }
}

/// The kind of answer each operation has.
pub open spec fn out_shape(op: NumOp, r: NumOutM) -> bool {
    match op {
        NumOp::Neg(..) | NumOp::Add(..) | NumOp::Sub(..) | NumOp::Mul(..) | NumOp::Div(..)
        | NumOp::Rem(..) | NumOp::BitAnd(..) | NumOp::BitOr(..) => r is Num,
        NumOp::Greater(..) | NumOp::Less(..) | NumOp::Equal(..) | NumOp::IsZero(..)
        | NumOp::IsIntable(..) => r is Truth,
        NumOp::ToIndex(..) => r is Index,
        NumOp::Render(..) => r is Text,
    }
}

/// The arithmetic may be called on every operation, answers each with the
/// right kind of answer, and answers the same operation alike.
pub open spec fn num_ok<N: Fn(NumOp) -> NumOut>(n: N) -> bool {
    &&& forall|op: NumOp| call_requires(n, (op,))
    &&& forall|op: NumOp, r: NumOut| call_ensures(n, (op,), r) ==> out_shape(op, r@)
    &&& forall|op: NumOp, r1: NumOut, r2: NumOut|
        #![trigger call_ensures(n, (op,), r1), call_ensures(n, (op,), r2)]
        call_ensures(n, (op,), r1) && call_ensures(n, (op,), r2) ==> r1@ == r2@
}

/// The answer of the arithmetic to an operation.
pub open spec fn num_result<N: Fn(NumOp) -> NumOut>(n: N, op: NumOp) -> NumOutM {
    (choose|r: NumOut| call_ensures(n, (op,), r))@
}

/// The number that answers an arithmetic operation.
pub open spec fn num_of<N: Fn(NumOp) -> NumOut>(n: N, op: NumOp) -> u64 {
    match num_result(n, op) {
        NumOutM::Num(b) => b,
        _ => 0,
    }
}

/// The truth value that answers a test.
pub open spec fn truth_of<N: Fn(NumOp) -> NumOut>(n: N, op: NumOp) -> bool {
    match num_result(n, op) {
        NumOutM::Truth(b) => b,
        _ => false,
    }
}

/// The index that a number converts to.
pub open spec fn index_of<N: Fn(NumOp) -> NumOut>(n: N, a: u64) -> usize {
    match num_result(n, NumOp::ToIndex(a)) {
        NumOutM::Index(i) => i,
        _ => 0,
    }
}

/// The text of a number.
pub open spec fn num_text<N: Fn(NumOp) -> NumOut>(n: N, a: u64) -> Seq<char> {
    match num_result(n, NumOp::Render(a)) {
        NumOutM::Text(s) => s,
        _ => Seq::empty(),
    }
}

/// The model of what a native function gives back: the stack and its answer.
pub open spec fn native_res_model(r: (StackFrame, Result<Value, Error>)) -> (Seq<FrameM>, Result<ValueM, ErrorM>) {
    (
        r.0@,
        match r.1 {
            Ok(v) => Ok(v@),
            Err(e) => Err(e@),
        },
    )
}

/// The native functions may be called with any name, arguments and stack.
pub open spec fn natives_callable<G: Fn(String, Vec<Value>, StackFrame) -> (StackFrame, Result<Value, Error>)>(g: G) -> bool {
    forall|name: String, args: Vec<Value>, st: StackFrame| call_requires(g, (name, args, st))
}

/// The native functions answer calls with the same name, argument values and
/// stack alike: what they give depends on nothing else.
pub open spec fn natives_deterministic<G: Fn(String, Vec<Value>, StackFrame) -> (StackFrame, Result<Value, Error>)>(g: G) -> bool {
    forall|
        n1: String,
        a1: Vec<Value>,
        s1: StackFrame,
        r1: (StackFrame, Result<Value, Error>),
        n2: String,
        a2: Vec<Value>,
        s2: StackFrame,
        r2: (StackFrame, Result<Value, Error>),
    |
        #![trigger call_ensures(g, (n1, a1, s1), r1), call_ensures(g, (n2, a2, s2), r2)]
        call_ensures(g, (n1, a1, s1), r1) && call_ensures(g, (n2, a2, s2), r2) && n1@ == n2@
            && values_model(a1@) == values_model(a2@) && s1@ == s2@ ==> native_res_model(r1)
            == native_res_model(r2)
}

/// What the native function `name` gives back for the argument values
/// `args` on the stack `st`: the stack it leaves and its answer.
pub open spec fn native_result<G: Fn(String, Vec<Value>, StackFrame) -> (StackFrame, Result<Value, Error>)>(
    g: G,
    name: Seq<char>,
    args: Seq<ValueM>,
    st: Seq<FrameM>,
) -> (Seq<FrameM>, Result<ValueM, ErrorM>) {
    native_res_model(
        (choose|c: (String, Vec<Value>, StackFrame, (StackFrame, Result<Value, Error>))|
            c.0@ == name && values_model(c.1@) == args && c.2@ == st && #[trigger] call_ensures(
                g,
                (c.0, c.1, c.2),
                c.3,
            )).3,
    )
}

/// The host of an evaluation: the translations, the arithmetic on numbers
/// and the native functions.
pub struct Host<N, G> {
    pub cat: Catalog,
    pub num: N,
    pub native: G,
}

impl<N: Fn(NumOp) -> NumOut, G: Fn(String, Vec<Value>, StackFrame) -> (StackFrame, Result<Value, Error>)> Host<N, G> {
    /// The host's arithmetic and native functions meet what evaluation asks:
    /// both can be called on everything, and answer alike what is asked alike.
    pub open spec fn ok(&self) -> bool {
        num_ok(self.num) && natives_callable(self.native) && natives_deterministic(self.native)
    }

    /// Runs an operation of the arithmetic.
    pub fn run(&self, op: NumOp) -> (r: NumOut)
        requires
            num_ok(self.num),
        ensures
            r@ == num_result(self.num, op),
            out_shape(op, r@),
    {
        let r = (self.num)(op);
        proof {
            let c = choose|c: NumOut| call_ensures(self.num, (op,), c);
            assert(call_ensures(self.num, (op,), c));
            assert(c@ == r@);
        }
        r
    }

    /// The number that answers an arithmetic operation.
    pub fn number(&self, op: NumOp) -> (r: u64)
        requires
            num_ok(self.num),
            out_shape(op, NumOutM::Num(0)),
        ensures
            r == num_of(self.num, op),
    {
        match self.run(op) {
            NumOut::Num(b) => b,
            _ => 0,
        }
    }

    /// The truth value that answers a test on numbers.
    pub fn truth(&self, op: NumOp) -> (r: bool)
        requires
            num_ok(self.num),
            out_shape(op, NumOutM::Truth(false)),
        ensures
            r == truth_of(self.num, op),
    {
        match self.run(op) {
            NumOut::Truth(b) => b,
            _ => false,
        }
    }

    /// The index that a number converts to.
    pub fn index(&self, a: u64) -> (r: usize)
        requires
            num_ok(self.num),
        ensures
            r == index_of(self.num, a),
    {
        match self.run(NumOp::ToIndex(a)) {
            NumOut::Index(i) => i,
            _ => 0,
        }
    }

    /// The text of a number.
    pub fn render(&self, a: u64) -> (r: String)
        requires
            num_ok(self.num),
        ensures
            r@ == num_text(self.num, a),
    {
        match self.run(NumOp::Render(a)) {
            NumOut::Text(s) => s,
            _ => String::new(),
        }
    }

    /// Calls the native function `name`, which may read and change the
    /// stack: what it gives back is one of the outcomes the function allows.
    pub fn call_native(&self, name: String, args: Vec<Value>, stack: &mut StackFrame) -> (r: Result<Value, Error>)
        requires
            natives_callable(self.native),
        ensures
            call_ensures(self.native, (name, args, *old(stack)), (*final(stack), r)),
    {
        let mut taken = StackFrame { frames: Vec::new() };
        std::mem::swap(&mut taken, stack);
        let (back, r) = (self.native)(name, args, taken);
        *stack = back;
        r
    }
}

/// Where the native functions answer alike what is asked alike, each outcome
/// of a call is the one that `native_result` names.
pub proof fn lemma_native_outcome<G: Fn(String, Vec<Value>, StackFrame) -> (StackFrame, Result<Value, Error>)>(
    g: G,
    name: String,
    args: Vec<Value>,
    st: StackFrame,
    r: (StackFrame, Result<Value, Error>),
)
    requires
        natives_deterministic(g),
        call_ensures(g, (name, args, st), r),
    ensures
        native_res_model(r) == native_result(g, name@, values_model(args@), st@),
{
    let w = (name, args, st, r);
    assert(call_ensures(g, (w.0, w.1, w.2), w.3));
    let c = choose|c: (String, Vec<Value>, StackFrame, (StackFrame, Result<Value, Error>))|
        c.0@ == name@ && values_model(c.1@) == values_model(args@) && c.2@ == st@
            && #[trigger] call_ensures(g, (c.0, c.1, c.2), c.3);
    assert(call_ensures(g, (c.0, c.1, c.2), c.3));
}

} // verus!
