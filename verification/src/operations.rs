//! What each operator, the field accessor, `if` and the binding of call
//! arguments give, stated over the values of their parts.
use crate::error::Error;
use crate::host::{num_of, truth_of, Host, NumOp, NumOut};
use crate::laws::{gives, law_assoc_set_get, law_assoc_set_other, law_text_order_irreflexive};
use crate::node::{Kind, NodeM, Position};
use crate::print::node_text;
use crate::semantics::{bind_params, eval, eval_call, text_less, Fail};
use crate::stack::{assoc_get, assoc_set, FrameM, StackFrame};
use crate::value::{Value, ValueM};
use vstd::prelude::*;

verus! {

/// The binary expression `l k r`.
pub open spec fn binary(k: Kind, l: NodeM, r: NodeM, p: Position) -> NodeM {
    NodeM::BinaryExpression { operator: k, left_operand: Box::new(l), right_operand: Box::new(r), position: p }
}

/// The left operand gives `lv` and then, on the stack it leaves, the right
/// operand gives `rv`.
pub open spec fn operands_give<N: Fn(NumOp) -> NumOut, G: Fn(String, Vec<Value>, StackFrame) -> (StackFrame, Result<Value, Error>)>(
    h: Host<N, G>,
    l: NodeM,
    r: NodeM,
    st: Seq<FrameM>,
    fuel: nat,
    lv: ValueM,
    rv: ValueM,
) -> bool {
    &&& gives(eval(h, l, st, false, fuel).res, lv)
    &&& gives(eval(h, r, eval(h, l, st, false, fuel).stack, false, fuel).res, rv)
}

/// The stack that evaluating both operands leaves.
pub open spec fn operands_stack<N: Fn(NumOp) -> NumOut, G: Fn(String, Vec<Value>, StackFrame) -> (StackFrame, Result<Value, Error>)>(
    h: Host<N, G>,
    l: NodeM,
    r: NodeM,
    st: Seq<FrameM>,
    fuel: nat,
) -> Seq<FrameM> {
    eval(h, r, eval(h, l, st, false, fuel).stack, false, fuel).stack
}

/// A binary expression with an operator that combines values gives what the
/// operator makes of the operands' values, on the stack they leave.
proof fn lemma_operands<N: Fn(NumOp) -> NumOut, G: Fn(String, Vec<Value>, StackFrame) -> (StackFrame, Result<Value, Error>)>(
    h: Host<N, G>, k: Kind, l: NodeM, r: NodeM, p: Position, st: Seq<FrameM>, allow_thunk: bool, fuel: nat, lv: ValueM, rv: ValueM,
)
    requires
        operands_give(h, l, r, st, fuel, lv, rv),
        crate::semantics::is_value_operator(k),
    ensures
        eval(h, binary(k, l, r, p), st, allow_thunk, fuel).res == crate::semantics::combine(h, k, lv, rv, l, r, p),
        eval(h, binary(k, l, r, p), st, allow_thunk, fuel).stack == operands_stack(h, l, r, st, fuel),
{
    let n = binary(k, l, r, p);
    assert(eval(h, n, st, allow_thunk, fuel).res == crate::semantics::eval_binary(h, n, st, fuel).res);
    assert(eval(h, n, st, allow_thunk, fuel).stack == crate::semantics::eval_binary(h, n, st, fuel).stack);
}

/// `a + b` of two numbers is the host's sum, on the stack the operands leave.
pub proof fn law_add_numbers<N: Fn(NumOp) -> NumOut, G: Fn(String, Vec<Value>, StackFrame) -> (StackFrame, Result<Value, Error>)>(
    h: Host<N, G>, l: NodeM, r: NodeM, p: Position, st: Seq<FrameM>, allow_thunk: bool, fuel: nat, a: u64, b: u64,
)
    requires
        operands_give(h, l, r, st, fuel, ValueM::Number(a), ValueM::Number(b)),
    ensures
        gives(eval(h, binary(Kind::AddOp, l, r, p), st, allow_thunk, fuel).res, ValueM::Number(num_of(h.num, NumOp::Add(a, b)))),
        eval(h, binary(Kind::AddOp, l, r, p), st, allow_thunk, fuel).stack == operands_stack(h, l, r, st, fuel),
{
    lemma_operands(h, Kind::AddOp, l, r, p, st, allow_thunk, fuel, ValueM::Number(a), ValueM::Number(b));

}

/// `a - b` of two numbers is the host's difference `a - b`, in that order.
pub proof fn law_subtract_numbers<N: Fn(NumOp) -> NumOut, G: Fn(String, Vec<Value>, StackFrame) -> (StackFrame, Result<Value, Error>)>(
    h: Host<N, G>, l: NodeM, r: NodeM, p: Position, st: Seq<FrameM>, allow_thunk: bool, fuel: nat, a: u64, b: u64,
)
    requires
        operands_give(h, l, r, st, fuel, ValueM::Number(a), ValueM::Number(b)),
    ensures
        gives(eval(h, binary(Kind::SubtractOp, l, r, p), st, allow_thunk, fuel).res, ValueM::Number(num_of(h.num, NumOp::Sub(a, b)))),
        eval(h, binary(Kind::SubtractOp, l, r, p), st, allow_thunk, fuel).stack == operands_stack(h, l, r, st, fuel),
{
    lemma_operands(h, Kind::SubtractOp, l, r, p, st, allow_thunk, fuel, ValueM::Number(a), ValueM::Number(b));

}

/// `a * b` of two numbers is the host's product.
pub proof fn law_multiply_numbers<N: Fn(NumOp) -> NumOut, G: Fn(String, Vec<Value>, StackFrame) -> (StackFrame, Result<Value, Error>)>(
    h: Host<N, G>, l: NodeM, r: NodeM, p: Position, st: Seq<FrameM>, allow_thunk: bool, fuel: nat, a: u64, b: u64,
)
    requires
        operands_give(h, l, r, st, fuel, ValueM::Number(a), ValueM::Number(b)),
    ensures
        gives(eval(h, binary(Kind::MultiplyOp, l, r, p), st, allow_thunk, fuel).res, ValueM::Number(num_of(h.num, NumOp::Mul(a, b)))),
{
    lemma_operands(h, Kind::MultiplyOp, l, r, p, st, allow_thunk, fuel, ValueM::Number(a), ValueM::Number(b));

}

/// `a / b` of two numbers is the host's quotient where `b` is not zero, and
/// a runtime error where it is.
pub proof fn law_divide_numbers<N: Fn(NumOp) -> NumOut, G: Fn(String, Vec<Value>, StackFrame) -> (StackFrame, Result<Value, Error>)>(
    h: Host<N, G>, l: NodeM, r: NodeM, p: Position, st: Seq<FrameM>, allow_thunk: bool, fuel: nat, a: u64, b: u64,
)
    requires
        operands_give(h, l, r, st, fuel, ValueM::Number(a), ValueM::Number(b)),
    ensures
        !truth_of(h.num, NumOp::IsZero(b)) ==> gives(eval(h, binary(Kind::DivideOp, l, r, p), st, allow_thunk, fuel).res, ValueM::Number(num_of(h.num, NumOp::Div(a, b)))),
        truth_of(h.num, NumOp::IsZero(b)) ==> (eval(h, binary(Kind::DivideOp, l, r, p), st, allow_thunk, fuel).res matches Err(Fail::Error(e))
            && e.reason == crate::error::ErrorReason::Runtime),
{
    lemma_operands(h, Kind::DivideOp, l, r, p, st, allow_thunk, fuel, ValueM::Number(a), ValueM::Number(b));

}

/// `a % b` of two numbers is the host's remainder where `b` is not zero, and
/// a runtime error where it is.
pub proof fn law_remainder_numbers<N: Fn(NumOp) -> NumOut, G: Fn(String, Vec<Value>, StackFrame) -> (StackFrame, Result<Value, Error>)>(
    h: Host<N, G>, l: NodeM, r: NodeM, p: Position, st: Seq<FrameM>, allow_thunk: bool, fuel: nat, a: u64, b: u64,
)
    requires
        operands_give(h, l, r, st, fuel, ValueM::Number(a), ValueM::Number(b)),
    ensures
        !truth_of(h.num, NumOp::IsZero(b)) ==> gives(eval(h, binary(Kind::ModulusOp, l, r, p), st, allow_thunk, fuel).res, ValueM::Number(num_of(h.num, NumOp::Rem(a, b)))),
        truth_of(h.num, NumOp::IsZero(b)) ==> (eval(h, binary(Kind::ModulusOp, l, r, p), st, allow_thunk, fuel).res matches Err(Fail::Error(e))
            && e.reason == crate::error::ErrorReason::Runtime),
{
    lemma_operands(h, Kind::ModulusOp, l, r, p, st, allow_thunk, fuel, ValueM::Number(a), ValueM::Number(b));

}

/// `a & b` and `a | b` of two integral numbers are the host's bitwise and
/// and or.
pub proof fn law_bitwise_numbers<N: Fn(NumOp) -> NumOut, G: Fn(String, Vec<Value>, StackFrame) -> (StackFrame, Result<Value, Error>)>(
    h: Host<N, G>, l: NodeM, r: NodeM, p: Position, st: Seq<FrameM>, allow_thunk: bool, fuel: nat, a: u64, b: u64,
)
    requires
        operands_give(h, l, r, st, fuel, ValueM::Number(a), ValueM::Number(b)),
        truth_of(h.num, NumOp::IsIntable(a)),
        truth_of(h.num, NumOp::IsIntable(b)),
    ensures
        gives(eval(h, binary(Kind::LogicalAndOp, l, r, p), st, allow_thunk, fuel).res, ValueM::Number(num_of(h.num, NumOp::BitAnd(a, b)))),
        gives(eval(h, binary(Kind::LogicalOrOp, l, r, p), st, allow_thunk, fuel).res, ValueM::Number(num_of(h.num, NumOp::BitOr(a, b)))),
{
    lemma_operands(h, Kind::LogicalAndOp, l, r, p, st, allow_thunk, fuel, ValueM::Number(a), ValueM::Number(b));
    lemma_operands(h, Kind::LogicalOrOp, l, r, p, st, allow_thunk, fuel, ValueM::Number(a), ValueM::Number(b));

}

/// `a > b` and `a < b` of two numbers are the host's comparisons, in that
/// order; `x > x` and `x < x` are false wherever the host's `>` and `<` are
/// irreflexive.
pub proof fn law_compare_numbers<N: Fn(NumOp) -> NumOut, G: Fn(String, Vec<Value>, StackFrame) -> (StackFrame, Result<Value, Error>)>(
    h: Host<N, G>, l: NodeM, r: NodeM, p: Position, st: Seq<FrameM>, allow_thunk: bool, fuel: nat, a: u64, b: u64,
)
    requires
        operands_give(h, l, r, st, fuel, ValueM::Number(a), ValueM::Number(b)),
    ensures
        gives(eval(h, binary(Kind::GreaterThanOp, l, r, p), st, allow_thunk, fuel).res, ValueM::Bool(truth_of(h.num, NumOp::Greater(a, b)))),
        gives(eval(h, binary(Kind::LessThanOp, l, r, p), st, allow_thunk, fuel).res, ValueM::Bool(truth_of(h.num, NumOp::Less(a, b)))),
        gives(eval(h, binary(Kind::EqualOp, l, r, p), st, allow_thunk, fuel).res, ValueM::Bool(truth_of(h.num, NumOp::Equal(a, b)))),
{
    lemma_operands(h, Kind::GreaterThanOp, l, r, p, st, allow_thunk, fuel, ValueM::Number(a), ValueM::Number(b));
    lemma_operands(h, Kind::LessThanOp, l, r, p, st, allow_thunk, fuel, ValueM::Number(a), ValueM::Number(b));
    lemma_operands(h, Kind::EqualOp, l, r, p, st, allow_thunk, fuel, ValueM::Number(a), ValueM::Number(b));

}

/// `a > b` of two strings holds where `b` comes before `a`, and `a < b`
/// where `a` comes before `b`; neither holds of a string and itself.
pub proof fn law_compare_strings<N: Fn(NumOp) -> NumOut, G: Fn(String, Vec<Value>, StackFrame) -> (StackFrame, Result<Value, Error>)>(
    h: Host<N, G>, l: NodeM, r: NodeM, p: Position, st: Seq<FrameM>, allow_thunk: bool, fuel: nat, a: Seq<char>, b: Seq<char>,
)
    requires
        operands_give(h, l, r, st, fuel, ValueM::Str(a), ValueM::Str(b)),
    ensures
        gives(eval(h, binary(Kind::GreaterThanOp, l, r, p), st, allow_thunk, fuel).res, ValueM::Bool(text_less(b, a))),
        gives(eval(h, binary(Kind::LessThanOp, l, r, p), st, allow_thunk, fuel).res, ValueM::Bool(text_less(a, b))),
        gives(eval(h, binary(Kind::EqualOp, l, r, p), st, allow_thunk, fuel).res, ValueM::Bool(a == b)),
        a == b ==> gives(eval(h, binary(Kind::GreaterThanOp, l, r, p), st, allow_thunk, fuel).res, ValueM::Bool(false)),
        a == b ==> gives(eval(h, binary(Kind::LessThanOp, l, r, p), st, allow_thunk, fuel).res, ValueM::Bool(false)),
        gives(eval(h, binary(Kind::AddOp, l, r, p), st, allow_thunk, fuel).res, ValueM::Str(a + b)),
{
    law_text_order_irreflexive(a);
    lemma_operands(h, Kind::GreaterThanOp, l, r, p, st, allow_thunk, fuel, ValueM::Str(a), ValueM::Str(b));
    lemma_operands(h, Kind::LessThanOp, l, r, p, st, allow_thunk, fuel, ValueM::Str(a), ValueM::Str(b));
    lemma_operands(h, Kind::EqualOp, l, r, p, st, allow_thunk, fuel, ValueM::Str(a), ValueM::Str(b));
    lemma_operands(h, Kind::AddOp, l, r, p, st, allow_thunk, fuel, ValueM::Str(a), ValueM::Str(b));

}

/// Reading field `f` of an object gives the value of the body's entry for `f`.
pub proof fn law_field_read<N: Fn(NumOp) -> NumOut, G: Fn(String, Vec<Value>, StackFrame) -> (StackFrame, Result<Value, Error>)>(
    h: Host<N, G>,
    obj: NodeM,
    field: NodeM,
    p: Position,
    st: Seq<FrameM>,
    allow_thunk: bool,
    fuel: nat,
    name: Seq<char>,
    body: Seq<(Seq<char>, (crate::types::TypeM, ValueM))>,
    t: crate::types::TypeM,
    v: ValueM,
)
    requires
        gives(eval(h, obj, st, false, fuel).res, ValueM::Object { name, body }),
        assoc_get(body, node_text(h.num, field)) == Some((t, v)),
    ensures
        gives(eval(h, binary(Kind::AccessorOp, obj, field, p), st, allow_thunk, fuel).res, v),
        eval(h, binary(Kind::AccessorOp, obj, field, p), st, allow_thunk, fuel).stack == eval(h, obj, st, false, fuel).stack,
{
    let n = binary(Kind::AccessorOp, obj, field, p);
    assert(eval(h, n, st, allow_thunk, fuel).res == crate::semantics::eval_binary(h, n, st, fuel).res);
    assert(eval(h, n, st, allow_thunk, fuel).stack == crate::semantics::eval_binary(h, n, st, fuel).stack);

}

/// The `if` expression with condition `c` and the given branches.
pub open spec fn if_expr(c: NodeM, on_true: Option<Box<NodeM>>, on_false: Option<Box<NodeM>>, p: Position) -> NodeM {
    NodeM::IfExpr { condition: Box::new(c), on_true, on_false, position: p }
}

/// What a branch gives on `st`: the branch's evaluation, or the empty value
/// and `st` itself where there is no branch.
pub open spec fn branch_gives<N: Fn(NumOp) -> NumOut, G: Fn(String, Vec<Value>, StackFrame) -> (StackFrame, Result<Value, Error>)>(
    h: Host<N, G>,
    b: Option<Box<NodeM>>,
    st: Seq<FrameM>,
    allow_thunk: bool,
    fuel: nat,
) -> (Result<ValueM, Fail>, Seq<FrameM>) {
    match b {
        Some(n) => (eval(h, *n, st, allow_thunk, fuel).res, eval(h, *n, st, allow_thunk, fuel).stack),
        None => (Ok(ValueM::Empty), st),
    }
}

/// An `if` whose condition gives `true`, or the empty string, gives what its
/// first branch gives; one whose condition gives `false`, or a string that
/// is not empty, gives what its second branch gives.
pub proof fn law_if_selects_branch<N: Fn(NumOp) -> NumOut, G: Fn(String, Vec<Value>, StackFrame) -> (StackFrame, Result<Value, Error>)>(
    h: Host<N, G>,
    c: NodeM,
    on_true: Option<Box<NodeM>>,
    on_false: Option<Box<NodeM>>,
    p: Position,
    st: Seq<FrameM>,
    allow_thunk: bool,
    fuel: nat,
)
    ensures
        ({
            let cond = eval(h, c, st, allow_thunk, fuel);
            let out = eval(h, if_expr(c, on_true, on_false, p), st, allow_thunk, fuel);
            let first = branch_gives(h, on_true, cond.stack, allow_thunk, fuel);
            let second = branch_gives(h, on_false, cond.stack, allow_thunk, fuel);
            &&& (gives(cond.res, ValueM::Bool(true)) ==> out.res == first.0 && out.stack == first.1)
            &&& (gives(cond.res, ValueM::Bool(false)) ==> out.res == second.0 && out.stack == second.1)
            &&& (gives(cond.res, ValueM::Str(Seq::empty())) ==> out.res == first.0 && out.stack == first.1)
            &&& (cond.res matches Ok(ValueM::Str(s)) && s.len() > 0 ==> out.res == second.0 && out.stack == second.1)
        }),
{
    let n = if_expr(c, on_true, on_false, p);
    assert(eval(h, n, st, allow_thunk, fuel).res == crate::semantics::eval_if(h, n, st, allow_thunk, fuel).res);
    assert(eval(h, n, st, allow_thunk, fuel).stack == crate::semantics::eval_if(h, n, st, allow_thunk, fuel).stack);

}

/// Binding arguments from parameter `k` on, to entries that already bind
/// `name` to `v`, keeps that binding where no later parameter has the name.
proof fn lemma_binding_kept<N: Fn(NumOp) -> NumOut, G: Fn(String, Vec<Value>, StackFrame) -> (StackFrame, Result<Value, Error>)>(
    h: Host<N, G>,
    params: Seq<(NodeM, NodeM)>,
    args: Seq<ValueM>,
    fnv: ValueM,
    k: int,
    acc: Seq<(Seq<char>, ValueM)>,
    vt: Seq<(Seq<char>, ValueM)>,
    name: Seq<char>,
    v: ValueM,
)
    requires
        0 <= k,
        bind_params(h, params, args, fnv, k, acc) == Ok::<Seq<(Seq<char>, ValueM)>, Fail>(vt),
        assoc_get(acc, name) == Some(v),
        forall|j: int| k <= j < params.len() && j < args.len() ==> !(#[trigger] params[j].0 matches NodeM::Identifier { value, .. } && value == name),
    ensures
        assoc_get(vt, name) == Some(v),
    decreases params.len() - k,
{
    if k < params.len() {
        if k < args.len() {
            if let NodeM::Identifier { value, .. } = params[k].0 {
                law_assoc_set_other(acc, value, name, args[k]);
                lemma_binding_kept(h, params, args, fnv, k + 1, assoc_set(acc, value, args[k]), vt, name, v);
            }
        } else {
            lemma_binding_kept(h, params, args, fnv, k + 1, acc, vt, name, v);
        }
    }
}

/// Binding from parameter `k <= i` on binds the name of parameter `i` to
/// argument `i`, where no later parameter has that name.
proof fn lemma_binding_at<N: Fn(NumOp) -> NumOut, G: Fn(String, Vec<Value>, StackFrame) -> (StackFrame, Result<Value, Error>)>(
    h: Host<N, G>,
    params: Seq<(NodeM, NodeM)>,
    args: Seq<ValueM>,
    fnv: ValueM,
    k: int,
    acc: Seq<(Seq<char>, ValueM)>,
    vt: Seq<(Seq<char>, ValueM)>,
    i: int,
    name: Seq<char>,
)
    requires
        0 <= k <= i,
        i < params.len(),
        i < args.len(),
        bind_params(h, params, args, fnv, k, acc) == Ok::<Seq<(Seq<char>, ValueM)>, Fail>(vt),
        params[i].0 matches NodeM::Identifier { value, .. } && value == name,
        forall|j: int| i < j < params.len() && j < args.len() ==> !(#[trigger] params[j].0 matches NodeM::Identifier { value, .. } && value == name),
    ensures
        assoc_get(vt, name) == Some(args[i]),
    decreases i - k,
{
    if let NodeM::Identifier { value, .. } = params[k].0 {
        if k < i {
            lemma_binding_at(h, params, args, fnv, k + 1, assoc_set(acc, value, args[k]), vt, i, name);
        } else {
            law_assoc_set_get(acc, name, args[i]);
            lemma_binding_kept(h, params, args, fnv, k + 1, assoc_set(acc, name, args[i]), vt, name, args[i]);
        }
    }
}

/// Binding the arguments of a call binds the name of parameter `i` to
/// argument `i`, for every `i` below both counts, where no later parameter
/// has the same name (a later one wins).
pub proof fn law_arguments_bound_in_order<N: Fn(NumOp) -> NumOut, G: Fn(String, Vec<Value>, StackFrame) -> (StackFrame, Result<Value, Error>)>(
    h: Host<N, G>,
    params: Seq<(NodeM, NodeM)>,
    args: Seq<ValueM>,
    fnv: ValueM,
    vt: Seq<(Seq<char>, ValueM)>,
    i: int,
    name: Seq<char>,
)
    requires
        bind_params(h, params, args, fnv, 0, Seq::empty()) == Ok::<Seq<(Seq<char>, ValueM)>, Fail>(vt),
        0 <= i < params.len(),
        i < args.len(),
        params[i].0 matches NodeM::Identifier { value, .. } && value == name,
        forall|j: int| i < j < params.len() && j < args.len() ==> !(#[trigger] params[j].0 matches NodeM::Identifier { value, .. } && value == name),
    ensures
        assoc_get(vt, name) == Some(args[i]),
{
    lemma_binding_at(h, params, args, fnv, 0, Seq::empty(), vt, i, name);
}

/// A put-off call of a function of the language carries the arguments bound
/// in order: the name of parameter `i` to argument `i`, for every `i` below
/// both counts whose name no later parameter has.
pub proof fn law_call_binds_arguments_in_order<N: Fn(NumOp) -> NumOut, G: Fn(String, Vec<Value>, StackFrame) -> (StackFrame, Result<Value, Error>)>(
    h: Host<N, G>,
    st: Seq<FrameM>,
    defn: NodeM,
    args: Seq<ValueM>,
    fuel: nat,
    vt: Seq<(Seq<char>, ValueM)>,
    i: int,
    name: Seq<char>,
)
    requires
        defn is FunctionLiteral,
        gives(eval_call(h, st, ValueM::Function(defn), true, args, fuel).res, ValueM::Thunk { vt, func: defn }),
        0 <= i < defn->FunctionLiteral_sign.1.len(),
        i < args.len(),
        defn->FunctionLiteral_sign.1[i].0 matches NodeM::Identifier { value, .. } && value == name,
        forall|j: int| i < j < defn->FunctionLiteral_sign.1.len() && j < args.len() ==> !(#[trigger] defn->FunctionLiteral_sign.1[j].0 matches NodeM::Identifier { value, .. } && value == name),
    ensures
        assoc_get(vt, name) == Some(args[i]),
{
    let params = defn->FunctionLiteral_sign.1;
    law_arguments_bound_in_order(h, params, args, ValueM::Function(defn), vt, i, name);
}

} // verus!

verus! {

/// On truth values `+` and `|` are "or", `*` and `&` are "and", and `==`
/// compares them.
pub proof fn law_bool_operators<N: Fn(NumOp) -> NumOut, G: Fn(String, Vec<Value>, StackFrame) -> (StackFrame, Result<Value, Error>)>(
    h: Host<N, G>, l: NodeM, r: NodeM, p: Position, st: Seq<FrameM>, allow_thunk: bool, fuel: nat, x: bool, y: bool,
)
    requires
        operands_give(h, l, r, st, fuel, ValueM::Bool(x), ValueM::Bool(y)),
    ensures
        gives(eval(h, binary(Kind::AddOp, l, r, p), st, allow_thunk, fuel).res, ValueM::Bool(x || y)),
        gives(eval(h, binary(Kind::LogicalOrOp, l, r, p), st, allow_thunk, fuel).res, ValueM::Bool(x || y)),
        gives(eval(h, binary(Kind::MultiplyOp, l, r, p), st, allow_thunk, fuel).res, ValueM::Bool(x && y)),
        gives(eval(h, binary(Kind::LogicalAndOp, l, r, p), st, allow_thunk, fuel).res, ValueM::Bool(x && y)),
        gives(eval(h, binary(Kind::EqualOp, l, r, p), st, allow_thunk, fuel).res, ValueM::Bool(x == y)),
{
    lemma_operands(h, Kind::AddOp, l, r, p, st, allow_thunk, fuel, ValueM::Bool(x), ValueM::Bool(y));
    lemma_operands(h, Kind::LogicalOrOp, l, r, p, st, allow_thunk, fuel, ValueM::Bool(x), ValueM::Bool(y));
    lemma_operands(h, Kind::MultiplyOp, l, r, p, st, allow_thunk, fuel, ValueM::Bool(x), ValueM::Bool(y));
    lemma_operands(h, Kind::LogicalAndOp, l, r, p, st, allow_thunk, fuel, ValueM::Bool(x), ValueM::Bool(y));
    lemma_operands(h, Kind::EqualOp, l, r, p, st, allow_thunk, fuel, ValueM::Bool(x), ValueM::Bool(y));
}

/// `+` of two arrays of one element type puts the elements of the right one
/// after those of the left one; of different element types it is a runtime
/// error.
pub proof fn law_array_concatenation<N: Fn(NumOp) -> NumOut, G: Fn(String, Vec<Value>, StackFrame) -> (StackFrame, Result<Value, Error>)>(
    h: Host<N, G>, l: NodeM, r: NodeM, p: Position, st: Seq<FrameM>, allow_thunk: bool, fuel: nat,
    t: crate::types::TypeM, xs: Seq<ValueM>, u: crate::types::TypeM, ys: Seq<ValueM>,
)
    requires
        operands_give(h, l, r, st, fuel, ValueM::Array(t, xs), ValueM::Array(u, ys)),
    ensures
        t == u ==> gives(eval(h, binary(Kind::AddOp, l, r, p), st, allow_thunk, fuel).res, ValueM::Array(t, xs + ys)),
        t != u ==> (eval(h, binary(Kind::AddOp, l, r, p), st, allow_thunk, fuel).res matches Err(Fail::Error(e))
            && e.reason == crate::error::ErrorReason::Runtime),
{
    lemma_operands(h, Kind::AddOp, l, r, p, st, allow_thunk, fuel, ValueM::Array(t, xs), ValueM::Array(u, ys));
}

/// Operands of two different kinds among numbers, strings and truth values
/// make an arithmetic operator fail with a runtime error.
pub proof fn law_mixed_operands_fail<N: Fn(NumOp) -> NumOut, G: Fn(String, Vec<Value>, StackFrame) -> (StackFrame, Result<Value, Error>)>(
    h: Host<N, G>, l: NodeM, r: NodeM, p: Position, st: Seq<FrameM>, allow_thunk: bool, fuel: nat, a: u64, s: Seq<char>,
)
    requires
        operands_give(h, l, r, st, fuel, ValueM::Number(a), ValueM::Str(s)),
    ensures
        eval(h, binary(Kind::AddOp, l, r, p), st, allow_thunk, fuel).res matches Err(Fail::Error(e)) && e.reason == crate::error::ErrorReason::Runtime,
        eval(h, binary(Kind::SubtractOp, l, r, p), st, allow_thunk, fuel).res matches Err(Fail::Error(e)) && e.reason == crate::error::ErrorReason::Runtime,
        eval(h, binary(Kind::MultiplyOp, l, r, p), st, allow_thunk, fuel).res matches Err(Fail::Error(e)) && e.reason == crate::error::ErrorReason::Runtime,
        gives(eval(h, binary(Kind::EqualOp, l, r, p), st, allow_thunk, fuel).res, ValueM::Bool(false)),
{
    lemma_operands(h, Kind::AddOp, l, r, p, st, allow_thunk, fuel, ValueM::Number(a), ValueM::Str(s));
    lemma_operands(h, Kind::SubtractOp, l, r, p, st, allow_thunk, fuel, ValueM::Number(a), ValueM::Str(s));
    lemma_operands(h, Kind::MultiplyOp, l, r, p, st, allow_thunk, fuel, ValueM::Number(a), ValueM::Str(s));
    lemma_operands(h, Kind::EqualOp, l, r, p, st, allow_thunk, fuel, ValueM::Number(a), ValueM::Str(s));
}

/// Negating a number literal gives the host's negation of its value, and a
/// truth value literal its opposite; the stack is left as it was.
pub proof fn law_negation<N: Fn(NumOp) -> NumOut, G: Fn(String, Vec<Value>, StackFrame) -> (StackFrame, Result<Value, Error>)>(
    h: Host<N, G>, a: u64, x: bool, lp: Position, p: Position, st: Seq<FrameM>, allow_thunk: bool, fuel: nat,
)
    ensures
        gives(
            eval(h, NodeM::UnaryExpression { operator: Kind::NegationOp, operand: Box::new(NodeM::NumberLiteral { value: a, position: lp }), position: p }, st, allow_thunk, fuel).res,
            ValueM::Number(num_of(h.num, NumOp::Neg(a))),
        ),
        gives(
            eval(h, NodeM::UnaryExpression { operator: Kind::NegationOp, operand: Box::new(NodeM::BoolLiteral { value: x, position: lp }), position: p }, st, allow_thunk, fuel).res,
            ValueM::Bool(!x),
        ),
        eval(h, NodeM::UnaryExpression { operator: Kind::NegationOp, operand: Box::new(NodeM::NumberLiteral { value: a, position: lp }), position: p }, st, allow_thunk, fuel).stack == st,
{
}

/// Indexing an array with a number that converts to index `k` gives the
/// element at `k`, or the empty value where `k` is past the end.
pub proof fn law_index<N: Fn(NumOp) -> NumOut, G: Fn(String, Vec<Value>, StackFrame) -> (StackFrame, Result<Value, Error>)>(
    h: Host<N, G>, operand: NodeM, index: NodeM, p: Position, st: Seq<FrameM>, allow_thunk: bool, fuel: nat,
    t: crate::types::TypeM, vals: Seq<ValueM>, x: u64,
)
    requires
        operands_give(h, operand, index, st, fuel, ValueM::Array(t, vals), ValueM::Number(x)),
        truth_of(h.num, NumOp::IsIntable(x)),
    ensures
        ({
            let k = crate::host::index_of(h.num, x);
            let out = eval(h, NodeM::IndexingOp { operand: Box::new(operand), index: Box::new(index), position: p }, st, allow_thunk, fuel);
            &&& k < vals.len() ==> gives(out.res, vals[k as int])
            &&& k >= vals.len() ==> gives(out.res, ValueM::Empty)
            &&& out.stack == operands_stack(h, operand, index, st, fuel)
        }),
{
    let o = eval(h, operand, st, false, fuel);
    assert(crate::semantics::to_number(h, index, o.stack, fuel).0 == Ok::<u64, Fail>(x));
    assert(crate::semantics::to_number(h, index, o.stack, fuel).2 == operands_stack(h, operand, index, st, fuel));
}

/// The values of number literals, in order.
pub open spec fn literal_numbers(s: Seq<NodeM>) -> Seq<ValueM> {
    Seq::new(s.len(), |k: int| ValueM::Number(s[k]->NumberLiteral_value))
}

/// Evaluating number literals from index `i` on appends their values, in
/// order, and leaves the stack as it was.
proof fn lemma_number_elems<N: Fn(NumOp) -> NumOut, G: Fn(String, Vec<Value>, StackFrame) -> (StackFrame, Result<Value, Error>)>(
    h: Host<N, G>,
    nodes: Seq<NodeM>,
    i: int,
    st: Seq<FrameM>,
    acc: Seq<ValueM>,
    out: Seq<NodeM>,
    fuel: nat,
)
    requires
        1 <= i <= nodes.len(),
        forall|k: int| 0 <= k < nodes.len() ==> #[trigger] nodes[k] is NumberLiteral,
        acc == literal_numbers(nodes).take(i),
    ensures
        crate::semantics::eval_elems(h, nodes, i, st, Some(crate::types::TypeM::Number), acc, out, fuel).0
            == Ok::<Seq<ValueM>, Fail>(literal_numbers(nodes)),
        crate::semantics::eval_elems(h, nodes, i, st, Some(crate::types::TypeM::Number), acc, out, fuel).2 == st,
    decreases nodes.len() - i,
{
    if i < nodes.len() {
        let v = ValueM::Number(nodes[i]->NumberLiteral_value);
        assert(nodes[i] is NumberLiteral);
        assert(eval(h, nodes[i], st, false, fuel) == crate::semantics::EvalM { res: Ok(v), node: nodes[i], stack: st });
        assert(acc.push(v) =~= literal_numbers(nodes).take(i + 1));
        lemma_number_elems(h, nodes, i + 1, st, acc.push(v), out.update(i, nodes[i]), fuel);
    } else {
        assert(acc =~= literal_numbers(nodes));
    }
}

/// An array literal of number literals gives an array of numbers holding
/// their values in the order written, and leaves the stack as it was.
pub proof fn law_array_of_numbers<N: Fn(NumOp) -> NumOut, G: Fn(String, Vec<Value>, StackFrame) -> (StackFrame, Result<Value, Error>)>(
    h: Host<N, G>, value: Seq<NodeM>, p: Position, st: Seq<FrameM>, allow_thunk: bool, fuel: nat,
)
    requires
        value.len() > 0,
        forall|k: int| 0 <= k < value.len() ==> #[trigger] value[k] is NumberLiteral,
    ensures
        gives(
            eval(h, NodeM::ArrayLiteral { value, position: p }, st, allow_thunk, fuel).res,
            ValueM::Array(crate::types::TypeM::Number, literal_numbers(value)),
        ),
        eval(h, NodeM::ArrayLiteral { value, position: p }, st, allow_thunk, fuel).stack == st,
{
    let v0 = ValueM::Number(value[0]->NumberLiteral_value);
    assert(value[0] is NumberLiteral);
    assert(eval(h, value[0], st, false, fuel) == crate::semantics::EvalM { res: Ok(v0), node: value[0], stack: st });
    assert(crate::node::array_depth(value[0]) == 0);
    assert(literal_numbers(value).take(1) =~= seq![v0]);
    assert(value.update(0, value[0]) =~= value);
    lemma_number_elems(h, value, 1, st, seq![v0], value.update(0, value[0]), fuel);
}

} // verus!

verus! {

/// Each field of the literal is bound to its number.
pub open spec fn fields_hold_numbers(
    fields: Seq<(Seq<char>, NodeM)>,
    upto: int,
    body: Seq<(Seq<char>, (crate::types::TypeM, ValueM))>,
) -> bool {
    forall|k: int| 0 <= k < upto ==> assoc_get(body, (#[trigger] fields[k]).0) == Some(
        (crate::types::TypeM::Number, ValueM::Number(fields[k].1->NumberLiteral_value)),
    )
}

proof fn lemma_number_fields<N: Fn(NumOp) -> NumOut, G: Fn(String, Vec<Value>, StackFrame) -> (StackFrame, Result<Value, Error>)>(
    h: Host<N, G>,
    fields: Seq<(Seq<char>, NodeM)>,
    i: int,
    st: Seq<FrameM>,
    acc: Seq<(Seq<char>, (crate::types::TypeM, ValueM))>,
    out: Seq<(Seq<char>, NodeM)>,
    fuel: nat,
)
    requires
        0 <= i <= fields.len(),
        forall|k: int| 0 <= k < fields.len() ==> (#[trigger] fields[k]).1 is NumberLiteral,
        forall|a: int, b: int| 0 <= a < b < fields.len() ==> (#[trigger] fields[a]).0 != (#[trigger] fields[b]).0,
        fields_hold_numbers(fields, i, acc),
    ensures
        crate::semantics::eval_fields(h, fields, i, st, acc, out, fuel).0 matches Ok(body) && fields_hold_numbers(fields, fields.len() as int, body),
        crate::semantics::eval_fields(h, fields, i, st, acc, out, fuel).2 == st,
    decreases fields.len() - i,
{
    if i < fields.len() {
        let f = fields[i];
        let v = ValueM::Number(f.1->NumberLiteral_value);
        assert(f.1 is NumberLiteral);
        assert(eval(h, f.1, st, false, fuel) == crate::semantics::EvalM { res: Ok(v), node: f.1, stack: st });
        let acc2 = assoc_set(acc, f.0, (crate::types::TypeM::Number, v));
        assert forall|k: int| 0 <= k < i + 1 implies assoc_get(acc2, (#[trigger] fields[k]).0) == Some(
            (crate::types::TypeM::Number, ValueM::Number(fields[k].1->NumberLiteral_value)),
        ) by {
            if k == i {
                law_assoc_set_get(acc, f.0, (crate::types::TypeM::Number, v));
            } else {
                assert(fields[k].0 != fields[i].0);
                law_assoc_set_other(acc, f.0, fields[k].0, (crate::types::TypeM::Number, v));
            }
        }
        lemma_number_fields(h, fields, i + 1, st, acc2, out.update(i, (f.0, f.1)), fuel);
    }
}

/// An object literal whose fields are number literals with different names
/// gives an object of the literal's name in which each field name reads back
/// the number written for it; the stack is left as it was.
pub proof fn law_object_of_numbers<N: Fn(NumOp) -> NumOut, G: Fn(String, Vec<Value>, StackFrame) -> (StackFrame, Result<Value, Error>)>(
    h: Host<N, G>, name: Seq<char>, value: Seq<(Seq<char>, NodeM)>, p: Position, st: Seq<FrameM>, allow_thunk: bool, fuel: nat,
)
    requires
        forall|k: int| 0 <= k < value.len() ==> (#[trigger] value[k]).1 is NumberLiteral,
        forall|a: int, b: int| 0 <= a < b < value.len() ==> (#[trigger] value[a]).0 != (#[trigger] value[b]).0,
    ensures
        eval(h, NodeM::ObjectLiteral { name, value, position: p }, st, allow_thunk, fuel).res matches Ok(ValueM::Object { name: n, body })
            && n == name && fields_hold_numbers(value, value.len() as int, body),
        eval(h, NodeM::ObjectLiteral { name, value, position: p }, st, allow_thunk, fuel).stack == st,
{
    lemma_number_fields(h, value, 0, st, Seq::empty(), value, fuel);
}

/// A name evaluates to the value the innermost frame that has it binds it
/// to, and to a system error where no frame has it; the stack is unchanged.
pub proof fn law_identifier_reads_stack<N: Fn(NumOp) -> NumOut, G: Fn(String, Vec<Value>, StackFrame) -> (StackFrame, Result<Value, Error>)>(
    h: Host<N, G>, x: Seq<char>, p: Position, st: Seq<FrameM>, allow_thunk: bool, fuel: nat,
)
    ensures
        crate::stack::stack_get(st, x) matches Some(v) ==> gives(eval(h, NodeM::Identifier { value: x, position: p }, st, allow_thunk, fuel).res, v),
        crate::stack::stack_get(st, x) is None ==> (eval(h, NodeM::Identifier { value: x, position: p }, st, allow_thunk, fuel).res matches Err(Fail::Error(e))
            && e.reason == crate::error::ErrorReason::System),
        eval(h, NodeM::Identifier { value: x, position: p }, st, allow_thunk, fuel).stack == st,
{
}

} // verus!
