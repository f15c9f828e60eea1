//! The meaning of evaluation, as functions on models: what each node
//! evaluates to, and what it leaves in the node and on the stack.
use crate::error::{Error, ErrorM, ErrorReason};
use crate::host::{index_of, num_of, num_text, native_result, truth_of, Host, NumOp, NumOut};
use crate::node::{node_position, Kind, NodeM, Position};
use crate::print::{kind_text, node_text, position_text, value_fits, value_text};
use crate::stack::{assoc_get, assoc_set, stack_get, stack_set, stack_up, FrameM, StackFrame};
use crate::text::decimal;
use crate::types::{type_text, TypeM};
use crate::value::{type_of_value, values_equal, Value, ValueM};
use crate::node::{array_depth, fields_depth, nodes_depth, opt_depth};
use vstd::prelude::*;

verus! {

/// How an evaluation fails: with an error of the language, or by stopping
/// the process, which this library's callers rule out.
pub enum Fail {
    Error(ErrorM),
    Abort,
}

/// What evaluating a node gives: the result, the node as evaluation left
/// it, and the stack.
pub struct EvalM {
    pub res: Result<ValueM, Fail>,
    pub node: NodeM,
    pub stack: Seq<FrameM>,
}

/// What a step of evaluation that changes no node gives.
pub struct StepM {
    pub res: Result<ValueM, Fail>,
    pub stack: Seq<FrameM>,
}

/// The names of the first `k` message patterns: `a`, `b`, `c`, `d`.
pub open spec fn pattern_names(k: nat) -> Seq<Seq<char>> {
    seq!["a"@, "b"@, "c"@, "d"@].take(k as int)
}

/// The error with the text of `key`.
pub open spec fn fail0<N, G>(h: Host<N, G>, key: Seq<char>, reason: ErrorReason) -> Fail {
    Fail::Error(ErrorM { message: h.cat.text(key), reason })
}

/// The message of `key` with its patterns `a`, `b`, ... filled with `vals`;
/// the text unfilled where filling would cut a character.
pub open spec fn message_with(cat: crate::i18n::Catalog, key: Seq<char>, vals: Seq<Seq<char>>) -> Seq<char> {
    match cat.text_with(key, pattern_names(vals.len()), vals) {
        Some(m) => m,
        None => cat.text(key),
    }
}

/// The error with the text of `key`, its patterns `a`, `b`, ... filled with `vals`.
pub open spec fn failn<N, G>(h: Host<N, G>, key: Seq<char>, vals: Seq<Seq<char>>, reason: ErrorReason) -> Fail {
    Fail::Error(ErrorM { message: message_with(h.cat, key, vals), reason })
}

/// The error raised when the evaluation budget runs out.
pub open spec fn depth_fail<N, G>(h: Host<N, G>) -> Fail {
    fail0(h, "errors.eval_depth"@, ErrorReason::System)
}

/// Whether `a` comes before `b` in the order of `String`: by the first
/// character in which they differ, or `a` is a proper prefix of `b`.
pub open spec fn text_less(a: Seq<char>, b: Seq<char>) -> bool
    decreases a.len(),
{
    if b.len() == 0 {
        false
    } else if a.len() == 0 {
        true
    } else if a[0] != b[0] {
        a[0] < b[0]
    } else {
        text_less(a.drop_first(), b.drop_first())
    }
}

/// Converting a number to an index: numbers with an integral value convert
/// as `as usize` does; others are an error.
pub open spec fn to_usize<N: Fn(NumOp) -> NumOut, G>(h: Host<N, G>, num: u64, pos: Position) -> Result<usize, Fail> {
    if truth_of(h.num, NumOp::IsIntable(num)) {
        Ok(index_of(h.num, num))
    } else {
        Err(failn(h, "errors.to_usize_e"@, seq![num_text(h.num, num), position_text(pos)], ErrorReason::Runtime))
    }
}

/// Whether a value evaluated last in a function body has the type that the
/// function's signature names.
pub open spec fn fits_return<N: Fn(NumOp) -> NumOut, G>(h: Host<N, G>, val: ValueM, ret: NodeM) -> bool {
    let shown = match type_of_value(val) {
        TypeM::Object(obj) => obj,
        TypeM::Array(_) => match val {
            ValueM::Array(t, arr) => if arr.len() == 0 && t == TypeM::Empty {
                node_text(h.num, ret)
            } else {
                type_text(h.cat, type_of_value(val))
            },
            _ => type_text(h.cat, type_of_value(val)),
        },
        _ => type_text(h.cat, type_of_value(val)),
    };
    shown == node_text(h.num, ret)
}

/// Drops `k` frames from the stack.
pub open spec fn pop_frames<N, G>(h: Host<N, G>, st: Seq<FrameM>, k: nat) -> Result<Seq<FrameM>, Fail>
    decreases k,
{
    if k == 0 {
        Ok(st)
    } else if st.len() == 0 {
        Err(fail0(h, "errors.stack_pop"@, ErrorReason::System))
    } else {
        pop_frames(h, st.drop_last(), (k - 1) as nat)
    }
}

/// Evaluates a node.
pub open spec fn eval<N: Fn(NumOp) -> NumOut, G: Fn(String, Vec<Value>, StackFrame) -> (StackFrame, Result<Value, Error>)>(
    h: Host<N, G>,
    node: NodeM,
    st: Seq<FrameM>,
    allow_thunk: bool,
    fuel: nat,
) -> EvalM
    decreases fuel, array_depth(node), 2int, node, 2int,
{
    match node {
        NodeM::NumberLiteral { value, .. } => EvalM { res: Ok(ValueM::Number(value)), node, stack: st },
        NodeM::StringLiteral { value, .. } => EvalM { res: Ok(ValueM::Str(value)), node, stack: st },
        NodeM::BoolLiteral { value, .. } => EvalM { res: Ok(ValueM::Bool(value)), node, stack: st },
        NodeM::ArrayLiteral { value, position } => {
            if value.len() == 0 {
                EvalM { res: Ok(ValueM::Array(TypeM::Empty, Seq::empty())), node, stack: st }
            } else {
                proof {
                    crate::node::lemma_nodes_depth(value);
                }
                let first = eval(h, value[0], st, false, fuel);
                match first.res {
                    Err(f) => EvalM {
                        res: Err(f),
                        node: NodeM::ArrayLiteral { value: value.update(0, first.node), position },
                        stack: first.stack,
                    },
                    Ok(v0) => {
                        let ty = type_of_value(v0);
                        // Evaluation keeps how deeply array literals nest in a node
                        // (`law_evaluation_keeps_nesting`), so the first branch is
                        // the one taken.
                        let again = if array_depth(first.node) <= array_depth(value[0]) {
                            eval(h, first.node, first.stack, false, fuel)
                        } else {
                            first
                        };
                        let value2 = value.update(0, again.node);
                        match again.res {
                            Err(f) => EvalM {
                                res: Err(f),
                                node: NodeM::ArrayLiteral { value: value2, position },
                                stack: again.stack,
                            },
                            Ok(w) => if type_of_value(w) != ty {
                                EvalM {
                                    res: Err(failn(h, "errors.eval_e1"@, seq![type_text(h.cat, ty), type_text(h.cat, type_of_value(w)), position_text(node_position(again.node))], ErrorReason::Runtime)),
                                    node: NodeM::ArrayLiteral { value: value2, position },
                                    stack: again.stack,
                                }
                            } else {
                                let r = eval_elems(h, value, 1, again.stack, Some(ty), seq![w], value2, fuel);
                                EvalM {
                                    res: match r.0 {
                                        Ok(vals) => Ok(ValueM::Array(ty, vals)),
                                        Err(f) => Err(f),
                                    },
                                    node: NodeM::ArrayLiteral { value: r.1, position },
                                    stack: r.2,
                                }
                            },
                        }
                    },
                }
            }
        },
        NodeM::ObjectLiteral { name, value, position } => {
            let r = eval_fields(h, value, 0, st, Seq::empty(), value, fuel);
            EvalM {
                res: match r.0 {
                    Ok(body) => Ok(ValueM::Object { name, body }),
                    Err(f) => Err(f),
                },
                node: NodeM::ObjectLiteral { name, value: r.1, position },
                stack: r.2,
            }
        },
        NodeM::EmptyLiteral(_) => EvalM { res: Ok(ValueM::Empty), node, stack: st },
        NodeM::EmptyIdentifier { .. } => EvalM { res: Ok(ValueM::Empty), node, stack: st },
        NodeM::Identifier { value, position } => EvalM {
            res: match stack_get(st, value) {
                Some(v) => Ok(v),
                None => Err(failn(h, "errors.eval_e2"@, seq![value, position_text(position)], ErrorReason::System)),
            },
            node,
            stack: st,
        },
        NodeM::UnaryExpression { operator, operand, position } => {
            if operator == Kind::NegationOp {
                match *operand {
                    NodeM::NumberLiteral { value, position: p } => {
                        let neg = num_of(h.num, NumOp::Neg(value));
                        EvalM {
                            res: Ok(ValueM::Number(neg)),
                            node: NodeM::UnaryExpression {
                                operator,
                                operand: Box::new(NodeM::NumberLiteral { value: neg, position: p }),
                                position,
                            },
                            stack: st,
                        }
                    },
                    NodeM::BoolLiteral { value, position: p } => EvalM {
                        res: Ok(ValueM::Bool(!value)),
                        node: NodeM::UnaryExpression {
                            operator,
                            operand: Box::new(NodeM::BoolLiteral { value: !value, position: p }),
                            position,
                        },
                        stack: st,
                    },
                    NodeM::Identifier { value, position: p } => EvalM {
                        res: if stack_get(st, value) is Some {
                            Err(failn(h, "errors.eval_e3"@, seq![node_text(h.num, *operand), position_text(position)], ErrorReason::Runtime))
                        } else {
                            Err(failn(h, "errors.eval_e2"@, seq![value, position_text(p)], ErrorReason::System))
                        },
                        node,
                        stack: st,
                    },
                    _ => EvalM {
                        res: Err(failn(h, "errors.eval_e3"@, seq![node_text(h.num, *operand), position_text(position)], ErrorReason::Syntax)),
                        node,
                        stack: st,
                    },
                }
            } else {
                EvalM {
                    res: Err(failn(h, "errors.eval_e4"@, seq![kind_text(operator), position_text(position)], ErrorReason::Syntax)),
                    node,
                    stack: st,
                }
            }
        },
        NodeM::BinaryExpression { .. } => {
            let r = eval_binary(h, node, st, fuel);
            EvalM { res: r.res, node, stack: r.stack }
        },
        NodeM::IndexingOp { operand, index, position } => {
            let o = eval(h, *operand, st, false, fuel);
            match o.res {
                Err(f) => EvalM {
                    res: Err(f),
                    node: NodeM::IndexingOp { operand: Box::new(o.node), index, position },
                    stack: o.stack,
                },
                Ok(ValueM::Array(_, vals)) => {
                    let n = to_number(h, *index, o.stack, fuel);
                    let node2 = NodeM::IndexingOp { operand: Box::new(o.node), index: Box::new(n.1), position };
                    match n.0 {
                        Err(f) => EvalM { res: Err(f), node: node2, stack: n.2 },
                        Ok(num) => match to_usize(h, num, node_position(n.1)) {
                            Err(f) => EvalM { res: Err(f), node: node2, stack: n.2 },
                            Ok(idx) => EvalM {
                                res: if idx >= vals.len() {
                                    Ok(ValueM::Empty)
                                } else {
                                    Ok(vals[idx as int])
                                },
                                node: node2,
                                stack: n.2,
                            },
                        },
                    }
                },
                Ok(_) => EvalM {
                    res: Err(failn(h, "errors.eval_e5"@, seq![node_text(h.num, o.node), position_text(node_position(o.node))], ErrorReason::Runtime)),
                    node: NodeM::IndexingOp { operand: Box::new(o.node), index, position },
                    stack: o.stack,
                },
            }
        },
        NodeM::SlicingOp { operand, start_inclusive, end_exclusive, position } => {
            let o = eval(h, *operand, st, false, fuel);
            let node1 = NodeM::SlicingOp { operand: Box::new(o.node), start_inclusive, end_exclusive, position };
            match o.res {
                Err(f) => EvalM { res: Err(f), node: node1, stack: o.stack },
                Ok(ValueM::Array(t, vals)) => match (start_inclusive, end_exclusive) {
                    (Some(x), None) => {
                        proof {
                            assert(array_depth(*x) == opt_depth(start_inclusive));
                        }
                        let n = to_number(h, *x, o.stack, fuel);
                        let node2 = NodeM::SlicingOp {
                            operand: Box::new(o.node),
                            start_inclusive: Some(Box::new(n.1)),
                            end_exclusive,
                            position,
                        };
                        EvalM {
                            res: match n.0 {
                                Err(f) => Err(f),
                                Ok(num) => match to_usize(h, num, node_position(n.1)) {
                                    Err(f) => Err(f),
                                    Ok(k) => if k > vals.len() {
                                        Err(Fail::Abort)
                                    } else {
                                        Ok(ValueM::Array(t, vals.subrange(k as int, vals.len() as int)))
                                    },
                                },
                            },
                            node: node2,
                            stack: n.2,
                        }
                    },
                    (None, Some(x)) => {
                        proof {
                            assert(array_depth(*x) == opt_depth(end_exclusive));
                        }
                        let n = to_number(h, *x, o.stack, fuel);
                        let node2 = NodeM::SlicingOp {
                            operand: Box::new(o.node),
                            start_inclusive,
                            end_exclusive: Some(Box::new(n.1)),
                            position,
                        };
                        EvalM {
                            res: match n.0 {
                                Err(f) => Err(f),
                                Ok(num) => match to_usize(h, num, node_position(n.1)) {
                                    Err(f) => Err(f),
                                    Ok(k) => if k > vals.len() {
                                        Err(Fail::Abort)
                                    } else {
                                        Ok(ValueM::Array(t, vals.subrange(0, k as int)))
                                    },
                                },
                            },
                            node: node2,
                            stack: n.2,
                        }
                    },
                    (Some(x), Some(y)) => {
                        proof {
                            assert(array_depth(*x) == opt_depth(start_inclusive));
                            assert(array_depth(*y) == opt_depth(end_exclusive));
                        }
                        let ny = to_number(h, *y, o.stack, fuel);
                        let node2 = NodeM::SlicingOp {
                            operand: Box::new(o.node),
                            start_inclusive,
                            end_exclusive: Some(Box::new(ny.1)),
                            position,
                        };
                        match ny.0 {
                            Err(f) => EvalM { res: Err(f), node: node2, stack: ny.2 },
                            Ok(numy) => match to_usize(h, numy, node_position(ny.1)) {
                                Err(f) => EvalM { res: Err(f), node: node2, stack: ny.2 },
                                Ok(ky) => if ky > vals.len() {
                                    EvalM { res: Err(Fail::Abort), node: node2, stack: ny.2 }
                                } else {
                                    let nx = to_number(h, *x, ny.2, fuel);
                                    let node3 = NodeM::SlicingOp {
                                        operand: Box::new(o.node),
                                        start_inclusive: Some(Box::new(nx.1)),
                                        end_exclusive: Some(Box::new(ny.1)),
                                        position,
                                    };
                                    EvalM {
                                        res: match nx.0 {
                                            Err(f) => Err(f),
                                            Ok(numx) => match to_usize(h, numx, node_position(nx.1)) {
                                                Err(f) => Err(f),
                                                Ok(kx) => if kx > ky {
                                                    Err(Fail::Abort)
                                                } else {
                                                    Ok(ValueM::Array(t, vals.subrange(kx as int, ky as int)))
                                                },
                                            },
                                        },
                                        node: node3,
                                        stack: nx.2,
                                    }
                                },
                            },
                        }
                    },
                    (None, None) => EvalM {
                        res: Err(fail0(h, "errors.eval_e6"@, ErrorReason::Assert)),
                        node: node1,
                        stack: o.stack,
                    },
                },
                Ok(_) => EvalM {
                    res: Err(failn(h, "errors.eval_e5"@, seq![node_text(h.num, o.node), position_text(node_position(o.node))], ErrorReason::Runtime)),
                    node: node1,
                    stack: o.stack,
                },
            }
        },
        NodeM::FunctionCall { function, arguments, position } => {
            let a = eval_elems(h, arguments, 0, st, None, Seq::empty(), arguments, fuel);
            match a.0 {
                Err(f) => EvalM {
                    res: Err(f),
                    node: NodeM::FunctionCall { function, arguments: a.1, position },
                    stack: a.2,
                },
                Ok(args) => {
                    let fv = eval(h, *function, a.2, false, fuel);
                    let node2 = NodeM::FunctionCall { function: Box::new(fv.node), arguments: a.1, position };
                    match fv.res {
                        Err(f) => EvalM { res: Err(f), node: node2, stack: fv.stack },
                        Ok(fnv) => {
                            let r = eval_call(h, fv.stack, fnv, allow_thunk, args, fuel);
                            EvalM { res: r.res, node: node2, stack: r.stack }
                        },
                    }
                },
            }
        },
        NodeM::FunctionLiteral { sign, .. } => match *sign.0 {
            NodeM::Identifier { value, .. } => EvalM {
                res: Ok(ValueM::Empty),
                node,
                stack: stack_set(st, value, ValueM::Function(node)),
            },
            _ => EvalM {
                res: Err(failn(h, "errors.eval_e7"@, seq![node_text(h.num, *sign.0), position_text(node_position(*sign.0))], ErrorReason::Assert)),
                node,
                stack: st,
            },
        },
        NodeM::IfExpr { .. } => {
            let r = eval_if(h, node, st, allow_thunk, fuel);
            EvalM { res: r.res, node, stack: r.stack }
        },
    }
}

/// Evaluates the nodes from index `i` on, each to a value of type `ty`
/// where one is given, collecting the values after `acc`; `out` holds the
/// nodes as evaluation has left them. Gives the values, the nodes and the
/// stack.
pub open spec fn eval_elems<N: Fn(NumOp) -> NumOut, G: Fn(String, Vec<Value>, StackFrame) -> (StackFrame, Result<Value, Error>)>(
    h: Host<N, G>,
    nodes: Seq<NodeM>,
    i: int,
    st: Seq<FrameM>,
    ty: Option<TypeM>,
    acc: Seq<ValueM>,
    out: Seq<NodeM>,
    fuel: nat,
) -> (Result<Seq<ValueM>, Fail>, Seq<NodeM>, Seq<FrameM>)
    decreases fuel, nodes_depth(nodes), 2int, nodes, nodes.len() - i,
{
    if i < 0 || i >= nodes.len() {
        (Ok(acc), out, st)
    } else {
        proof {
            crate::node::lemma_nodes_depth(nodes);
        }
        let e = eval(h, nodes[i], st, false, fuel);
        let out1 = out.update(i, e.node);
        match e.res {
            Err(f) => (Err(f), out1, e.stack),
            Ok(v) => match ty {
                Some(t) => if type_of_value(v) != t {
                    (
                        Err(failn(h, "errors.eval_e1"@, seq![type_text(h.cat, t), type_text(h.cat, type_of_value(v)), position_text(node_position(e.node))], ErrorReason::Runtime)),
                        out1,
                        e.stack,
                    )
                } else {
                    eval_elems(h, nodes, i + 1, e.stack, ty, acc.push(v), out1, fuel)
                },
                None => eval_elems(h, nodes, i + 1, e.stack, ty, acc.push(v), out1, fuel),
            },
        }
    }
}

/// Evaluates the fields of an object literal from index `i` on, adding each
/// to the body `acc`; `out` holds the fields as evaluation has left them.
pub open spec fn eval_fields<N: Fn(NumOp) -> NumOut, G: Fn(String, Vec<Value>, StackFrame) -> (StackFrame, Result<Value, Error>)>(
    h: Host<N, G>,
    fields: Seq<(Seq<char>, NodeM)>,
    i: int,
    st: Seq<FrameM>,
    acc: Seq<(Seq<char>, (TypeM, ValueM))>,
    out: Seq<(Seq<char>, NodeM)>,
    fuel: nat,
) -> (Result<Seq<(Seq<char>, (TypeM, ValueM))>, Fail>, Seq<(Seq<char>, NodeM)>, Seq<FrameM>)
    decreases fuel, fields_depth(fields), 2int, fields, fields.len() - i,
{
    if i < 0 || i >= fields.len() {
        (Ok(acc), out, st)
    } else {
        proof {
            crate::node::lemma_fields_depth(fields);
        }
        let e = eval(h, fields[i].1, st, false, fuel);
        let out1 = out.update(i, (fields[i].0, e.node));
        match e.res {
            Err(f) => (Err(f), out1, e.stack),
            Ok(v) => eval_fields(h, fields, i + 1, e.stack, assoc_set(acc, fields[i].0, (type_of_value(v), v)), out1, fuel),
        }
    }
}

/// Evaluates a node that must give a number.
pub open spec fn to_number<N: Fn(NumOp) -> NumOut, G: Fn(String, Vec<Value>, StackFrame) -> (StackFrame, Result<Value, Error>)>(
    h: Host<N, G>,
    node: NodeM,
    st: Seq<FrameM>,
    fuel: nat,
) -> (Result<u64, Fail>, NodeM, Seq<FrameM>)
    decreases fuel, array_depth(node), 2int, node, 3int,
{
    let e = eval(h, node, st, false, fuel);
    match e.res {
        Err(f) => (Err(f), e.node, e.stack),
        Ok(ValueM::Number(n)) => (Ok(n), e.node, e.stack),
        Ok(_) => (Err(failn(h, "errors.to_number_e"@, seq![node_text(h.num, e.node), position_text(node_position(e.node))], ErrorReason::Runtime)), e.node, e.stack),
    }
}

/// Evaluates an `if` expression: the condition, then the branch it selects.
pub open spec fn eval_if<N: Fn(NumOp) -> NumOut, G: Fn(String, Vec<Value>, StackFrame) -> (StackFrame, Result<Value, Error>)>(
    h: Host<N, G>,
    node: NodeM,
    st: Seq<FrameM>,
    allow_thunk: bool,
    fuel: nat,
) -> StepM
    decreases fuel, array_depth(node), 2int, node, 1int,
{
    match node {
        NodeM::IfExpr { condition, on_true, on_false, .. } => {
            let c = eval(h, *condition, st, allow_thunk, fuel);
            match c.res {
                Err(f) => StepM { res: Err(f), stack: c.stack },
                Ok(ValueM::Bool(b)) => if b {
                    eval_branch(h, on_true, c.stack, allow_thunk, fuel)
                } else {
                    eval_branch(h, on_false, c.stack, allow_thunk, fuel)
                },
                Ok(ValueM::Str(t)) => if t.len() == 0 {
                    eval_branch(h, on_true, c.stack, allow_thunk, fuel)
                } else {
                    eval_branch(h, on_false, c.stack, allow_thunk, fuel)
                },
                Ok(_) => StepM {
                    res: Err(failn(h, "errors.eval_if_expr_node_e1"@, seq![node_text(h.num, c.node), position_text(node_position(node))], ErrorReason::Runtime)),
                    stack: c.stack,
                },
            }
        },
        _ => StepM { res: Err(Fail::Error(ErrorM { message: Seq::empty(), reason: ErrorReason::System })), stack: st },
    }
}

/// Evaluates the branch of an `if` expression, or gives the empty value
/// where there is none.
pub open spec fn eval_branch<N: Fn(NumOp) -> NumOut, G: Fn(String, Vec<Value>, StackFrame) -> (StackFrame, Result<Value, Error>)>(
    h: Host<N, G>,
    branch: Option<Box<NodeM>>,
    st: Seq<FrameM>,
    allow_thunk: bool,
    fuel: nat,
) -> StepM
    decreases fuel, opt_depth(branch), 2int, branch, 0int,
{
    match branch {
        Some(b) => {
            let e = eval(h, *b, st, allow_thunk, fuel);
            StepM { res: e.res, stack: e.stack }
        },
        None => StepM { res: Ok(ValueM::Empty), stack: st },
    }
}

/// The error whose message shows the value `v`; showing a value whose
/// function text cannot be cut stops the process.
pub open spec fn fail_showing<N: Fn(NumOp) -> NumOut, G>(
    h: Host<N, G>,
    shown: Seq<ValueM>,
    key: Seq<char>,
    vals: Seq<Seq<char>>,
    reason: ErrorReason,
) -> Fail {
    if forall|i: int| 0 <= i < shown.len() ==> value_fits(h.num, #[trigger] shown[i]) {
        failn(h, key, vals, reason)
    } else {
        Fail::Abort
    }
}

/// The error for operands of kinds that an operator does not combine.
pub open spec fn mismatch<N: Fn(NumOp) -> NumOut, G>(h: Host<N, G>, operator: Kind, left: NodeM, right: NodeM, position: Position) -> Fail {
    failn(h, "errors.eval_binary_expr_node_e17"@, seq![kind_text(operator), node_text(h.num, left), node_text(h.num, right), position_text(position)], ErrorReason::Runtime)
}

/// The error for a left operand that an operator does not take.
pub open spec fn bad_left<N: Fn(NumOp) -> NumOut, G>(h: Host<N, G>, key: Seq<char>, l: ValueM, r: ValueM, position: Position, reason: ErrorReason) -> Fail {
    fail_showing(h, seq![l, r], key, seq![value_text(h.num, h.cat, l), value_text(h.num, h.cat, r), position_text(position)], reason)
}

/// Whether an operator is one that combines the values of both operands.
pub open spec fn is_value_operator(k: Kind) -> bool {
    match k {
        Kind::AddOp | Kind::SubtractOp | Kind::MultiplyOp | Kind::DivideOp | Kind::ModulusOp
        | Kind::LogicalAndOp | Kind::LogicalOrOp | Kind::GreaterThanOp | Kind::LessThanOp
        | Kind::EqualOp => true,
        _ => false,
    }
}

/// What an operator makes of the values of its operands.
pub open spec fn combine<N: Fn(NumOp) -> NumOut, G>(
    h: Host<N, G>,
    operator: Kind,
    l: ValueM,
    r: ValueM,
    left: NodeM,
    right: NodeM,
    position: Position,
) -> Result<ValueM, Fail> {
    let e17 = Err(mismatch(h, operator, left, right, position));
    match operator {
        Kind::AddOp => match (l, r) {
            (ValueM::Number(a), ValueM::Number(b)) => Ok(ValueM::Number(num_of(h.num, NumOp::Add(a, b)))),
            (ValueM::Number(_), _) => e17,
            (ValueM::Str(a), ValueM::Str(b)) => Ok(ValueM::Str(a + b)),
            (ValueM::Str(_), _) => e17,
            (ValueM::Bool(a), ValueM::Bool(b)) => Ok(ValueM::Bool(a || b)),
            (ValueM::Bool(_), _) => e17,
            (ValueM::Array(ti, ai), ValueM::Array(tj, aj)) => if ti == tj {
                Ok(ValueM::Array(ti, ai + aj))
            } else {
                e17
            },
            (ValueM::Array(..), _) => e17,
            _ => Err(bad_left(h, "errors.eval_binary_expr_node_e4"@, l, r, position, ErrorReason::Syntax)),
        },
        Kind::SubtractOp => match (l, r) {
            (ValueM::Number(a), ValueM::Number(b)) => Ok(ValueM::Number(num_of(h.num, NumOp::Sub(a, b)))),
            (ValueM::Number(_), _) => e17,
            _ => Err(bad_left(h, "errors.eval_binary_expr_node_e5"@, l, r, position, ErrorReason::Syntax)),
        },
        Kind::MultiplyOp => match (l, r) {
            (ValueM::Number(a), ValueM::Number(b)) => Ok(ValueM::Number(num_of(h.num, NumOp::Mul(a, b)))),
            (ValueM::Number(_), _) => e17,
            (ValueM::Bool(a), ValueM::Bool(b)) => Ok(ValueM::Bool(a && b)),
            (ValueM::Bool(_), _) => e17,
            _ => Err(bad_left(h, "errors.eval_binary_expr_node_e6"@, l, r, position, ErrorReason::Syntax)),
        },
        Kind::DivideOp => match (l, r) {
            (ValueM::Number(a), ValueM::Number(b)) => if truth_of(h.num, NumOp::IsZero(b)) {
                Err(failn(h, "errors.eval_binary_expr_node_e7"@, seq![node_text(h.num, right)], ErrorReason::Runtime))
            } else {
                Ok(ValueM::Number(num_of(h.num, NumOp::Div(a, b))))
            },
            (ValueM::Number(_), _) => e17,
            _ => Err(bad_left(h, "errors.eval_binary_expr_node_e8"@, l, r, position, ErrorReason::Syntax)),
        },
        Kind::ModulusOp => match (l, r) {
            (ValueM::Number(a), ValueM::Number(b)) => if truth_of(h.num, NumOp::IsZero(b)) {
                Err(failn(h, "errors.eval_binary_expr_node_e9"@, seq![position_text(node_position(right))], ErrorReason::Runtime))
            } else {
                Ok(ValueM::Number(num_of(h.num, NumOp::Rem(a, b))))
            },
            (ValueM::Number(_), _) => e17,
            _ => Err(fail_showing(h, seq![r], "errors.eval_binary_expr_node_e10"@, seq![value_text(h.num, h.cat, r), position_text(node_position(left))], ErrorReason::Syntax)),
        },
        Kind::LogicalAndOp => match (l, r) {
            (ValueM::Number(a), ValueM::Number(b)) => if truth_of(h.num, NumOp::IsIntable(a)) && truth_of(h.num, NumOp::IsIntable(b)) {
                Ok(ValueM::Number(num_of(h.num, NumOp::BitAnd(a, b))))
            } else {
                Err(bad_left(h, "errors.eval_binary_expr_node_e11"@, l, r, position, ErrorReason::Runtime))
            },
            (ValueM::Number(_), _) => Err(bad_left(h, "errors.eval_binary_expr_node_e11"@, l, r, position, ErrorReason::Runtime)),
            (ValueM::Bool(a), ValueM::Bool(b)) => Ok(ValueM::Bool(a && b)),
            (ValueM::Bool(_), _) => e17,
            _ => Err(bad_left(h, "errors.eval_binary_expr_node_e12"@, l, r, position, ErrorReason::Syntax)),
        },
        Kind::LogicalOrOp => match (l, r) {
            (ValueM::Number(a), ValueM::Number(b)) => if truth_of(h.num, NumOp::IsIntable(a)) && truth_of(h.num, NumOp::IsIntable(b)) {
                Ok(ValueM::Number(num_of(h.num, NumOp::BitOr(a, b))))
            } else {
                Err(bad_left(h, "errors.eval_binary_expr_node_e13"@, l, r, position, ErrorReason::Runtime))
            },
            (ValueM::Number(_), _) => Err(bad_left(h, "errors.eval_binary_expr_node_e13"@, l, r, position, ErrorReason::Runtime)),
            (ValueM::Bool(a), ValueM::Bool(b)) => Ok(ValueM::Bool(a || b)),
            (ValueM::Bool(_), _) => e17,
            _ => Err(bad_left(h, "errors.eval_binary_expr_node_e14"@, l, r, position, ErrorReason::Syntax)),
        },
        Kind::GreaterThanOp => match (l, r) {
            (ValueM::Number(a), ValueM::Number(b)) => Ok(ValueM::Bool(truth_of(h.num, NumOp::Greater(a, b)))),
            (ValueM::Number(_), _) => e17,
            (ValueM::Str(a), ValueM::Str(b)) => Ok(ValueM::Bool(text_less(b, a))),
            (ValueM::Str(_), _) => e17,
            _ => Err(bad_left(h, "errors.eval_binary_expr_node_e15"@, l, r, position, ErrorReason::Runtime)),
        },
        Kind::LessThanOp => match (l, r) {
            (ValueM::Number(a), ValueM::Number(b)) => Ok(ValueM::Bool(truth_of(h.num, NumOp::Less(a, b)))),
            (ValueM::Number(_), _) => e17,
            (ValueM::Str(a), ValueM::Str(b)) => Ok(ValueM::Bool(text_less(a, b))),
            (ValueM::Str(_), _) => e17,
            _ => Err(bad_left(h, "errors.eval_binary_expr_node_e15"@, l, r, position, ErrorReason::Runtime)),
        },
        _ => Ok(ValueM::Bool(values_equal(h.num, l, r))),
    }
}

/// Evaluates a binary expression.
pub open spec fn eval_binary<N: Fn(NumOp) -> NumOut, G: Fn(String, Vec<Value>, StackFrame) -> (StackFrame, Result<Value, Error>)>(
    h: Host<N, G>,
    node: NodeM,
    st: Seq<FrameM>,
    fuel: nat,
) -> StepM
    decreases fuel, array_depth(node), 2int, node, 1int,
{
    match node {
        NodeM::BinaryExpression { operator, left_operand, right_operand, position } => {
            if operator == Kind::AssignOp {
                eval_assign(h, node, st, fuel)
            } else if operator == Kind::AccessorOp {
                let o = eval(h, *left_operand, st, false, fuel);
                match o.res {
                    Err(f) => StepM { res: Err(f), stack: o.stack },
                    Ok(obj) => StepM {
                        res: match obj {
                            ValueM::Object { name, body } => match assoc_get(body, node_text(h.num, *right_operand)) {
                                Some(tv) => Ok(tv.1),
                                None => Err(fail_showing(h, seq![obj], "errors.eval_binary_expr_node_e1"@, seq![name, value_text(h.num, h.cat, obj), position_text(node_position(*left_operand))], ErrorReason::Runtime)),
                            },
                            _ => Err(fail_showing(h, seq![obj], "errors.eval_binary_expr_node_e2"@, seq![value_text(h.num, h.cat, obj)], ErrorReason::System)),
                        },
                        stack: o.stack,
                    },
                }
            } else if is_value_operator(operator) {
                let l = eval(h, *left_operand, st, false, fuel);
                match l.res {
                    Err(f) => StepM { res: Err(f), stack: l.stack },
                    Ok(lv) => {
                        let r = eval(h, *right_operand, l.stack, false, fuel);
                        match r.res {
                            Err(f) => StepM { res: Err(f), stack: r.stack },
                            Ok(rv) => StepM {
                                res: combine(h, operator, lv, rv, *left_operand, *right_operand, position),
                                stack: r.stack,
                            },
                        }
                    },
                }
            } else {
                StepM {
                    res: Err(failn(h, "errors.eval_binary_expr_node_e16"@, seq![kind_text(operator)], ErrorReason::Assert)),
                    stack: st,
                }
            }
        },
        _ => StepM {
            res: Err(failn(h, "errors.eval_binary_expr_node_e18"@, seq![node_text(h.num, node), position_text(node_position(node))], ErrorReason::Assert)),
            stack: st,
        },
    }
}

/// Evaluates an assignment.
pub open spec fn eval_assign<N: Fn(NumOp) -> NumOut, G: Fn(String, Vec<Value>, StackFrame) -> (StackFrame, Result<Value, Error>)>(
    h: Host<N, G>,
    node: NodeM,
    st: Seq<FrameM>,
    fuel: nat,
) -> StepM
    decreases fuel, array_depth(node), 2int, node, 0int,
{
    match node {
        NodeM::BinaryExpression { left_operand, right_operand, .. } => match *left_operand {
            NodeM::Identifier { value, .. } => {
                let r = eval(h, *right_operand, st, false, fuel);
                match r.res {
                    Err(f) => StepM { res: Err(f), stack: r.stack },
                    Ok(rv) => StepM {
                        res: Ok(ValueM::Assignment(Box::new(rv))),
                        stack: stack_set(r.stack, value, rv),
                    },
                }
            },
            NodeM::IndexingOp { operand, index, .. } => {
                proof {
                    assert(array_depth(*operand) <= array_depth(*left_operand));
                    assert(array_depth(*index) <= array_depth(*left_operand));
                }
                let o = eval(h, *operand, st, false, fuel);
                match o.res {
                    Err(f) => StepM { res: Err(f), stack: o.stack },
                    Ok(ValueM::Array(_, vals)) => {
                        let n = to_number(h, *index, o.stack, fuel);
                        match n.0 {
                            Err(f) => StepM { res: Err(f), stack: n.2 },
                            Ok(num) => match to_usize(h, num, node_position(n.1)) {
                                Err(f) => StepM { res: Err(f), stack: n.2 },
                                Ok(idx) => if idx >= vals.len() && idx == usize::MAX {
                                    StepM { res: Err(Fail::Abort), stack: n.2 }
                                } else {
                                    let r = eval(h, *right_operand, n.2, false, fuel);
                                    match r.res {
                                        Err(f) => StepM { res: Err(f), stack: r.stack },
                                        Ok(rv) => StepM { res: Ok(ValueM::Assignment(Box::new(rv))), stack: r.stack },
                                    }
                                },
                            },
                        }
                    },
                    Ok(_) => StepM {
                        res: Err(failn(h, "errors.eval_e5"@, seq![node_text(h.num, o.node), position_text(node_position(o.node))], ErrorReason::Runtime)),
                        stack: o.stack,
                    },
                }
            },
            NodeM::BinaryExpression { operator: l_operator, left_operand: l_left, right_operand: l_right, position: l_position } => {
                if l_operator == Kind::AccessorOp {
                    proof {
                        assert(array_depth(*l_left) <= array_depth(*left_operand));
                    }
                    let o = eval(h, *l_left, st, false, fuel);
                    match o.res {
                        Err(f) => StepM { res: Err(f), stack: o.stack },
                        Ok(obj) => match obj {
                            ValueM::Object { name, body } => if assoc_get(body, node_text(h.num, *l_right)) is Some {
                                let r = eval(h, *right_operand, o.stack, false, fuel);
                                match r.res {
                                    Err(f) => StepM { res: Err(f), stack: r.stack },
                                    Ok(_) => match stack_up(r.stack, name, obj) {
                                        Some(st2) => StepM { res: Ok(obj), stack: st2 },
                                        None => StepM {
                                            res: Err(failn(h, "errors.stack_up"@, seq![name], ErrorReason::System)),
                                            stack: r.stack,
                                        },
                                    },
                                }
                            } else {
                                StepM {
                                    res: Err(fail_showing(h, seq![obj], "errors.eval_binary_expr_node_e1"@, seq![name, value_text(h.num, h.cat, obj), position_text(l_position)], ErrorReason::Runtime)),
                                    stack: o.stack,
                                }
                            },
                            _ => StepM {
                                res: Err(fail_showing(h, seq![obj], "erros.eval_binary_expr_node_e2"@, seq![value_text(h.num, h.cat, obj)], ErrorReason::System)),
                                stack: o.stack,
                            },
                        },
                    }
                } else {
                    StepM {
                        res: Err(failn(h, "errors.eval_binary_expr_node_e3"@, seq![node_text(h.num, *l_left), position_text(l_position)], ErrorReason::Runtime)),
                        stack: st,
                    }
                }
            },
            _ => {
                let lo = eval(h, *left_operand, st, false, fuel);
                match lo.res {
                    Err(f) => StepM { res: Err(f), stack: lo.stack },
                    Ok(lv) => StepM {
                        res: Err(fail_showing(h, seq![lv], "errors.eval_binary_expr_node_e3"@, seq![value_text(h.num, h.cat, lv), position_text(node_position(lo.node))], ErrorReason::Runtime)),
                        stack: lo.stack,
                    },
                }
            },
        },
        _ => StepM { res: Err(Fail::Error(ErrorM { message: Seq::empty(), reason: ErrorReason::System })), stack: st },
    }
}

/// Binds the arguments `args` to the parameters from index `i` on, checking
/// each argument's type against the parameter's.
pub open spec fn bind_params<N: Fn(NumOp) -> NumOut, G>(
    h: Host<N, G>,
    params: Seq<(NodeM, NodeM)>,
    args: Seq<ValueM>,
    fnv: ValueM,
    i: int,
    vt: Seq<(Seq<char>, ValueM)>,
) -> Result<Seq<(Seq<char>, ValueM)>, Fail>
    decreases params.len() - i,
{
    if i < 0 || i >= params.len() {
        Ok(vt)
    } else if i < args.len() {
        let want = type_text(h.cat, type_of_value(args[i]));
        if want != node_text(h.num, params[i].1) && want != "[]()"@ {
            Err(fail_showing(h, seq![fnv], "errors.eval_speak_function_e1"@, seq![node_text(h.num, params[i].1), want, decimal((i + 1) as nat), value_text(h.num, h.cat, fnv)], ErrorReason::Runtime))
        } else {
            match params[i].0 {
                NodeM::Identifier { value, .. } => bind_params(h, params, args, fnv, i + 1, assoc_set(vt, value, args[i])),
                _ => Err(failn(h, "errors.eval_speak_function_e2"@, seq![node_text(h.num, params[i].0)], ErrorReason::Assert)),
            }
        }
    } else {
        bind_params(h, params, args, fnv, i + 1, vt)
    }
}

/// Calls the function value `fnv` with the argument values `args`.
pub open spec fn eval_call<N: Fn(NumOp) -> NumOut, G: Fn(String, Vec<Value>, StackFrame) -> (StackFrame, Result<Value, Error>)>(
    h: Host<N, G>,
    st: Seq<FrameM>,
    fnv: ValueM,
    allow_thunk: bool,
    args: Seq<ValueM>,
    fuel: nat,
) -> StepM
    decreases fuel, 0nat, 1int, fnv, 0int,
{
    match fnv {
        ValueM::Function(defn) => match defn {
            NodeM::FunctionLiteral { sign, .. } => match bind_params(h, sign.1, args, fnv, 0, Seq::empty()) {
                Err(f) => StepM { res: Err(f), stack: st },
                Ok(vt) => {
                    let thunk = ValueM::Thunk { vt, func: defn };
                    if allow_thunk {
                        StepM { res: Ok(thunk), stack: st }
                    } else {
                        let u = unwrap_thunk(h, st, vt, defn, 0, fuel);
                        match u.res {
                            Err(f) => StepM { res: Err(f), stack: u.stack },
                            Ok(res) => match *sign.2 {
                                NodeM::Identifier { .. } => StepM { res: Ok(res), stack: u.stack },
                                _ => StepM {
                                    res: Err(failn(h, "errors.eval_speak_function_e3"@, seq![node_text(h.num, *sign.2)], ErrorReason::Assert)),
                                    stack: u.stack,
                                },
                            },
                        }
                    }
                },
            },
            _ => StepM { res: Err(Fail::Error(ErrorM { message: Seq::empty(), reason: ErrorReason::System })), stack: st },
        },
        ValueM::NativeFunction(name) => {
            let answer = native_result(h.native, name, args, st);
            StepM {
                res: match answer.1 {
                    Ok(v) => Ok(v),
                    Err(e) => Err(Fail::Error(e)),
                },
                stack: answer.0,
            }
        },
        _ => StepM {
            res: Err(fail_showing(h, seq![fnv], "errors.eval_speak_function_e4"@, seq![value_text(h.num, h.cat, fnv), type_text(h.cat, type_of_value(fnv))], ErrorReason::Runtime)),
            stack: st,
        },
    }
}

/// Runs a put-off call of the function `func` with the arguments bound in
/// `vt`: adds them as a new frame and evaluates the body; `added` frames
/// were added by earlier runs of the same call.
pub open spec fn unwrap_thunk<N: Fn(NumOp) -> NumOut, G: Fn(String, Vec<Value>, StackFrame) -> (StackFrame, Result<Value, Error>)>(
    h: Host<N, G>,
    st: Seq<FrameM>,
    vt: Seq<(Seq<char>, ValueM)>,
    func: NodeM,
    added: nat,
    fuel: nat,
) -> StepM
    decreases fuel, 0nat, 0int, func, 1int,
{
    let st1 = st.push(vt);
    match func {
        NodeM::FunctionLiteral { sign, body, .. } => run_body(h, st1, vt, func, *sign.2, body, 0, added + 1, fuel),
        _ => StepM {
            res: Err(failn(h, "errors.unwrap_thunk_e2"@, seq![node_text(h.num, func)], ErrorReason::Assert)),
            stack: st1,
        },
    }
}

/// Evaluates the statements of a function body from index `i` on, until
/// one gives a value of the return type `ret`.
pub open spec fn run_body<N: Fn(NumOp) -> NumOut, G: Fn(String, Vec<Value>, StackFrame) -> (StackFrame, Result<Value, Error>)>(
    h: Host<N, G>,
    st: Seq<FrameM>,
    vt: Seq<(Seq<char>, ValueM)>,
    func: NodeM,
    ret: NodeM,
    body: Seq<NodeM>,
    i: int,
    added: nat,
    fuel: nat,
) -> StepM
    decreases fuel, 0nat, 0int, body, body.len() - i,
{
    if i < 0 || i >= body.len() {
        StepM {
            res: Err(failn(h, "errors.unwrap_thunk_e1"@, seq![node_text(h.num, ret)], ErrorReason::Runtime)),
            stack: st,
        }
    } else if fuel == 0 {
        StepM { res: Err(depth_fail(h)), stack: st }
    } else {
        let e = eval(h, body[i], st, false, (fuel - 1) as nat);
        match e.res {
            Err(f) => StepM { res: Err(f), stack: e.stack },
            Ok(val) => match val {
                ValueM::Thunk { .. } => unwrap_thunk(h, e.stack, vt, func, added, (fuel - 1) as nat),
                _ => if val is Assignment && i + 1 != body.len() {
                    run_body(h, e.stack, vt, func, ret, body, i + 1, added, fuel)
                } else if fits_return(h, val, ret) {
                    match pop_frames(h, e.stack, added) {
                        Ok(st2) => StepM { res: Ok(val), stack: st2 },
                        Err(f) => StepM { res: Err(f), stack: Seq::empty() },
                    }
                } else {
                    run_body(h, e.stack, vt, func, ret, body, i + 1, added, fuel)
                },
            },
        }
    }
}

} // verus!
