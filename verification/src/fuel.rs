//! Fuel bounds how deep evaluation may go; an evaluation that completes
//! gives the same with any more fuel.
use crate::error::Error;
use crate::host::{Host, NumOp, NumOut};
use crate::node::NodeM;
use crate::semantics::{
    bind_params, eval, eval_assign, eval_binary, eval_branch, eval_call, eval_elems, eval_fields,
    eval_if, fits_return, run_body, to_number, unwrap_thunk,
};
use crate::stack::{FrameM, StackFrame};
use crate::types::TypeM;
use crate::value::{type_of_value, Value, ValueM};
use crate::node::{array_depth, fields_depth, nodes_depth, opt_depth};
use vstd::prelude::*;

verus! {

/// An evaluation that completes with some fuel gives the same node, stack
/// and value with one more unit of fuel.
pub proof fn law_more_fuel_same_evaluation<N: Fn(NumOp) -> NumOut, G: Fn(String, Vec<Value>, StackFrame) -> (StackFrame, Result<Value, Error>)>(
    h: Host<N, G>,
    node: NodeM,
    st: Seq<FrameM>,
    allow_thunk: bool,
    fuel: nat,
)
    ensures
        eval(h, node, st, allow_thunk, fuel).res is Ok ==> eval(h, node, st, allow_thunk, fuel + 1) == eval(h, node, st, allow_thunk, fuel),
    decreases fuel, array_depth(node), 2int, node, 2int,
{
    match node {
        NodeM::ArrayLiteral { .. } => {
            lemma_array_fuel(h, node, st, allow_thunk, fuel);
        },
        NodeM::ObjectLiteral { name, value, position } => {
            lemma_fields_fuel(h, value, 0, st, Seq::empty(), value, fuel);
        },
        NodeM::BinaryExpression { .. } => {
            lemma_binary_fuel(h, node, st, fuel);
        },
        NodeM::IndexingOp { operand, index, position } => {
            law_more_fuel_same_evaluation(h, *operand, st, false, fuel);
            let o = eval(h, *operand, st, false, fuel);
            if o.res is Ok {
                lemma_to_number_fuel(h, *index, o.stack, fuel);
            }
        },
        NodeM::SlicingOp { .. } => {
            lemma_slice_fuel(h, node, st, allow_thunk, fuel);
        },
        NodeM::FunctionCall { function, arguments, position } => {
            lemma_elems_fuel(h, arguments, 0, st, None, Seq::empty(), arguments, fuel);
            let a = eval_elems(h, arguments, 0, st, None, Seq::empty(), arguments, fuel);
            if a.0 is Ok {
                law_more_fuel_same_evaluation(h, *function, a.2, false, fuel);
                let fv = eval(h, *function, a.2, false, fuel);
                if fv.res is Ok {
                    law_more_fuel_same_call(h, fv.stack, fv.res->Ok_0, allow_thunk, a.0->Ok_0, fuel);
                }
            }
        },
        NodeM::IfExpr { .. } => {
            lemma_if_fuel(h, node, st, allow_thunk, fuel);
        },
        _ => {},
    }
}

/// The same for an array literal.
proof fn lemma_array_fuel<N: Fn(NumOp) -> NumOut, G: Fn(String, Vec<Value>, StackFrame) -> (StackFrame, Result<Value, Error>)>(
    h: Host<N, G>,
    node: NodeM,
    st: Seq<FrameM>,
    allow_thunk: bool,
    fuel: nat,
)
    requires
        node is ArrayLiteral,
    ensures
        eval(h, node, st, allow_thunk, fuel).res is Ok ==> eval(h, node, st, allow_thunk, fuel + 1) == eval(h, node, st, allow_thunk, fuel),
    decreases fuel, array_depth(node), 2int, node, 1int,
{
    match node {
        NodeM::ArrayLiteral { value, position } => {
            if value.len() > 0 {
                crate::node::lemma_nodes_depth(value);
                law_more_fuel_same_evaluation(h, value[0], st, false, fuel);
                let first = eval(h, value[0], st, false, fuel);
                if first.res is Ok {
                    crate::nesting::law_evaluation_keeps_nesting(h, value[0], st, false, fuel);
                    let ty = type_of_value(first.res->Ok_0);
                    law_more_fuel_same_evaluation(h, first.node, first.stack, false, fuel);
                    let again = eval(h, first.node, first.stack, false, fuel);
                    if again.res is Ok {
                        let w = again.res->Ok_0;
                        if type_of_value(w) == ty {
                            lemma_elems_fuel(h, value, 1, again.stack, Some(ty), seq![w], value.update(0, again.node), fuel);
                        }
                    }
                }
            }
        },
        _ => {},
    }
}

/// The same for a slice.
proof fn lemma_slice_fuel<N: Fn(NumOp) -> NumOut, G: Fn(String, Vec<Value>, StackFrame) -> (StackFrame, Result<Value, Error>)>(
    h: Host<N, G>,
    node: NodeM,
    st: Seq<FrameM>,
    allow_thunk: bool,
    fuel: nat,
)
    requires
        node is SlicingOp,
    ensures
        eval(h, node, st, allow_thunk, fuel).res is Ok ==> eval(h, node, st, allow_thunk, fuel + 1) == eval(h, node, st, allow_thunk, fuel),
    decreases fuel, array_depth(node), 2int, node, 1int,
{
    match node {
        NodeM::SlicingOp { operand, start_inclusive, end_exclusive, position } => {
            law_more_fuel_same_evaluation(h, *operand, st, false, fuel);
            let o = eval(h, *operand, st, false, fuel);
            if o.res is Ok {
                match (start_inclusive, end_exclusive) {
                    (Some(x), None) => {
                        assert(array_depth(*x) == opt_depth(start_inclusive));
                        lemma_to_number_fuel(h, *x, o.stack, fuel);
                    },
                    (None, Some(x)) => {
                        assert(array_depth(*x) == opt_depth(end_exclusive));
                        lemma_to_number_fuel(h, *x, o.stack, fuel);
                    },
                    (Some(x), Some(y)) => {
                        assert(array_depth(*x) == opt_depth(start_inclusive));
                        assert(array_depth(*y) == opt_depth(end_exclusive));
                        lemma_to_number_fuel(h, *y, o.stack, fuel);
                        let ny = to_number(h, *y, o.stack, fuel);
                        if ny.0 is Ok {
                            lemma_to_number_fuel(h, *x, ny.2, fuel);
                        }
                    },
                    (None, None) => {},
                }
            }
        },
        _ => {},
    }
}

/// The same for a list of nodes.
proof fn lemma_elems_fuel<N: Fn(NumOp) -> NumOut, G: Fn(String, Vec<Value>, StackFrame) -> (StackFrame, Result<Value, Error>)>(
    h: Host<N, G>,
    nodes: Seq<NodeM>,
    i: int,
    st: Seq<FrameM>,
    ty: Option<TypeM>,
    acc: Seq<ValueM>,
    out: Seq<NodeM>,
    fuel: nat,
)
    ensures
        eval_elems(h, nodes, i, st, ty, acc, out, fuel).0 is Ok ==> eval_elems(h, nodes, i, st, ty, acc, out, fuel + 1) == eval_elems(h, nodes, i, st, ty, acc, out, fuel),
    decreases fuel, nodes_depth(nodes), 2int, nodes, nodes.len() - i,
{
    if 0 <= i < nodes.len() {
        crate::node::lemma_nodes_depth(nodes);
        law_more_fuel_same_evaluation(h, nodes[i], st, false, fuel);
        let e = eval(h, nodes[i], st, false, fuel);
        if let Ok(v) = e.res {
            lemma_elems_fuel(h, nodes, i + 1, e.stack, ty, acc.push(v), out.update(i, e.node), fuel);
        }
    }
}

/// The same for the fields of an object literal.
proof fn lemma_fields_fuel<N: Fn(NumOp) -> NumOut, G: Fn(String, Vec<Value>, StackFrame) -> (StackFrame, Result<Value, Error>)>(
    h: Host<N, G>,
    fields: Seq<(Seq<char>, NodeM)>,
    i: int,
    st: Seq<FrameM>,
    acc: Seq<(Seq<char>, (TypeM, ValueM))>,
    out: Seq<(Seq<char>, NodeM)>,
    fuel: nat,
)
    ensures
        eval_fields(h, fields, i, st, acc, out, fuel).0 is Ok ==> eval_fields(h, fields, i, st, acc, out, fuel + 1) == eval_fields(h, fields, i, st, acc, out, fuel),
    decreases fuel, fields_depth(fields), 2int, fields, fields.len() - i,
{
    if 0 <= i < fields.len() {
        crate::node::lemma_fields_depth(fields);
        law_more_fuel_same_evaluation(h, fields[i].1, st, false, fuel);
        let e = eval(h, fields[i].1, st, false, fuel);
        if let Ok(v) = e.res {
            lemma_fields_fuel(
                h,
                fields,
                i + 1,
                e.stack,
                crate::stack::assoc_set(acc, fields[i].0, (type_of_value(v), v)),
                out.update(i, (fields[i].0, e.node)),
                fuel,
            );
        }
    }
}

/// The same for a node evaluated for a number.
proof fn lemma_to_number_fuel<N: Fn(NumOp) -> NumOut, G: Fn(String, Vec<Value>, StackFrame) -> (StackFrame, Result<Value, Error>)>(
    h: Host<N, G>,
    node: NodeM,
    st: Seq<FrameM>,
    fuel: nat,
)
    ensures
        to_number(h, node, st, fuel).0 is Ok ==> to_number(h, node, st, fuel + 1) == to_number(h, node, st, fuel),
    decreases fuel, array_depth(node), 2int, node, 3int,
{
    law_more_fuel_same_evaluation(h, node, st, false, fuel);
}

/// The same for an `if` expression.
#[verifier::rlimit(100)]
#[verifier::spinoff_prover]
proof fn lemma_if_fuel<N: Fn(NumOp) -> NumOut, G: Fn(String, Vec<Value>, StackFrame) -> (StackFrame, Result<Value, Error>)>(
    h: Host<N, G>,
    node: NodeM,
    st: Seq<FrameM>,
    allow_thunk: bool,
    fuel: nat,
)
    ensures
        eval_if(h, node, st, allow_thunk, fuel).res is Ok ==> eval_if(h, node, st, allow_thunk, fuel + 1) == eval_if(h, node, st, allow_thunk, fuel),
    decreases fuel, array_depth(node), 2int, node, 1int,
{
    if let NodeM::IfExpr { condition, on_true, on_false, .. } = node {
        assert(array_depth(*condition) <= array_depth(node));
        assert(opt_depth(on_true) <= array_depth(node));
        assert(opt_depth(on_false) <= array_depth(node));
        law_more_fuel_same_evaluation(h, *condition, st, allow_thunk, fuel);
        let c = eval(h, *condition, st, allow_thunk, fuel);
        if c.res is Ok {
            assert(eval(h, *condition, st, allow_thunk, fuel + 1) == c);
            lemma_branch_fuel(h, on_true, c.stack, allow_thunk, fuel);
            lemma_branch_fuel(h, on_false, c.stack, allow_thunk, fuel);
        }
    }
}

/// The same for a branch.
proof fn lemma_branch_fuel<N: Fn(NumOp) -> NumOut, G: Fn(String, Vec<Value>, StackFrame) -> (StackFrame, Result<Value, Error>)>(
    h: Host<N, G>,
    branch: Option<Box<NodeM>>,
    st: Seq<FrameM>,
    allow_thunk: bool,
    fuel: nat,
)
    ensures
        eval_branch(h, branch, st, allow_thunk, fuel).res is Ok ==> eval_branch(h, branch, st, allow_thunk, fuel + 1) == eval_branch(h, branch, st, allow_thunk, fuel),
    decreases fuel, opt_depth(branch), 2int, branch, 0int,
{
    if let Some(b) = branch {
        law_more_fuel_same_evaluation(h, *b, st, allow_thunk, fuel);
    }
}

/// The same for a binary expression.
proof fn lemma_binary_fuel<N: Fn(NumOp) -> NumOut, G: Fn(String, Vec<Value>, StackFrame) -> (StackFrame, Result<Value, Error>)>(
    h: Host<N, G>,
    node: NodeM,
    st: Seq<FrameM>,
    fuel: nat,
)
    ensures
        eval_binary(h, node, st, fuel).res is Ok ==> eval_binary(h, node, st, fuel + 1) == eval_binary(h, node, st, fuel),
    decreases fuel, array_depth(node), 2int, node, 1int,
{
    if let NodeM::BinaryExpression { operator, left_operand, right_operand, .. } = node {
        assert(array_depth(*left_operand) <= array_depth(node));
        assert(array_depth(*right_operand) <= array_depth(node));
        if operator == crate::node::Kind::AssignOp {
            lemma_assign_fuel(h, node, st, fuel);
        } else {
            law_more_fuel_same_evaluation(h, *left_operand, st, false, fuel);
            let l = eval(h, *left_operand, st, false, fuel);
            if l.res is Ok {
                law_more_fuel_same_evaluation(h, *right_operand, l.stack, false, fuel);
            }
        }
    }
}

/// The same for an assignment.
#[verifier::rlimit(40)]
proof fn lemma_assign_fuel<N: Fn(NumOp) -> NumOut, G: Fn(String, Vec<Value>, StackFrame) -> (StackFrame, Result<Value, Error>)>(
    h: Host<N, G>,
    node: NodeM,
    st: Seq<FrameM>,
    fuel: nat,
)
    ensures
        eval_assign(h, node, st, fuel).res is Ok ==> eval_assign(h, node, st, fuel + 1) == eval_assign(h, node, st, fuel),
    decreases fuel, array_depth(node), 2int, node, 0int,
{
    if let NodeM::BinaryExpression { left_operand, right_operand, .. } = node {
        assert(array_depth(*left_operand) <= array_depth(node));
        assert(array_depth(*right_operand) <= array_depth(node));
        match *left_operand {
            NodeM::Identifier { .. } => {
                law_more_fuel_same_evaluation(h, *right_operand, st, false, fuel);
            },
            NodeM::IndexingOp { operand, index, .. } => {
                assert(array_depth(*operand) <= array_depth(*left_operand));
                assert(array_depth(*index) <= array_depth(*left_operand));
                law_more_fuel_same_evaluation(h, *operand, st, false, fuel);
                let o = eval(h, *operand, st, false, fuel);
                if o.res is Ok {
                    lemma_to_number_fuel(h, *index, o.stack, fuel);
                    let n = to_number(h, *index, o.stack, fuel);
                    if n.0 is Ok {
                        law_more_fuel_same_evaluation(h, *right_operand, n.2, false, fuel);
                    }
                }
            },
            NodeM::BinaryExpression { left_operand: l_left, .. } => {
                assert(array_depth(*l_left) <= array_depth(*left_operand));
                law_more_fuel_same_evaluation(h, *l_left, st, false, fuel);
                let o = eval(h, *l_left, st, false, fuel);
                if o.res is Ok {
                    law_more_fuel_same_evaluation(h, *right_operand, o.stack, false, fuel);
                    let r = eval(h, *right_operand, o.stack, false, fuel);
                }
            },
            _ => {
                law_more_fuel_same_evaluation(h, *left_operand, st, false, fuel);
            },
        }
    }
}

/// A call that completes with some fuel gives the same stack and value with
/// one more unit of fuel.
pub proof fn law_more_fuel_same_call<N: Fn(NumOp) -> NumOut, G: Fn(String, Vec<Value>, StackFrame) -> (StackFrame, Result<Value, Error>)>(
    h: Host<N, G>,
    st: Seq<FrameM>,
    fnv: ValueM,
    allow_thunk: bool,
    args: Seq<ValueM>,
    fuel: nat,
)
    ensures
        eval_call(h, st, fnv, allow_thunk, args, fuel).res is Ok ==> eval_call(h, st, fnv, allow_thunk, args, fuel + 1) == eval_call(h, st, fnv, allow_thunk, args, fuel),
    decreases fuel, 0nat, 1int, fnv, 0int,
{
    if let ValueM::Function(defn) = fnv {
        if let NodeM::FunctionLiteral { sign, .. } = defn {
            if let Ok(vt) = bind_params(h, sign.1, args, fnv, 0, Seq::empty()) {
                if !allow_thunk {
                    lemma_unwrap_fuel(h, st, vt, defn, 0, fuel);
                }
            }
        }
    }
}

/// The same for a run of a put-off call.
proof fn lemma_unwrap_fuel<N: Fn(NumOp) -> NumOut, G: Fn(String, Vec<Value>, StackFrame) -> (StackFrame, Result<Value, Error>)>(
    h: Host<N, G>,
    st: Seq<FrameM>,
    vt: Seq<(Seq<char>, ValueM)>,
    func: NodeM,
    added: nat,
    fuel: nat,
)
    ensures
        unwrap_thunk(h, st, vt, func, added, fuel).res is Ok ==> unwrap_thunk(h, st, vt, func, added, fuel + 1) == unwrap_thunk(h, st, vt, func, added, fuel),
    decreases fuel, 0nat, 0int, func, 1int,
{
    if let NodeM::FunctionLiteral { sign, body, .. } = func {
        lemma_run_fuel(h, st.push(vt), vt, func, *sign.2, body, 0, added + 1, fuel);
    }
}

/// The same for a function body from statement `i` on.
proof fn lemma_run_fuel<N: Fn(NumOp) -> NumOut, G: Fn(String, Vec<Value>, StackFrame) -> (StackFrame, Result<Value, Error>)>(
    h: Host<N, G>,
    st: Seq<FrameM>,
    vt: Seq<(Seq<char>, ValueM)>,
    func: NodeM,
    ret: NodeM,
    body: Seq<NodeM>,
    i: int,
    added: nat,
    fuel: nat,
)
    ensures
        run_body(h, st, vt, func, ret, body, i, added, fuel).res is Ok ==> run_body(h, st, vt, func, ret, body, i, added, fuel + 1) == run_body(h, st, vt, func, ret, body, i, added, fuel),
    decreases fuel, 0nat, 0int, body, body.len() - i,
{
    if 0 <= i < body.len() && fuel > 0 {
        law_more_fuel_same_evaluation(h, body[i], st, false, (fuel - 1) as nat);
        let e = eval(h, body[i], st, false, (fuel - 1) as nat);
        if let Ok(val) = e.res {
            if val is Thunk {
                lemma_unwrap_fuel(h, e.stack, vt, func, added, (fuel - 1) as nat);
            } else if val is Assignment && i + 1 != body.len() {
                lemma_run_fuel(h, e.stack, vt, func, ret, body, i + 1, added, fuel);
            } else if fits_return(h, val, ret) {
            } else {
                lemma_run_fuel(h, e.stack, vt, func, ret, body, i + 1, added, fuel);
            }
        }
    }
}

/// An evaluation that completes with some fuel gives the same node, stack
/// and value with any more fuel.
pub proof fn law_enough_fuel<N: Fn(NumOp) -> NumOut, G: Fn(String, Vec<Value>, StackFrame) -> (StackFrame, Result<Value, Error>)>(
    h: Host<N, G>,
    node: NodeM,
    st: Seq<FrameM>,
    allow_thunk: bool,
    fuel: nat,
    more: nat,
)
    requires
        fuel <= more,
        eval(h, node, st, allow_thunk, fuel).res is Ok,
    ensures
        eval(h, node, st, allow_thunk, more) == eval(h, node, st, allow_thunk, fuel),
    decreases more - fuel,
{
    if fuel < more {
        law_more_fuel_same_evaluation(h, node, st, allow_thunk, fuel);
        law_enough_fuel(h, node, st, allow_thunk, fuel + 1, more);
    }
}

} // verus!
