//! Evaluation changes literals inside a node but never how deeply array
//! literals nest in it; the evaluation of an array literal relies on this
//! when it evaluates its first element again.
use crate::error::Error;
use crate::host::{Host, NumOp, NumOut};
use crate::node::{
    array_depth, fields_depth, lemma_fields_depth_same, lemma_nodes_depth,
    lemma_nodes_depth_same, nodes_depth, opt_depth, NodeM,
};
use crate::semantics::{eval, eval_elems, eval_fields, to_number};
use crate::stack::{assoc_set, FrameM, StackFrame};
use crate::types::TypeM;
use crate::value::{type_of_value, Value, ValueM};
use vstd::prelude::*;

verus! {

/// The node that evaluation leaves has array literals nested as deeply as
/// the node evaluated.
pub proof fn law_evaluation_keeps_nesting<N: Fn(NumOp) -> NumOut, G: Fn(String, Vec<Value>, StackFrame) -> (StackFrame, Result<Value, Error>)>(
    h: Host<N, G>,
    node: NodeM,
    st: Seq<FrameM>,
    allow_thunk: bool,
    fuel: nat,
)
    ensures
        array_depth(eval(h, node, st, allow_thunk, fuel).node) == array_depth(node),
    decreases fuel, array_depth(node), 2int, node, 2int,
{
    match node {
        NodeM::ArrayLiteral { .. } => {
            lemma_array_nesting(h, node, st, allow_thunk, fuel);
        },
        NodeM::ObjectLiteral { name, value, position } => {
            lemma_fields_nesting(h, value, 0, st, Seq::empty(), value, fuel);
            let r = eval_fields(h, value, 0, st, Seq::empty(), value, fuel);
            lemma_fields_depth_same(r.1, value);
        },
        NodeM::IndexingOp { operand, index, position } => {
            law_evaluation_keeps_nesting(h, *operand, st, false, fuel);
            let o = eval(h, *operand, st, false, fuel);
            lemma_to_number_nesting(h, *index, o.stack, fuel);
        },
        NodeM::SlicingOp { .. } => {
            lemma_slice_nesting(h, node, st, allow_thunk, fuel);
        },
        NodeM::FunctionCall { function, arguments, position } => {
            lemma_elems_nesting(h, arguments, 0, st, None, Seq::empty(), arguments, fuel);
            let a = eval_elems(h, arguments, 0, st, None, Seq::empty(), arguments, fuel);
            lemma_nodes_depth_same(a.1, arguments);
            law_evaluation_keeps_nesting(h, *function, a.2, false, fuel);
        },
        NodeM::UnaryExpression { .. } => {
            reveal_with_fuel(array_depth, 2);
        },
        _ => {},
    }
}

/// The same for an array literal.
proof fn lemma_array_nesting<N: Fn(NumOp) -> NumOut, G: Fn(String, Vec<Value>, StackFrame) -> (StackFrame, Result<Value, Error>)>(
    h: Host<N, G>,
    node: NodeM,
    st: Seq<FrameM>,
    allow_thunk: bool,
    fuel: nat,
)
    requires
        node is ArrayLiteral,
    ensures
        array_depth(eval(h, node, st, allow_thunk, fuel).node) == array_depth(node),
    decreases fuel, array_depth(node), 2int, node, 1int,
{
    match node {
    NodeM::ArrayLiteral { value, position } => {
        if value.len() > 0 {
            lemma_nodes_depth(value);
            law_evaluation_keeps_nesting(h, value[0], st, false, fuel);
            let first = eval(h, value[0], st, false, fuel);
            let v1 = value.update(0, first.node);
            assert forall|k: int| 0 <= k < value.len() implies array_depth(#[trigger] v1[k]) == array_depth(value[k]) by {}
            lemma_nodes_depth_same(v1, value);
            if first.res is Ok {
                law_evaluation_keeps_nesting(h, first.node, first.stack, false, fuel);
                let again = eval(h, first.node, first.stack, false, fuel);
                let v2 = value.update(0, again.node);
                assert forall|k: int| 0 <= k < value.len() implies array_depth(#[trigger] v2[k]) == array_depth(value[k]) by {}
                lemma_nodes_depth_same(v2, value);
                if again.res is Ok {
                    let w = again.res->Ok_0;
                    let ty = type_of_value(first.res->Ok_0);
                    lemma_elems_nesting(h, value, 1, again.stack, Some(ty), seq![w], v2, fuel);
                    let r = eval_elems(h, value, 1, again.stack, Some(ty), seq![w], v2, fuel);
                    lemma_nodes_depth_same(r.1, value);
                }
            }
        }
    },
        _ => {},
    }
}

/// The same for a slice.
proof fn lemma_slice_nesting<N: Fn(NumOp) -> NumOut, G: Fn(String, Vec<Value>, StackFrame) -> (StackFrame, Result<Value, Error>)>(
    h: Host<N, G>,
    node: NodeM,
    st: Seq<FrameM>,
    allow_thunk: bool,
    fuel: nat,
)
    requires
        node is SlicingOp,
    ensures
        array_depth(eval(h, node, st, allow_thunk, fuel).node) == array_depth(node),
    decreases fuel, array_depth(node), 2int, node, 1int,
{
    match node {
    NodeM::SlicingOp { operand, start_inclusive, end_exclusive, position } => {
        law_evaluation_keeps_nesting(h, *operand, st, false, fuel);
        let o = eval(h, *operand, st, false, fuel);
        match (start_inclusive, end_exclusive) {
            (Some(x), None) => {
                assert(array_depth(*x) == opt_depth(start_inclusive));
                lemma_to_number_nesting(h, *x, o.stack, fuel);
                let n = to_number(h, *x, o.stack, fuel);
                assert(opt_depth(Some(Box::new(n.1))) == array_depth(n.1));
            },
            (None, Some(x)) => {
                assert(array_depth(*x) == opt_depth(end_exclusive));
                lemma_to_number_nesting(h, *x, o.stack, fuel);
                let n = to_number(h, *x, o.stack, fuel);
                assert(opt_depth(Some(Box::new(n.1))) == array_depth(n.1));
            },
            (Some(x), Some(y)) => {
                assert(array_depth(*x) == opt_depth(start_inclusive));
                assert(array_depth(*y) == opt_depth(end_exclusive));
                lemma_to_number_nesting(h, *y, o.stack, fuel);
                let ny = to_number(h, *y, o.stack, fuel);
                assert(opt_depth(Some(Box::new(ny.1))) == array_depth(ny.1));
                lemma_to_number_nesting(h, *x, ny.2, fuel);
                let nx = to_number(h, *x, ny.2, fuel);
                assert(opt_depth(Some(Box::new(nx.1))) == array_depth(nx.1));
            },
            (None, None) => {},
        }
    },
        _ => {},
    }
}

/// Evaluating a list of nodes from index `i` on keeps each node's nesting.
proof fn lemma_elems_nesting<N: Fn(NumOp) -> NumOut, G: Fn(String, Vec<Value>, StackFrame) -> (StackFrame, Result<Value, Error>)>(
    h: Host<N, G>,
    nodes: Seq<NodeM>,
    i: int,
    st: Seq<FrameM>,
    ty: Option<TypeM>,
    acc: Seq<ValueM>,
    out: Seq<NodeM>,
    fuel: nat,
)
    requires
        out.len() == nodes.len(),
        forall|k: int| 0 <= k < nodes.len() ==> array_depth(#[trigger] out[k]) == array_depth(nodes[k]),
    ensures
        eval_elems(h, nodes, i, st, ty, acc, out, fuel).1.len() == nodes.len(),
        forall|k: int| 0 <= k < nodes.len() ==> array_depth(#[trigger] eval_elems(h, nodes, i, st, ty, acc, out, fuel).1[k]) == array_depth(nodes[k]),
    decreases fuel, nodes_depth(nodes), 2int, nodes, nodes.len() - i,
{
    if 0 <= i < nodes.len() {
        lemma_nodes_depth(nodes);
        law_evaluation_keeps_nesting(h, nodes[i], st, false, fuel);
        let e = eval(h, nodes[i], st, false, fuel);
        let out1 = out.update(i, e.node);
        assert forall|k: int| 0 <= k < nodes.len() implies array_depth(#[trigger] out1[k]) == array_depth(nodes[k]) by {}
        if let Ok(v) = e.res {
            lemma_elems_nesting(h, nodes, i + 1, e.stack, ty, acc.push(v), out1, fuel);
        }
    }
}

/// Evaluating the fields of an object literal keeps each field's nesting.
proof fn lemma_fields_nesting<N: Fn(NumOp) -> NumOut, G: Fn(String, Vec<Value>, StackFrame) -> (StackFrame, Result<Value, Error>)>(
    h: Host<N, G>,
    fields: Seq<(Seq<char>, NodeM)>,
    i: int,
    st: Seq<FrameM>,
    acc: Seq<(Seq<char>, (TypeM, ValueM))>,
    out: Seq<(Seq<char>, NodeM)>,
    fuel: nat,
)
    requires
        out.len() == fields.len(),
        forall|k: int| 0 <= k < fields.len() ==> array_depth((#[trigger] out[k]).1) == array_depth(fields[k].1),
    ensures
        eval_fields(h, fields, i, st, acc, out, fuel).1.len() == fields.len(),
        forall|k: int| 0 <= k < fields.len() ==> array_depth((#[trigger] eval_fields(h, fields, i, st, acc, out, fuel).1[k]).1) == array_depth(fields[k].1),
    decreases fuel, fields_depth(fields), 2int, fields, fields.len() - i,
{
    if 0 <= i < fields.len() {
        crate::node::lemma_fields_depth(fields);
        law_evaluation_keeps_nesting(h, fields[i].1, st, false, fuel);
        let e = eval(h, fields[i].1, st, false, fuel);
        let out1 = out.update(i, (fields[i].0, e.node));
        assert forall|k: int| 0 <= k < fields.len() implies array_depth((#[trigger] out1[k]).1) == array_depth(fields[k].1) by {}
        if let Ok(v) = e.res {
            lemma_fields_nesting(h, fields, i + 1, e.stack, assoc_set(acc, fields[i].0, (type_of_value(v), v)), out1, fuel);
        }
    }
}

/// Evaluating a node for a number keeps its nesting.
proof fn lemma_to_number_nesting<N: Fn(NumOp) -> NumOut, G: Fn(String, Vec<Value>, StackFrame) -> (StackFrame, Result<Value, Error>)>(
    h: Host<N, G>,
    node: NodeM,
    st: Seq<FrameM>,
    fuel: nat,
)
    ensures
        array_depth(to_number(h, node, st, fuel).1) == array_depth(node),
    decreases fuel, array_depth(node), 2int, node, 3int,
{
    law_evaluation_keeps_nesting(h, node, st, false, fuel);
}

} // verus!
