//! A completed evaluation leaves as many frames on the stack as it found:
//! each call adds a frame for its arguments and drops it when it returns.
use crate::error::Error;
use crate::host::{native_result, Host, NumOp, NumOut};
use crate::node::NodeM;
use crate::semantics::{
    bind_params, eval, eval_assign, eval_binary, eval_branch, eval_call, eval_elems, eval_fields,
    eval_if, fits_return, pop_frames, run_body, to_number, unwrap_thunk,
};
use crate::stack::{assoc_get, stack_up, FrameM, StackFrame};
use crate::types::TypeM;
use crate::value::{type_of_value, Value, ValueM};
use crate::node::{array_depth, fields_depth, nodes_depth, opt_depth};
use vstd::prelude::*;

verus! {

/// Dropping `k` frames succeeds only on a stack of at least `k` frames, and
/// leaves `k` fewer.
proof fn lemma_pop_frames_len<N, G>(h: Host<N, G>, st: Seq<FrameM>, k: nat)
    ensures
        st.len() >= k ==> pop_frames(h, st, k) is Ok,
        pop_frames(h, st, k) matches Ok(s) ==> s.len() + k == st.len(),
    decreases k,
{
    if k > 0 && st.len() > 0 {
        lemma_pop_frames_len(h, st.drop_last(), (k - 1) as nat);
    }
}

/// An update of a variable keeps the number of frames.
proof fn lemma_stack_up_len(st: Seq<FrameM>, name: Seq<char>, v: ValueM)
    ensures
        stack_up(st, name, v) matches Some(s) ==> s.len() == st.len(),
    decreases st.len(),
{
    if st.len() > 0 && !(assoc_get(st.last(), name) is Some) {
        lemma_stack_up_len(st.drop_last(), name, v);
    }
}

/// The native functions of the host leave as many frames as they find.
pub open spec fn natives_keep_depth<N, G: Fn(String, Vec<Value>, StackFrame) -> (StackFrame, Result<Value, Error>)>(h: Host<N, G>) -> bool {
    forall|name: Seq<char>, args: Seq<ValueM>, st: Seq<FrameM>|
        (#[trigger] native_result(h.native, name, args, st)).0.len() == st.len()
}

/// A completed evaluation of a node, on a host whose native functions keep
/// the number of frames, leaves as many frames as it found.
pub proof fn law_evaluation_keeps_depth<N: Fn(NumOp) -> NumOut, G: Fn(String, Vec<Value>, StackFrame) -> (StackFrame, Result<Value, Error>)>(
    h: Host<N, G>,
    node: NodeM,
    st: Seq<FrameM>,
    allow_thunk: bool,
    fuel: nat,
)
    requires
        natives_keep_depth(h),
        st.len() > 0,
    ensures
        eval(h, node, st, allow_thunk, fuel).res is Ok ==> eval(h, node, st, allow_thunk, fuel).stack.len() == st.len(),
    decreases fuel, array_depth(node), 2int, node, 2int,
{
    match node {
        NodeM::ArrayLiteral { .. } => {
            lemma_array_depth(h, node, st, allow_thunk, fuel);
        },
        NodeM::ObjectLiteral { name, value, position } => {
            lemma_fields_depth(h, value, 0, st, Seq::empty(), value, fuel);
        },
        NodeM::BinaryExpression { .. } => {
            lemma_binary_depth(h, node, st, fuel);
        },
        NodeM::IndexingOp { operand, index, position } => {
            law_evaluation_keeps_depth(h, *operand, st, false, fuel);
            let o = eval(h, *operand, st, false, fuel);
            if o.res is Ok {
                lemma_to_number_depth(h, *index, o.stack, fuel);
            }
        },
        NodeM::SlicingOp { .. } => {
            lemma_slice_depth(h, node, st, allow_thunk, fuel);
        },
        NodeM::FunctionCall { function, arguments, position } => {
            lemma_elems_depth(h, arguments, 0, st, None, Seq::empty(), arguments, fuel);
            let a = eval_elems(h, arguments, 0, st, None, Seq::empty(), arguments, fuel);
            if a.0 is Ok {
                law_evaluation_keeps_depth(h, *function, a.2, false, fuel);
                let fv = eval(h, *function, a.2, false, fuel);
                if fv.res is Ok {
                    law_call_keeps_depth(h, fv.stack, fv.res->Ok_0, allow_thunk, a.0->Ok_0, fuel);
                }
            }
        },
        NodeM::IfExpr { .. } => {
            lemma_if_depth(h, node, st, allow_thunk, fuel);
        },
        _ => {},
    }
}

/// The same for an array literal.
proof fn lemma_array_depth<N: Fn(NumOp) -> NumOut, G: Fn(String, Vec<Value>, StackFrame) -> (StackFrame, Result<Value, Error>)>(
    h: Host<N, G>,
    node: NodeM,
    st: Seq<FrameM>,
    allow_thunk: bool,
    fuel: nat,
)
    requires
        node is ArrayLiteral,
        natives_keep_depth(h),
        st.len() > 0,
    ensures
        eval(h, node, st, allow_thunk, fuel).res is Ok ==> eval(h, node, st, allow_thunk, fuel).stack.len() == st.len(),
    decreases fuel, array_depth(node), 2int, node, 1int,
{
    match node {
        NodeM::ArrayLiteral { value, position } => {
            if value.len() > 0 {
                crate::node::lemma_nodes_depth(value);
                law_evaluation_keeps_depth(h, value[0], st, false, fuel);
                let first = eval(h, value[0], st, false, fuel);
                if first.res is Ok {
                    crate::nesting::law_evaluation_keeps_nesting(h, value[0], st, false, fuel);
                    let ty = type_of_value(first.res->Ok_0);
                    law_evaluation_keeps_depth(h, first.node, first.stack, false, fuel);
                    let again = eval(h, first.node, first.stack, false, fuel);
                    if again.res is Ok {
                        let w = again.res->Ok_0;
                        if type_of_value(w) == ty {
                            lemma_elems_depth(h, value, 1, again.stack, Some(ty), seq![w], value.update(0, again.node), fuel);
                        }
                    }
                }
            }
        },
        _ => {},
    }
}

/// The same for a slice.
proof fn lemma_slice_depth<N: Fn(NumOp) -> NumOut, G: Fn(String, Vec<Value>, StackFrame) -> (StackFrame, Result<Value, Error>)>(
    h: Host<N, G>,
    node: NodeM,
    st: Seq<FrameM>,
    allow_thunk: bool,
    fuel: nat,
)
    requires
        node is SlicingOp,
        natives_keep_depth(h),
        st.len() > 0,
    ensures
        eval(h, node, st, allow_thunk, fuel).res is Ok ==> eval(h, node, st, allow_thunk, fuel).stack.len() == st.len(),
    decreases fuel, array_depth(node), 2int, node, 1int,
{
    match node {
        NodeM::SlicingOp { operand, start_inclusive, end_exclusive, position } => {
            law_evaluation_keeps_depth(h, *operand, st, false, fuel);
            let o = eval(h, *operand, st, false, fuel);
            if o.res is Ok {
                match (start_inclusive, end_exclusive) {
                    (Some(x), None) => {
                        assert(array_depth(*x) == opt_depth(start_inclusive));
                        lemma_to_number_depth(h, *x, o.stack, fuel);
                    },
                    (None, Some(x)) => {
                        assert(array_depth(*x) == opt_depth(end_exclusive));
                        lemma_to_number_depth(h, *x, o.stack, fuel);
                    },
                    (Some(x), Some(y)) => {
                        assert(array_depth(*x) == opt_depth(start_inclusive));
                        assert(array_depth(*y) == opt_depth(end_exclusive));
                        lemma_to_number_depth(h, *y, o.stack, fuel);
                        let ny = to_number(h, *y, o.stack, fuel);
                        if ny.0 is Ok {
                            lemma_to_number_depth(h, *x, ny.2, fuel);
                        }
                    },
                    (None, None) => {},
                }
            }
        },
        _ => {},
    }
}

/// Evaluating a list of nodes from index `i` on keeps the number of frames.
proof fn lemma_elems_depth<N: Fn(NumOp) -> NumOut, G: Fn(String, Vec<Value>, StackFrame) -> (StackFrame, Result<Value, Error>)>(
    h: Host<N, G>,
    nodes: Seq<NodeM>,
    i: int,
    st: Seq<FrameM>,
    ty: Option<TypeM>,
    acc: Seq<ValueM>,
    out: Seq<NodeM>,
    fuel: nat,
)
    requires
        natives_keep_depth(h),
        st.len() > 0,
    ensures
        eval_elems(h, nodes, i, st, ty, acc, out, fuel).0 is Ok ==> eval_elems(h, nodes, i, st, ty, acc, out, fuel).2.len() == st.len(),
    decreases fuel, nodes_depth(nodes), 2int, nodes, nodes.len() - i,
{
    if 0 <= i < nodes.len() {
        crate::node::lemma_nodes_depth(nodes);
        law_evaluation_keeps_depth(h, nodes[i], st, false, fuel);
        let e = eval(h, nodes[i], st, false, fuel);
        if let Ok(v) = e.res {
            lemma_elems_depth(h, nodes, i + 1, e.stack, ty, acc.push(v), out.update(i, e.node), fuel);
        }
    }
}

/// Evaluating the fields of an object literal keeps the number of frames.
proof fn lemma_fields_depth<N: Fn(NumOp) -> NumOut, G: Fn(String, Vec<Value>, StackFrame) -> (StackFrame, Result<Value, Error>)>(
    h: Host<N, G>,
    fields: Seq<(Seq<char>, NodeM)>,
    i: int,
    st: Seq<FrameM>,
    acc: Seq<(Seq<char>, (TypeM, ValueM))>,
    out: Seq<(Seq<char>, NodeM)>,
    fuel: nat,
)
    requires
        natives_keep_depth(h),
        st.len() > 0,
    ensures
        eval_fields(h, fields, i, st, acc, out, fuel).0 is Ok ==> eval_fields(h, fields, i, st, acc, out, fuel).2.len() == st.len(),
    decreases fuel, fields_depth(fields), 2int, fields, fields.len() - i,
{
    if 0 <= i < fields.len() {
        crate::node::lemma_fields_depth(fields);
        law_evaluation_keeps_depth(h, fields[i].1, st, false, fuel);
        let e = eval(h, fields[i].1, st, false, fuel);
        if let Ok(v) = e.res {
            lemma_fields_depth(
                h,
                fields,
                i + 1,
                e.stack,
                crate::stack::assoc_set(acc, fields[i].0, (type_of_value(v), v)),
                out.update(i, (fields[i].0, e.node)),
                fuel,
            );
        }
    }
}

/// Evaluating a node for a number keeps the number of frames.
proof fn lemma_to_number_depth<N: Fn(NumOp) -> NumOut, G: Fn(String, Vec<Value>, StackFrame) -> (StackFrame, Result<Value, Error>)>(
    h: Host<N, G>,
    node: NodeM,
    st: Seq<FrameM>,
    fuel: nat,
)
    requires
        natives_keep_depth(h),
        st.len() > 0,
    ensures
        to_number(h, node, st, fuel).0 is Ok ==> to_number(h, node, st, fuel).2.len() == st.len(),
    decreases fuel, array_depth(node), 2int, node, 3int,
{
    law_evaluation_keeps_depth(h, node, st, false, fuel);
}

/// Evaluating an `if` expression keeps the number of frames.
proof fn lemma_if_depth<N: Fn(NumOp) -> NumOut, G: Fn(String, Vec<Value>, StackFrame) -> (StackFrame, Result<Value, Error>)>(
    h: Host<N, G>,
    node: NodeM,
    st: Seq<FrameM>,
    allow_thunk: bool,
    fuel: nat,
)
    requires
        natives_keep_depth(h),
        st.len() > 0,
    ensures
        eval_if(h, node, st, allow_thunk, fuel).res is Ok ==> eval_if(h, node, st, allow_thunk, fuel).stack.len() == st.len(),
    decreases fuel, array_depth(node), 2int, node, 1int,
{
    if let NodeM::IfExpr { condition, on_true, on_false, .. } = node {
        law_evaluation_keeps_depth(h, *condition, st, allow_thunk, fuel);
        let c = eval(h, *condition, st, allow_thunk, fuel);
        if c.res is Ok {
            lemma_branch_depth(h, on_true, c.stack, allow_thunk, fuel);
            lemma_branch_depth(h, on_false, c.stack, allow_thunk, fuel);
        }
    }
}

/// Evaluating a branch keeps the number of frames.
proof fn lemma_branch_depth<N: Fn(NumOp) -> NumOut, G: Fn(String, Vec<Value>, StackFrame) -> (StackFrame, Result<Value, Error>)>(
    h: Host<N, G>,
    branch: Option<Box<NodeM>>,
    st: Seq<FrameM>,
    allow_thunk: bool,
    fuel: nat,
)
    requires
        natives_keep_depth(h),
        st.len() > 0,
    ensures
        eval_branch(h, branch, st, allow_thunk, fuel).res is Ok ==> eval_branch(h, branch, st, allow_thunk, fuel).stack.len() == st.len(),
    decreases fuel, opt_depth(branch), 2int, branch, 0int,
{
    if let Some(b) = branch {
        law_evaluation_keeps_depth(h, *b, st, allow_thunk, fuel);
    }
}

/// Evaluating a binary expression keeps the number of frames.
proof fn lemma_binary_depth<N: Fn(NumOp) -> NumOut, G: Fn(String, Vec<Value>, StackFrame) -> (StackFrame, Result<Value, Error>)>(
    h: Host<N, G>,
    node: NodeM,
    st: Seq<FrameM>,
    fuel: nat,
)
    requires
        natives_keep_depth(h),
        st.len() > 0,
    ensures
        eval_binary(h, node, st, fuel).res is Ok ==> eval_binary(h, node, st, fuel).stack.len() == st.len(),
    decreases fuel, array_depth(node), 2int, node, 1int,
{
    if let NodeM::BinaryExpression { operator, left_operand, right_operand, .. } = node {
        assert(array_depth(*left_operand) <= array_depth(node));
        assert(array_depth(*right_operand) <= array_depth(node));
        if operator == crate::node::Kind::AssignOp {
            lemma_assign_depth(h, node, st, fuel);
        } else {
            law_evaluation_keeps_depth(h, *left_operand, st, false, fuel);
            let l = eval(h, *left_operand, st, false, fuel);
            if l.res is Ok {
                law_evaluation_keeps_depth(h, *right_operand, l.stack, false, fuel);
            }
        }
    }
}

/// Evaluating an assignment keeps the number of frames.
#[verifier::rlimit(40)]
proof fn lemma_assign_depth<N: Fn(NumOp) -> NumOut, G: Fn(String, Vec<Value>, StackFrame) -> (StackFrame, Result<Value, Error>)>(
    h: Host<N, G>,
    node: NodeM,
    st: Seq<FrameM>,
    fuel: nat,
)
    requires
        natives_keep_depth(h),
        st.len() > 0,
    ensures
        eval_assign(h, node, st, fuel).res is Ok ==> eval_assign(h, node, st, fuel).stack.len() == st.len(),
    decreases fuel, array_depth(node), 2int, node, 0int,
{
    if let NodeM::BinaryExpression { left_operand, right_operand, .. } = node {
        assert(array_depth(*left_operand) <= array_depth(node));
        assert(array_depth(*right_operand) <= array_depth(node));
        match *left_operand {
            NodeM::Identifier { .. } => {
                law_evaluation_keeps_depth(h, *right_operand, st, false, fuel);
            },
            NodeM::IndexingOp { operand, index, .. } => {
                assert(array_depth(*operand) <= array_depth(*left_operand));
                assert(array_depth(*index) <= array_depth(*left_operand));
                law_evaluation_keeps_depth(h, *operand, st, false, fuel);
                let o = eval(h, *operand, st, false, fuel);
                if o.res is Ok {
                    lemma_to_number_depth(h, *index, o.stack, fuel);
                    let n = to_number(h, *index, o.stack, fuel);
                    if n.0 is Ok {
                        law_evaluation_keeps_depth(h, *right_operand, n.2, false, fuel);
                    }
                }
            },
            NodeM::BinaryExpression { left_operand: l_left, .. } => {
                assert(array_depth(*l_left) <= array_depth(*left_operand));
                law_evaluation_keeps_depth(h, *l_left, st, false, fuel);
                let o = eval(h, *l_left, st, false, fuel);
                if o.res is Ok {
                    law_evaluation_keeps_depth(h, *right_operand, o.stack, false, fuel);
                    let r = eval(h, *right_operand, o.stack, false, fuel);
                    if let ValueM::Object { name, .. } = o.res->Ok_0 {
                        lemma_stack_up_len(r.stack, name, o.res->Ok_0);
                    }
                }
            },
            _ => {
                law_evaluation_keeps_depth(h, *left_operand, st, false, fuel);
            },
        }
    }
}

/// A completed call, on a host whose native functions keep the number of
/// frames, leaves as many frames as it found.
pub proof fn law_call_keeps_depth<N: Fn(NumOp) -> NumOut, G: Fn(String, Vec<Value>, StackFrame) -> (StackFrame, Result<Value, Error>)>(
    h: Host<N, G>,
    st: Seq<FrameM>,
    fnv: ValueM,
    allow_thunk: bool,
    args: Seq<ValueM>,
    fuel: nat,
)
    requires
        natives_keep_depth(h),
    ensures
        eval_call(h, st, fnv, allow_thunk, args, fuel).res is Ok ==> eval_call(h, st, fnv, allow_thunk, args, fuel).stack.len() == st.len(),
    decreases fuel, 0nat, 1int, fnv, 0int,
{
    if let ValueM::Function(defn) = fnv {
        if let NodeM::FunctionLiteral { sign, .. } = defn {
            if let Ok(vt) = bind_params(h, sign.1, args, fnv, 0, Seq::empty()) {
                if !allow_thunk {
                    lemma_unwrap_depth(h, st, vt, defn, 0, fuel);
                }
            }
        }
    }
}

/// A run of a put-off call pushes a frame and, when it completes, drops it
/// with the `added` frames below it.
proof fn lemma_unwrap_depth<N: Fn(NumOp) -> NumOut, G: Fn(String, Vec<Value>, StackFrame) -> (StackFrame, Result<Value, Error>)>(
    h: Host<N, G>,
    st: Seq<FrameM>,
    vt: Seq<(Seq<char>, ValueM)>,
    func: NodeM,
    added: nat,
    fuel: nat,
)
    requires
        natives_keep_depth(h),
        st.len() >= added,
    ensures
        unwrap_thunk(h, st, vt, func, added, fuel).res is Ok ==> unwrap_thunk(h, st, vt, func, added, fuel).stack.len() + added == st.len(),
    decreases fuel, 0nat, 0int, func, 1int,
{
    if let NodeM::FunctionLiteral { sign, body, .. } = func {
        lemma_run_depth(h, st.push(vt), vt, func, *sign.2, body, 0, added + 1, fuel);
    }
}

/// Running a function body from statement `i` on, with `added` frames of
/// the call on the stack, drops them when it completes.
proof fn lemma_run_depth<N: Fn(NumOp) -> NumOut, G: Fn(String, Vec<Value>, StackFrame) -> (StackFrame, Result<Value, Error>)>(
    h: Host<N, G>,
    st: Seq<FrameM>,
    vt: Seq<(Seq<char>, ValueM)>,
    func: NodeM,
    ret: NodeM,
    body: Seq<NodeM>,
    i: int,
    added: nat,
    fuel: nat,
)
    requires
        natives_keep_depth(h),
        added >= 1,
        st.len() >= added,
    ensures
        run_body(h, st, vt, func, ret, body, i, added, fuel).res is Ok ==> run_body(h, st, vt, func, ret, body, i, added, fuel).stack.len() + added == st.len(),
    decreases fuel, 0nat, 0int, body, body.len() - i,
{
    if 0 <= i < body.len() && fuel > 0 {
        law_evaluation_keeps_depth(h, body[i], st, false, (fuel - 1) as nat);
        let e = eval(h, body[i], st, false, (fuel - 1) as nat);
        if let Ok(val) = e.res {
            if val is Thunk {
                lemma_unwrap_depth(h, e.stack, vt, func, added, (fuel - 1) as nat);
            } else if val is Assignment && i + 1 != body.len() {
                lemma_run_depth(h, e.stack, vt, func, ret, body, i + 1, added, fuel);
            } else if fits_return(h, val, ret) {
                lemma_pop_frames_len(h, e.stack, added);
            } else {
                lemma_run_depth(h, e.stack, vt, func, ret, body, i + 1, added, fuel);
            }
        }
    }
}

} // verus!
