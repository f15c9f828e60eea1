//! Evaluation of nodes, proved to give what `semantics` says.
use crate::error::{Error, ErrorReason};
use crate::host::{Host, NumOp, NumOut};
use crate::node::{copy_node, node_position, nodes_model, take_node, Kind, Node, NodeM, Position};
use crate::semantics::{
    eval, eval_assign, eval_binary, eval_branch, eval_call, eval_elems, eval_fields, eval_if,
    bind_params, fail0, failn, is_value_operator, pattern_names, run_body, to_number, unwrap_thunk, Fail,
};
use crate::stack::StackFrame;
use crate::print::value_fits;
use crate::value::{Value, ValueM};
use crate::node::{array_depth, fields_depth, nodes_depth, opt_depth};
use vstd::prelude::*;
use vstd::string::StrSliceExecFns;

verus! {

/// The model of an evaluation result.
pub open spec fn res_model(r: Result<Value, Error>) -> Result<ValueM, Fail> {
    match r {
        Ok(v) => Ok(v@),
        Err(e) => Err(Fail::Error(e@)),
    }
}

/// The model of a result that carries a number.
pub open spec fn num_res(r: Result<u64, Error>) -> Result<u64, Fail> {
    match r {
        Ok(x) => Ok(x),
        Err(e) => Err(Fail::Error(e@)),
    }
}

/// The model of a result that carries an index.
pub open spec fn idx_res(r: Result<usize, Error>) -> Result<usize, Fail> {
    match r {
        Ok(x) => Ok(x),
        Err(e) => Err(Fail::Error(e@)),
    }
}

/// The model of a result that carries a list of values.
pub open spec fn vals_res(r: Result<Vec<Value>, Error>) -> Result<Seq<ValueM>, Fail> {
    match r {
        Ok(vs) => Ok(crate::value::values_model(vs@)),
        Err(e) => Err(Fail::Error(e@)),
    }
}

/// The result is that the process stops.
pub open spec fn aborts(r: Result<ValueM, Fail>) -> bool {
    r matches Err(Fail::Abort)
}

/// The error with the text of `key`.
fn err0<N, G>(host: &Host<N, G>, key: &str, reason: ErrorReason) -> (e: Error)
    ensures
        Fail::Error(e@) == fail0(*host, key@, reason),
{
    Error { message: host.cat.tr(key), reason }
}

/// The error with the text of `key`, pattern `a` filled.
fn err1<N, G>(host: &Host<N, G>, key: &str, a: String, reason: ErrorReason) -> (e: Error)
    ensures
        Fail::Error(e@) == failn(*host, key@, seq![a@], reason),
{
    let names = vec!["a".to_owned()];
    let ghost av = a@;
    let vals = vec![a];
    assert(names.deep_view() =~= pattern_names(1));
    assert(vals.deep_view() =~= seq![av]);
    let message = match host.cat.tr_with(key, &names, &vals) {
        Some(m) => m,
        None => host.cat.tr(key),
    };
    Error { message, reason }
}

/// The error with the text of `key`, patterns `a` and `b` filled.
fn err2<N, G>(host: &Host<N, G>, key: &str, a: String, b: String, reason: ErrorReason) -> (e: Error)
    ensures
        Fail::Error(e@) == failn(*host, key@, seq![a@, b@], reason),
{
    let names = vec!["a".to_owned(), "b".to_owned()];
    let ghost (av, bv) = (a@, b@);
    let vals = vec![a, b];
    assert(names.deep_view() =~= pattern_names(2));
    assert(vals.deep_view() =~= seq![av, bv]);
    let message = match host.cat.tr_with(key, &names, &vals) {
        Some(m) => m,
        None => host.cat.tr(key),
    };
    Error { message, reason }
}

/// The error with the text of `key`, patterns `a` to `c` filled.
fn err3<N, G>(host: &Host<N, G>, key: &str, a: String, b: String, c: String, reason: ErrorReason) -> (e: Error)
    ensures
        Fail::Error(e@) == failn(*host, key@, seq![a@, b@, c@], reason),
{
    let names = vec!["a".to_owned(), "b".to_owned(), "c".to_owned()];
    let ghost (av, bv, cv) = (a@, b@, c@);
    let vals = vec![a, b, c];
    assert(names.deep_view() =~= pattern_names(3));
    assert(vals.deep_view() =~= seq![av, bv, cv]);
    let message = match host.cat.tr_with(key, &names, &vals) {
        Some(m) => m,
        None => host.cat.tr(key),
    };
    Error { message, reason }
}

/// The error with the text of `key`, patterns `a` to `d` filled.
fn err4<N, G>(host: &Host<N, G>, key: &str, a: String, b: String, c: String, d: String, reason: ErrorReason) -> (e: Error)
    ensures
        Fail::Error(e@) == failn(*host, key@, seq![a@, b@, c@, d@], reason),
{
    let names = vec!["a".to_owned(), "b".to_owned(), "c".to_owned(), "d".to_owned()];
    let ghost (av, bv, cv, dv) = (a@, b@, c@, d@);
    let vals = vec![a, b, c, d];
    assert(names.deep_view() =~= pattern_names(4));
    assert(vals.deep_view() =~= seq![av, bv, cv, dv]);
    let message = match host.cat.tr_with(key, &names, &vals) {
        Some(m) => m,
        None => host.cat.tr(key),
    };
    Error { message, reason }
}

/// Evaluates `node`, giving back the node as evaluation leaves it.
fn ev<N: Fn(NumOp) -> NumOut, G: Fn(String, Vec<Value>, StackFrame) -> (StackFrame, Result<Value, Error>)>(
    node: Node,
    stack: &mut StackFrame,
    allow_thunk: bool,
    host: &Host<N, G>,
    fuel: u32,
) -> (out: (Node, Result<Value, Error>))
    requires
        host.ok(),
        !aborts(eval(*host, node@, old(stack)@, allow_thunk, fuel as nat).res),
    ensures
        out.0@ == eval(*host, node@, old(stack)@, allow_thunk, fuel as nat).node,
        res_model(out.1) == eval(*host, node@, old(stack)@, allow_thunk, fuel as nat).res,
        final(stack)@ == eval(*host, node@, old(stack)@, allow_thunk, fuel as nat).stack,
    decreases fuel, array_depth(node@), 2int, node@, 2int,
{
    match &node {
        Node::ArrayLiteral { .. } => return ev_array(node, stack, allow_thunk, host, fuel),
        Node::ObjectLiteral { .. } => return ev_object(node, stack, allow_thunk, host, fuel),
        Node::UnaryExpression { .. } => return ev_unary(node, stack, allow_thunk, host, fuel),
        Node::IndexingOp { .. } => return ev_index(node, stack, allow_thunk, host, fuel),
        Node::SlicingOp { .. } => return ev_slice(node, stack, allow_thunk, host, fuel),
        Node::FunctionCall { .. } => return ev_function_call(node, stack, allow_thunk, host, fuel),
        Node::BinaryExpression { .. } => {
            let r = ev_binary(&node, stack, host, fuel);
            return (node, r);
        },
        Node::FunctionLiteral { .. } => {
            let r = ev_function_literal(&node, stack, allow_thunk, host, fuel);
            return (node, r);
        },
        Node::IfExpr { .. } => {
            let r = ev_if(&node, stack, allow_thunk, host, fuel);
            return (node, r);
        },
        _ => {},
    }
    let r = match &node {
        Node::NumberLiteral { value, .. } => Ok(Value::Number(*value)),
        Node::StringLiteral { value, .. } => Ok(Value::String(value.clone())),
        Node::BoolLiteral { value, .. } => Ok(Value::Bool(*value)),
        Node::Identifier { value, position } => match stack.get(value) {
            Some(v) => Ok(v.clone()),
            None => {
                let p = position.string();
                Err(err2(host, "errors.eval_e2", value.clone(), p, ErrorReason::System))
            },
        },
        _ => Ok(Value::Empty),
    };
    (node, r)
}

/// Converts a number to an index, where it has an integral value.
fn to_usize_ex<N: Fn(NumOp) -> NumOut, G: Fn(String, Vec<Value>, StackFrame) -> (StackFrame, Result<Value, Error>)>(
    num: u64,
    pos: Position,
    host: &Host<N, G>,
) -> (r: Result<usize, Error>)
    requires
        host.ok(),
    ensures
        idx_res(r) == crate::semantics::to_usize(*host, num, pos),
{
    if host.truth(NumOp::IsIntable(num)) {
        Ok(host.index(num))
    } else {
        let a = host.render(num);
        let b = pos.string();
        Err(err2(host, "errors.to_usize_e", a, b, ErrorReason::Runtime))
    }
}

/// Evaluates a node that must give a number.
fn to_num<N: Fn(NumOp) -> NumOut, G: Fn(String, Vec<Value>, StackFrame) -> (StackFrame, Result<Value, Error>)>(
    node: Node,
    stack: &mut StackFrame,
    host: &Host<N, G>,
    fuel: u32,
) -> (out: (Node, Result<u64, Error>))
    requires
        host.ok(),
        !(to_number(*host, node@, old(stack)@, fuel as nat).0 matches Err(Fail::Abort)),
    ensures
        out.0@ == to_number(*host, node@, old(stack)@, fuel as nat).1,
        final(stack)@ == to_number(*host, node@, old(stack)@, fuel as nat).2,
        num_res(out.1) == to_number(*host, node@, old(stack)@, fuel as nat).0,
    decreases fuel, array_depth(node@), 2int, node@, 3int,
{
    let (n2, r) = ev(node, stack, false, host, fuel);
    match r {
        Err(e) => (n2, Err(e)),
        Ok(Value::Number(x)) => (n2, Ok(x)),
        Ok(_) => {
            let a = n2.string(host);
            let b = n2.position().string();
            (n2, Err(err2(host, "errors.to_number_e", a, b, ErrorReason::Runtime)))
        },
    }
}

/// Evaluates a unary expression.
fn ev_unary<N: Fn(NumOp) -> NumOut, G: Fn(String, Vec<Value>, StackFrame) -> (StackFrame, Result<Value, Error>)>(
    node: Node,
    stack: &mut StackFrame,
    allow_thunk: bool,
    host: &Host<N, G>,
    fuel: u32,
) -> (out: (Node, Result<Value, Error>))
    requires
        host.ok(),
        node@ is UnaryExpression,
    ensures
        out.0@ == eval(*host, node@, old(stack)@, allow_thunk, fuel as nat).node,
        res_model(out.1) == eval(*host, node@, old(stack)@, allow_thunk, fuel as nat).res,
        final(stack)@ == eval(*host, node@, old(stack)@, allow_thunk, fuel as nat).stack,
{
    let ghost m = node@;
    match node {
        Node::UnaryExpression { operator, operand, position } => {
            let ghost om = (*operand)@;
            assert(m == NodeM::UnaryExpression { operator, operand: Box::new(om), position });
            if operator == Kind::NegationOp {
                match *operand {
                    Node::NumberLiteral { value, position: p } => {
                        assert(om == NodeM::NumberLiteral { value, position: p });
                        let neg = host.number(NumOp::Neg(value));
                        let lit = Node::NumberLiteral { value: neg, position: p };
                        assert(lit@ == NodeM::NumberLiteral { value: neg, position: p });
                        let out = Node::UnaryExpression { operator, operand: Box::new(lit), position };
                        assert(out@ == NodeM::UnaryExpression { operator, operand: Box::new(NodeM::NumberLiteral { value: neg, position: p }), position });
                        (out, Ok(Value::Number(neg)))
                    },
                    Node::BoolLiteral { value, position: p } => {
                        assert(om == NodeM::BoolLiteral { value, position: p });
                        let lit = Node::BoolLiteral { value: !value, position: p };
                        assert(lit@ == NodeM::BoolLiteral { value: !value, position: p });
                        let out = Node::UnaryExpression { operator, operand: Box::new(lit), position };
                        assert(out@ == NodeM::UnaryExpression { operator, operand: Box::new(NodeM::BoolLiteral { value: !value, position: p }), position });
                        (out, Ok(Value::Bool(!value)))
                    },
                    Node::Identifier { value, position: p } => {
                        assert(om == NodeM::Identifier { value: value@, position: p });
                        let found = stack.get(&value).is_some();
                        let name = value.clone();
                        let inner = Node::Identifier { value, position: p };
                        let e = if found {
                            let a = inner.string(host);
                            let b = position.string();
                            err2(host, "errors.eval_e3", a, b, ErrorReason::Runtime)
                        } else {
                            let b = p.string();
                            err2(host, "errors.eval_e2", name, b, ErrorReason::System)
                        };
                        (Node::UnaryExpression { operator, operand: Box::new(inner), position }, Err(e))
                    },
                    other => {
                        assert(other@ == om);
                        let a = other.string(host);
                        let b = position.string();
                        let e = err2(host, "errors.eval_e3", a, b, ErrorReason::Syntax);
                        (Node::UnaryExpression { operator, operand: Box::new(other), position }, Err(e))
                    },
                }
            } else {
                let a = operator.string();
                let b = position.string();
                let e = err2(host, "errors.eval_e4", a, b, ErrorReason::Syntax);
                (Node::UnaryExpression { operator, operand, position }, Err(e))
            }
        },
        other => (other, Ok(Value::Empty)),
    }
}

/// Evaluates a function literal: binds the function to its name.
fn ev_function_literal<N: Fn(NumOp) -> NumOut, G: Fn(String, Vec<Value>, StackFrame) -> (StackFrame, Result<Value, Error>)>(
    n: &Node,
    stack: &mut StackFrame,
    allow_thunk: bool,
    host: &Host<N, G>,
    fuel: u32,
) -> (r: Result<Value, Error>)
    requires
        host.ok(),
        n@ is FunctionLiteral,
    ensures
        res_model(r) == eval(*host, n@, old(stack)@, allow_thunk, fuel as nat).res,
        final(stack)@ == eval(*host, n@, old(stack)@, allow_thunk, fuel as nat).stack,
{
    match n {
        Node::FunctionLiteral { sign, .. } => match &*sign.0 {
            Node::Identifier { value, .. } => {
                let f = crate::value::Function { defn: copy_node(n) };
                let fv = Value::Function(f);
                assert(fv@ == ValueM::Function(n@));
                let ghost st0 = stack@;
                stack.set(value.clone(), fv);
                assert(stack@ == crate::stack::stack_set(st0, value@, ValueM::Function(n@)));
                assert(n@ matches NodeM::FunctionLiteral { sign: s, .. } && *s.0 == NodeM::Identifier { value: value@, position: node_position(sign.0@) });
                assert(eval(*host, n@, st0, allow_thunk, fuel as nat).stack == crate::stack::stack_set(st0, value@, ValueM::Function(n@)));
                Ok(Value::Empty)
            },
            other => {
                let a = other.string(host);
                let b = other.position().string();
                Err(err2(host, "errors.eval_e7", a, b, ErrorReason::Assert))
            },
        },
        _ => Err(Error { message: String::new(), reason: ErrorReason::System }),
    }
}

/// Evaluates an indexing expression.
fn ev_index<N: Fn(NumOp) -> NumOut, G: Fn(String, Vec<Value>, StackFrame) -> (StackFrame, Result<Value, Error>)>(
    node: Node,
    stack: &mut StackFrame,
    allow_thunk: bool,
    host: &Host<N, G>,
    fuel: u32,
) -> (out: (Node, Result<Value, Error>))
    requires
        host.ok(),
        node@ is IndexingOp,
        !aborts(eval(*host, node@, old(stack)@, allow_thunk, fuel as nat).res),
    ensures
        out.0@ == eval(*host, node@, old(stack)@, allow_thunk, fuel as nat).node,
        res_model(out.1) == eval(*host, node@, old(stack)@, allow_thunk, fuel as nat).res,
        final(stack)@ == eval(*host, node@, old(stack)@, allow_thunk, fuel as nat).stack,
    decreases fuel, array_depth(node@), 2int, node@, 1int,
{
    match node {
        Node::IndexingOp { operand, index, position } => {
            let (o2, o) = ev(*operand, stack, false, host, fuel);
            match o {
                Err(e) => (Node::IndexingOp { operand: Box::new(o2), index, position }, Err(e)),
                Ok(Value::Array(_, vals)) => {
                    let (i2, n) = to_num(*index, stack, host, fuel);
                    let ipos = i2.position();
                    let node2 = Node::IndexingOp { operand: Box::new(o2), index: Box::new(i2), position };
                    match n {
                        Err(e) => (node2, Err(e)),
                        Ok(num) => match to_usize_ex(num, ipos, host) {
                            Err(e) => (node2, Err(e)),
                            Ok(idx) => {
                                proof {
                                    crate::value::lemma_values_index(vals@);
                                }
                                if idx >= vals.len() {
                                    (node2, Ok(Value::Empty))
                                } else {
                                    let v = vals[idx].clone();
                                    (node2, Ok(v))
                                }
                            },
                        },
                    }
                },
                Ok(_) => {
                    let a = o2.string(host);
                    let b = o2.position().string();
                    let e = err2(host, "errors.eval_e5", a, b, ErrorReason::Runtime);
                    (Node::IndexingOp { operand: Box::new(o2), index, position }, Err(e))
                },
            }
        },
        other => (other, Ok(Value::Empty)),
    }
}

/// Evaluates an array literal: the first element gives the element type,
/// and is evaluated again with the others, each of which must have it.
fn ev_array<N: Fn(NumOp) -> NumOut, G: Fn(String, Vec<Value>, StackFrame) -> (StackFrame, Result<Value, Error>)>(
    node: Node,
    stack: &mut StackFrame,
    allow_thunk: bool,
    host: &Host<N, G>,
    fuel: u32,
) -> (out: (Node, Result<Value, Error>))
    requires
        host.ok(),
        node@ is ArrayLiteral,
        !aborts(eval(*host, node@, old(stack)@, allow_thunk, fuel as nat).res),
    ensures
        out.0@ == eval(*host, node@, old(stack)@, allow_thunk, fuel as nat).node,
        res_model(out.1) == eval(*host, node@, old(stack)@, allow_thunk, fuel as nat).res,
        final(stack)@ == eval(*host, node@, old(stack)@, allow_thunk, fuel as nat).stack,
    decreases fuel, array_depth(node@), 2int, node@, 1int,
{
    let ghost m = node@;
    let ghost st0 = stack@;
    match node {
        Node::ArrayLiteral { value, position } => {
            let ghost vm = nodes_model(value@);
            assert(m == NodeM::ArrayLiteral { value: vm, position });
            proof {
                crate::node::lemma_nodes_index(value@);
            }
            if value.len() == 0 {
                let out = Node::ArrayLiteral { value, position };
                let empty: Vec<Value> = Vec::new();
                assert(crate::value::values_model(empty@) =~= Seq::<ValueM>::empty());
                return (out, Ok(Value::Array(crate::types::Type::Empty, empty)));
            }
            let mut value = value;
            let ghost orig = value@;
            let first_node = take_node(&mut value, 0);
            proof {
                crate::node::lemma_nodes_depth(vm);
            }
            let (n1, r1) = ev(first_node, stack, false, host, fuel);
            let ghost first = eval(*host, vm[0], st0, false, fuel as nat);
            match r1 {
                Err(e) => {
                    value.set(0, n1);
                    proof {
                        crate::node::lemma_nodes_update(orig, 0, n1);
                        assert(orig.update(0, crate::node::Node::EmptyLiteral(Position { line: 0, column: 0 })).update(0, n1) =~= orig.update(0, n1));
                    }
                    (Node::ArrayLiteral { value, position }, Err(e))
                },
                Ok(v0) => {
                    proof {
                        crate::nesting::law_evaluation_keeps_nesting(*host, vm[0], st0, false, fuel as nat);
                        crate::node::lemma_nodes_depth(vm);
                    }
                    let ty = v0.value_type();
                    let ghost st1 = stack@;
                    let (n2, r2) = ev(n1, stack, false, host, fuel);
                    let ghost again = eval(*host, first.node, st1, false, fuel as nat);
                    value.set(0, n2);
                    proof {
                        crate::node::lemma_nodes_update(orig, 0, n2);
                        assert(orig.update(0, crate::node::Node::EmptyLiteral(Position { line: 0, column: 0 })).update(0, n2) =~= orig.update(0, n2));
                    }
                    let ghost value2 = vm.update(0, n2@);
                    assert(nodes_model(value@) == value2);
                    match r2 {
                        Err(e) => (Node::ArrayLiteral { value, position }, Err(e)),
                        Ok(w) => {
                            let wt = w.value_type();
                            if !wt.same(&ty) {
                                let a = ty.string(&host.cat);
                                let b = wt.string(&host.cat);
                                let c = value[0].position().string();
                                let e = err3(host, "errors.eval_e1", a, b, c, ErrorReason::Runtime);
                                return (Node::ArrayLiteral { value, position }, Err(e));
                            }
                            let ghost st2 = stack@;
                            let ghost target = eval_elems(*host, vm, 1, st2, Some(ty@), seq![w@], value2, fuel as nat);
                            let mut acc: Vec<Value> = Vec::new();
                            acc.push(w);
                            proof {
                                crate::value::lemma_values_push(Seq::empty(), acc@[0]);
                                assert(Seq::<Value>::empty().push(acc@[0]) =~= acc@);
                                assert(seq![w@] =~= Seq::<ValueM>::empty().push(w@));
                            }
                            let mut i: usize = 1;
                            while i < value.len()
                                invariant
                                    host.ok(),
                                    1 <= i <= value@.len(),
                                    value@.len() == vm.len(),
                                    vm.len() == orig.len(),
                                    m == (NodeM::ArrayLiteral { value: vm, position }),
                                    forall|k: int| 0 <= k < orig.len() ==> #[trigger] vm[k] == orig[k]@,
                                    forall|k: int| i <= k < value@.len() ==> #[trigger] value@[k] == orig[k],
                                    eval_elems(*host, vm, i as int, stack@, Some(ty@), crate::value::values_model(acc@), nodes_model(value@), fuel as nat) == target,
                                    !(target.0 matches Err(Fail::Abort)),
                                    eval(*host, m, st0, allow_thunk, fuel as nat).node == (NodeM::ArrayLiteral { value: target.1, position }),
                                    eval(*host, m, st0, allow_thunk, fuel as nat).stack == target.2,
                                    eval(*host, m, st0, allow_thunk, fuel as nat).res == (match target.0 {
                                        Ok(vals) => Ok(ValueM::Array(ty@, vals)),
                                        Err(f) => Err(f),
                                    }),
                                    node@ == m,
                                    st0 == old(stack)@,
                                decreases value@.len() - i,
                            {
                                let ghost before_nodes = value@;
                                let ghost st_i = stack@;
                                let ghost acc_m = crate::value::values_model(acc@);
                                let ghost out_i = nodes_model(value@);
                                let n = take_node(&mut value, i);
                                assert(n@ == vm[i as int]);
                                assert(decreases_to!(m => vm));
                                assert(decreases_to!(vm => vm[i as int]));
                                proof {
                                    crate::node::lemma_nodes_depth(vm);
                                }
                                let (nn, r) = ev(n, stack, false, host, fuel);
                                value.set(i, nn);
                                proof {
                                    crate::node::lemma_nodes_update(before_nodes, i as int, nn);
                                    assert(before_nodes.update(i as int, crate::node::Node::EmptyLiteral(Position { line: 0, column: 0 })).update(i as int, nn) =~= before_nodes.update(i as int, nn));
                                }
                                let ghost e_spec = eval(*host, vm[i as int], st_i, false, fuel as nat);
                                assert(nodes_model(value@) == out_i.update(i as int, e_spec.node));
                                match r {
                                    Err(e) => {
                                        assert(target == eval_elems(*host, vm, i as int, st_i, Some(ty@), acc_m, out_i, fuel as nat));
                                        assert(target.0 == Err::<Seq<ValueM>, Fail>(Fail::Error(e@)));
                                        return (Node::ArrayLiteral { value, position }, Err(e));
                                    },
                                    Ok(v) => {
                                        let vt = v.value_type();
                                        if !vt.same(&ty) {
                                            let a = ty.string(&host.cat);
                                            let b = vt.string(&host.cat);
                                            let c = value[i].position().string();
                                            let e = err3(host, "errors.eval_e1", a, b, c, ErrorReason::Runtime);
                                            return (Node::ArrayLiteral { value, position }, Err(e));
                                        }
                                        let ghost acc_before = acc@;
                                        acc.push(v);
                                        proof {
                                            crate::value::lemma_values_push(acc_before, v);
                                        }
                                    },
                                }
                                i = i + 1;
                            }
                            (Node::ArrayLiteral { value, position }, Ok(Value::Array(ty, acc)))
                        },
                    }
                },
            }
        },
        other => (other, Ok(Value::Empty)),
    }
}

/// Evaluates an object literal: each field in order, added to the body.
fn ev_object<N: Fn(NumOp) -> NumOut, G: Fn(String, Vec<Value>, StackFrame) -> (StackFrame, Result<Value, Error>)>(
    node: Node,
    stack: &mut StackFrame,
    allow_thunk: bool,
    host: &Host<N, G>,
    fuel: u32,
) -> (out: (Node, Result<Value, Error>))
    requires
        host.ok(),
        node@ is ObjectLiteral,
        !aborts(eval(*host, node@, old(stack)@, allow_thunk, fuel as nat).res),
    ensures
        out.0@ == eval(*host, node@, old(stack)@, allow_thunk, fuel as nat).node,
        res_model(out.1) == eval(*host, node@, old(stack)@, allow_thunk, fuel as nat).res,
        final(stack)@ == eval(*host, node@, old(stack)@, allow_thunk, fuel as nat).stack,
    decreases fuel, array_depth(node@), 2int, node@, 1int,
{
    let ghost m = node@;
    let ghost st0 = stack@;
    match node {
        Node::ObjectLiteral { name, value, position } => {
            let ghost fm = crate::node::fields_model(value@);
            let ghost orig = value@;
            assert(m == NodeM::ObjectLiteral { name: name@, value: fm, position });
            proof {
                crate::node::lemma_fields_index(value@);
            }
            let ghost target = eval_fields(*host, fm, 0, st0, Seq::empty(), fm, fuel as nat);
            let mut value = value;
            let mut body: Vec<(String, (crate::types::Type, Value))> = Vec::new();
            assert(crate::value::body_model(body@) =~= Seq::<(Seq<char>, (crate::types::TypeM, ValueM))>::empty());
            let mut i: usize = 0;
            while i < value.len()
                invariant
                    host.ok(),
                    i <= value@.len(),
                    value@.len() == fm.len(),
                    fm.len() == orig.len(),
                    m == (NodeM::ObjectLiteral { name: name@, value: fm, position }),
                    forall|k: int| 0 <= k < orig.len() ==> #[trigger] fm[k] == (orig[k].0@, orig[k].1@),
                    forall|k: int| i <= k < value@.len() ==> #[trigger] value@[k] == orig[k],
                    forall|k: int| 0 <= k < value@.len() ==> #[trigger] value@[k].0 == orig[k].0,
                    eval_fields(*host, fm, i as int, stack@, crate::value::body_model(body@), crate::node::fields_model(value@), fuel as nat) == target,
                    !(target.0 matches Err(Fail::Abort)),
                    eval(*host, m, st0, allow_thunk, fuel as nat).node == (NodeM::ObjectLiteral { name: name@, value: target.1, position }),
                    eval(*host, m, st0, allow_thunk, fuel as nat).stack == target.2,
                    eval(*host, m, st0, allow_thunk, fuel as nat).res == (match target.0 {
                        Ok(b) => Ok(ValueM::Object { name: name@, body: b }),
                        Err(f) => Err(f),
                    }),
                    node@ == m,
                    st0 == old(stack)@,
                decreases value@.len() - i,
            {
                let ghost before_fields = value@;
                let ghost st_i = stack@;
                let ghost body_m = crate::value::body_model(body@);
                let ghost out_i = crate::node::fields_model(value@);
                let n = crate::node::take_field(&mut value, i);
                assert(n@ == fm[i as int].1);
                assert(decreases_to!(m => fm));
                assert(decreases_to!(fm => fm[i as int]));
                assert(decreases_to!(fm[i as int] => fm[i as int].1));
                proof {
                    crate::node::lemma_fields_depth(fm);
                }
                let (nn, r) = ev(n, stack, false, host, fuel);
                let ghost e_spec = eval(*host, fm[i as int].1, st_i, false, fuel as nat);
                crate::node::put_field(&mut value, i, nn);
                proof {
                    crate::node::lemma_fields_update(before_fields, i as int, (before_fields[i as int].0, nn));
                    assert(before_fields.update(i as int, (before_fields[i as int].0, Node::EmptyLiteral(Position { line: 0, column: 0 }))).update(i as int, (before_fields[i as int].0, nn)) =~= before_fields.update(i as int, (before_fields[i as int].0, nn)));
                }
                assert(crate::node::fields_model(value@) == out_i.update(i as int, (fm[i as int].0, e_spec.node)));
                match r {
                    Err(e) => {
                        assert(target == eval_fields(*host, fm, i as int, st_i, body_m, out_i, fuel as nat));
                        return (Node::ObjectLiteral { name, value, position }, Err(e));
                    },
                    Ok(v) => {
                        let t = v.value_type();
                        let key = value[i].0.clone();
                        crate::stack::body_insert(&mut body, key, t, v);
                    },
                }
                i = i + 1;
            }
            let obj_name = name.clone();
            (Node::ObjectLiteral { name, value, position }, Ok(Value::Object { name: obj_name, body }))
        },
        other => (other, Ok(Value::Empty)),
    }
}

/// Evaluates a slicing expression: the operand, then the end bound, then
/// the start bound.
#[verifier::rlimit(80)]
#[verifier::spinoff_prover]
fn ev_slice<N: Fn(NumOp) -> NumOut, G: Fn(String, Vec<Value>, StackFrame) -> (StackFrame, Result<Value, Error>)>(
    node: Node,
    stack: &mut StackFrame,
    allow_thunk: bool,
    host: &Host<N, G>,
    fuel: u32,
) -> (out: (Node, Result<Value, Error>))
    requires
        host.ok(),
        node@ is SlicingOp,
        !aborts(eval(*host, node@, old(stack)@, allow_thunk, fuel as nat).res),
    ensures
        out.0@ == eval(*host, node@, old(stack)@, allow_thunk, fuel as nat).node,
        res_model(out.1) == eval(*host, node@, old(stack)@, allow_thunk, fuel as nat).res,
        final(stack)@ == eval(*host, node@, old(stack)@, allow_thunk, fuel as nat).stack,
    decreases fuel, array_depth(node@), 2int, node@, 1int,
{
    let ghost m = node@;
    match node {
        Node::SlicingOp { operand, start_inclusive, end_exclusive, position } => {
            assert(m == NodeM::SlicingOp {
                operand: Box::new((*operand)@),
                start_inclusive: crate::node::opt_node_model(start_inclusive),
                end_exclusive: crate::node::opt_node_model(end_exclusive),
                position,
            });
            let (o2, o) = ev(*operand, stack, false, host, fuel);
            match o {
                Err(e) => (Node::SlicingOp { operand: Box::new(o2), start_inclusive, end_exclusive, position }, Err(e)),
                Ok(Value::Array(t, vals)) => {
                    let mut vals = vals;
                    let ghost before = vals@;
                    proof {
                        crate::value::lemma_values_index(before);
                    }
                    match (start_inclusive, end_exclusive) {
                        (Some(x), None) => {
                            proof {
                                assert(crate::node::opt_node_model(Some(x)) == Some(Box::new((*x)@)));
                                assert(opt_depth(Some(Box::new((*x)@))) == array_depth((*x)@));
                            }
                            let (x2, nr) = to_num(*x, stack, host, fuel);
                            let xpos = x2.position();
                            assert(crate::node::opt_node_model(Some(Box::new(x2))) == Some(Box::new(x2@)));
                            let out = Node::SlicingOp { operand: Box::new(o2), start_inclusive: Some(Box::new(x2)), end_exclusive: None, position };
                            assert(out@ == NodeM::SlicingOp { operand: Box::new(o2@), start_inclusive: Some(Box::new(x2@)), end_exclusive: None, position });
                            match nr {
                                Err(e) => (out, Err(e)),
                                Ok(num) => match to_usize_ex(num, xpos, host) {
                                    Err(e) => (out, Err(e)),
                                    Ok(k) => {
                                        let tail = vals.split_off(k);
                                        proof {
                                            crate::value::lemma_values_skip(before, k as int);
                                            assert(tail@ =~= before.skip(k as int));
                                            assert(crate::value::values_model(before).skip(k as int) =~= crate::value::values_model(before).subrange(k as int, before.len() as int));
                                        }
                                        (out, Ok(Value::Array(t, tail)))
                                    },
                                },
                            }
                        },
                        (None, Some(x)) => {
                            proof {
                                assert(crate::node::opt_node_model(Some(x)) == Some(Box::new((*x)@)));
                                assert(opt_depth(Some(Box::new((*x)@))) == array_depth((*x)@));
                            }
                            let (x2, nr) = to_num(*x, stack, host, fuel);
                            let xpos = x2.position();
                            assert(crate::node::opt_node_model(Some(Box::new(x2))) == Some(Box::new(x2@)));
                            let out = Node::SlicingOp { operand: Box::new(o2), start_inclusive: None, end_exclusive: Some(Box::new(x2)), position };
                            assert(out@ == NodeM::SlicingOp { operand: Box::new(o2@), start_inclusive: None, end_exclusive: Some(Box::new(x2@)), position });
                            match nr {
                                Err(e) => (out, Err(e)),
                                Ok(num) => match to_usize_ex(num, xpos, host) {
                                    Err(e) => (out, Err(e)),
                                    Ok(k) => {
                                        let _ = vals.split_off(k);
                                        proof {
                                            crate::value::lemma_values_take(before, k as int);
                                            assert(vals@ =~= before.take(k as int));
                                            assert(crate::value::values_model(before).take(k as int) =~= crate::value::values_model(before).subrange(0, k as int));
                                        }
                                        (out, Ok(Value::Array(t, vals)))
                                    },
                                },
                            }
                        },
                        (Some(x), Some(y)) => {
                            let ghost xm = (*x)@;
                            proof {
                                assert(crate::node::opt_node_model(Some(x)) == Some(Box::new((*x)@)));
                                assert(opt_depth(Some(Box::new((*x)@))) == array_depth((*x)@));
                                assert(crate::node::opt_node_model(Some(y)) == Some(Box::new((*y)@)));
                                assert(opt_depth(Some(Box::new((*y)@))) == array_depth((*y)@));
                            }
                            let (y2, ny) = to_num(*y, stack, host, fuel);
                            let ypos = y2.position();
                            assert(crate::node::opt_node_model(Some(x)) == Some(Box::new(xm)));
                            assert(crate::node::opt_node_model(Some(Box::new(y2))) == Some(Box::new(y2@)));
                            let ghost y2m = y2@;
                            let ghost o2m = o2@;
                            let ghost node2 = NodeM::SlicingOp { operand: Box::new(o2m), start_inclusive: Some(Box::new(xm)), end_exclusive: Some(Box::new(y2m)), position };
                            match ny {
                                Err(e) => {
                                    let out = Node::SlicingOp { operand: Box::new(o2), start_inclusive: Some(x), end_exclusive: Some(Box::new(y2)), position };
                                    assert(out@ == node2);
                                    (out, Err(e))
                                },
                                Ok(numy) => match to_usize_ex(numy, ypos, host) {
                                    Err(e) => {
                                    let out = Node::SlicingOp { operand: Box::new(o2), start_inclusive: Some(x), end_exclusive: Some(Box::new(y2)), position };
                                    assert(out@ == node2);
                                    (out, Err(e))
                                },
                                    Ok(ky) => {
                                        let _ = vals.split_off(ky);
                                        let ghost head = vals@;
                                        let (x2, nx) = to_num(*x, stack, host, fuel);
                                        let xpos = x2.position();
                                        assert(crate::node::opt_node_model(Some(Box::new(x2))) == Some(Box::new(x2@)));
                                        assert(crate::node::opt_node_model(Some(Box::new(y2))) == Some(Box::new(y2@)));
                            assert(crate::node::opt_node_model(Some(Box::new(x2))) == Some(Box::new(x2@)));
                                        let out = Node::SlicingOp { operand: Box::new(o2), start_inclusive: Some(Box::new(x2)), end_exclusive: Some(Box::new(y2)), position };
                                        assert(out@ == NodeM::SlicingOp { operand: Box::new(o2@), start_inclusive: Some(Box::new(x2@)), end_exclusive: Some(Box::new(y2@)), position });
                                        match nx {
                                            Err(e) => (out, Err(e)),
                                            Ok(numx) => match to_usize_ex(numx, xpos, host) {
                                                Err(e) => (out, Err(e)),
                                                Ok(kx) => {
                                                    let tail = vals.split_off(kx);
                                                    proof {
                                                        crate::value::lemma_values_take(before, ky as int);
                                                        assert(head =~= before.take(ky as int));
                                                        crate::value::lemma_values_index(head);
                                                        crate::value::lemma_values_skip(head, kx as int);
                                                        assert(tail@ =~= head.skip(kx as int));
                                                        assert(crate::value::values_model(before).take(ky as int).skip(kx as int) =~= crate::value::values_model(before).subrange(kx as int, ky as int));
                                                    }
                                                    (out, Ok(Value::Array(t, tail)))
                                                },
                                            },
                                        }
                                    },
                                },
                            }
                        },
                        (None, None) => {
                            let e = err0(host, "errors.eval_e6", ErrorReason::Assert);
                            (Node::SlicingOp { operand: Box::new(o2), start_inclusive: None, end_exclusive: None, position }, Err(e))
                        },
                    }
                },
                Ok(_) => {
                    let a = o2.string(host);
                    let b = o2.position().string();
                    let e = err2(host, "errors.eval_e5", a, b, ErrorReason::Runtime);
                    (Node::SlicingOp { operand: Box::new(o2), start_inclusive, end_exclusive, position }, Err(e))
                },
            }
        },
        other => (other, Ok(Value::Empty)),
    }
}

/// Evaluates a call: the arguments in order, then the function, then the
/// call itself.
fn ev_function_call<N: Fn(NumOp) -> NumOut, G: Fn(String, Vec<Value>, StackFrame) -> (StackFrame, Result<Value, Error>)>(
    node: Node,
    stack: &mut StackFrame,
    allow_thunk: bool,
    host: &Host<N, G>,
    fuel: u32,
) -> (out: (Node, Result<Value, Error>))
    requires
        host.ok(),
        node@ is FunctionCall,
        !aborts(eval(*host, node@, old(stack)@, allow_thunk, fuel as nat).res),
    ensures
        out.0@ == eval(*host, node@, old(stack)@, allow_thunk, fuel as nat).node,
        res_model(out.1) == eval(*host, node@, old(stack)@, allow_thunk, fuel as nat).res,
        final(stack)@ == eval(*host, node@, old(stack)@, allow_thunk, fuel as nat).stack,
    decreases fuel, array_depth(node@), 2int, node@, 1int,
{
    let ghost m = node@;
    match node {
        Node::FunctionCall { function, arguments, position } => {
            assert(m == NodeM::FunctionCall { function: Box::new((*function)@), arguments: nodes_model(arguments@), position });
            let (args_nodes, args) = ev_args(arguments, stack, host, fuel);
            match args {
                Err(e) => (Node::FunctionCall { function, arguments: args_nodes, position }, Err(e)),
                Ok(args) => {
                    let (f2, fv) = ev(*function, stack, false, host, fuel);
                    let n = Node::FunctionCall { function: Box::new(f2), arguments: args_nodes, position };
                    match fv {
                        Err(e) => (n, Err(e)),
                        Ok(fnv) => {
                            let r = ev_call(stack, &fnv, allow_thunk, &args, host, fuel);
                            (n, r)
                        },
                    }
                },
            }
        },
        other => (other, Ok(Value::Empty)),
    }
}

/// Binds the argument values to the parameters of a function.
fn bind<N: Fn(NumOp) -> NumOut, G: Fn(String, Vec<Value>, StackFrame) -> (StackFrame, Result<Value, Error>)>(
    params: &Vec<(Node, Node)>,
    args: &Vec<Value>,
    fnv: &Value,
    host: &Host<N, G>,
) -> (r: Result<crate::value::VTable, Error>)
    requires
        host.ok(),
        !(bind_params(*host, crate::node::params_model(params@), crate::value::values_model(args@), fnv@, 0, Seq::empty()) matches Err(Fail::Abort)),
    ensures
        match r {
            Ok(vt) => bind_params(*host, crate::node::params_model(params@), crate::value::values_model(args@), fnv@, 0, Seq::empty()) == Ok::<Seq<(Seq<char>, ValueM)>, Fail>(vt@),
            Err(e) => bind_params(*host, crate::node::params_model(params@), crate::value::values_model(args@), fnv@, 0, Seq::empty()) == Err::<Seq<(Seq<char>, ValueM)>, Fail>(Fail::Error(e@)),
        },
{
    let ghost pm = crate::node::params_model(params@);
    let ghost am = crate::value::values_model(args@);
    let ghost target = bind_params(*host, pm, am, fnv@, 0, Seq::empty());
    proof {
        crate::node::lemma_params_index(params@);
        crate::value::lemma_values_index(args@);
    }
    let mut vt: Vec<(String, Value)> = Vec::new();
    assert(crate::value::entries_model(vt@) =~= Seq::<(Seq<char>, ValueM)>::empty());
    let mut i: usize = 0;
    while i < params.len()
        invariant
            host.ok(),
            i <= params@.len(),
            pm == crate::node::params_model(params@),
            am == crate::value::values_model(args@),
            pm.len() == params@.len(),
            am.len() == args@.len(),
            forall|k: int| 0 <= k < params@.len() ==> #[trigger] pm[k] == (params@[k].0@, params@[k].1@),
            forall|k: int| 0 <= k < args@.len() ==> #[trigger] am[k] == args@[k]@,
            bind_params(*host, pm, am, fnv@, i as int, crate::value::entries_model(vt@)) == target,
            !(target matches Err(Fail::Abort)),
            target == bind_params(*host, crate::node::params_model(params@), crate::value::values_model(args@), fnv@, 0, Seq::empty()),
        decreases params@.len() - i,
    {
        if i < args.len() {
            let want = args[i].value_type().string(&host.cat);
            let tn = params[i].1.string(host);
            proof {
                reveal_strlit("[]()");
            }
            if !(want == tn) && !(want == "[]()".to_owned()) {
                assert(value_fits(host.num, seq![fnv@][0]));
                let a = tn;
                let c = crate::text::decimal_text(i + 1);
                let d = fnv.string(host);
                return Err(err4(host, "errors.eval_speak_function_e1", a, want, c, d, ErrorReason::Runtime));
            }
            match &params[i].0 {
                Node::Identifier { value, .. } => {
                    let v = args[i].clone();
                    crate::stack::entries_insert(&mut vt, value.clone(), v);
                },
                other => {
                    let a = other.string(host);
                    return Err(err1(host, "errors.eval_speak_function_e2", a, ErrorReason::Assert));
                },
            }
        }
        i = i + 1;
    }
    Ok(crate::value::VTable(vt))
}

/// Whether a value has the return type that the node `ret` names.
fn fits<N: Fn(NumOp) -> NumOut, G: Fn(String, Vec<Value>, StackFrame) -> (StackFrame, Result<Value, Error>)>(
    val: &Value,
    ret: &Node,
    host: &Host<N, G>,
) -> (r: bool)
    requires
        host.ok(),
    ensures
        r == crate::semantics::fits_return(*host, val@, ret@),
{
    let shown = match val.value_type() {
        crate::types::Type::Object(obj) => obj,
        crate::types::Type::Array(_) => match val {
            Value::Array(t, arr) => {
                if arr.len() == 0 && t.same(&crate::types::Type::Empty) {
                    ret.string(host)
                } else {
                    val.value_type().string(&host.cat)
                }
            },
            _ => val.value_type().string(&host.cat),
        },
        other => other.string(&host.cat),
    };
    proof {
        crate::value::lemma_values_index(match val { Value::Array(_, arr) => arr@, _ => Seq::empty() });
    }
    shown == ret.string(host)
}

/// Drops `k` frames; an error, with the stack left empty, where there are
/// fewer.
fn pops<N: Fn(NumOp) -> NumOut, G: Fn(String, Vec<Value>, StackFrame) -> (StackFrame, Result<Value, Error>)>(
    stack: &mut StackFrame,
    k: u64,
    host: &Host<N, G>,
) -> (r: Result<(), Error>)
    requires
        host.ok(),
    ensures
        match r {
            Ok(_) => crate::semantics::pop_frames(*host, old(stack)@, k as nat) == Ok::<Seq<crate::stack::FrameM>, Fail>(final(stack)@),
            Err(e) => crate::semantics::pop_frames(*host, old(stack)@, k as nat) == Err::<Seq<crate::stack::FrameM>, Fail>(Fail::Error(e@)) && final(stack)@ == Seq::<crate::stack::FrameM>::empty(),
        },
{
    let ghost target = crate::semantics::pop_frames(*host, stack@, k as nat);
    let mut j: u64 = 0;
    while j < k
        invariant
            j <= k,
            crate::semantics::pop_frames(*host, stack@, (k - j) as nat) == target,
            target == crate::semantics::pop_frames(*host, old(stack)@, k as nat),
        decreases k - j,
    {
        if !stack.pop_frame() {
            return Err(err0(host, "errors.stack_pop", ErrorReason::System));
        }
        j = j + 1;
    }
    Ok(())
}

/// Calls the function value `fnv` with the argument values `args`.
fn ev_call<N: Fn(NumOp) -> NumOut, G: Fn(String, Vec<Value>, StackFrame) -> (StackFrame, Result<Value, Error>)>(
    stack: &mut StackFrame,
    fnv: &Value,
    allow_thunk: bool,
    args: &Vec<Value>,
    host: &Host<N, G>,
    fuel: u32,
) -> (r: Result<Value, Error>)
    requires
        host.ok(),
        !aborts(eval_call(*host, old(stack)@, fnv@, allow_thunk, crate::value::values_model(args@), fuel as nat).res),
    ensures
        res_model(r) == eval_call(*host, old(stack)@, fnv@, allow_thunk, crate::value::values_model(args@), fuel as nat).res,
        final(stack)@ == eval_call(*host, old(stack)@, fnv@, allow_thunk, crate::value::values_model(args@), fuel as nat).stack,
    decreases fuel, 0nat, 1int, fnv@, 0int,
{
    match fnv {
        Value::Function(func) => match &func.defn {
            Node::FunctionLiteral { sign, .. } => {
                assert(fnv@ == ValueM::Function(func.defn@));
                assert(func.defn@ matches NodeM::FunctionLiteral { sign: s, .. } && s.1 == crate::node::params_model(sign.1@) && *s.2 == (*sign.2)@);
                match bind(&sign.1, args, fnv, host) {
                Err(e) => Err(e),
                Ok(vt) => {
                    if allow_thunk {
                        return Ok(Value::FunctionCallThunk { vt, func: func.clone() });
                    }
                    let res = unwrap(stack, &vt, &func.defn, 0, host, fuel);
                    match res {
                        Err(e) => Err(e),
                        Ok(v) => match &*sign.2 {
                            Node::Identifier { .. } => Ok(v),
                            other => {
                                let a = other.string(host);
                                Err(err1(host, "errors.eval_speak_function_e3", a, ErrorReason::Assert))
                            },
                        },
                    }
                },
                }
            },
            _ => Err(Error { message: String::new(), reason: ErrorReason::System }),
        },
        Value::NativeFunction(nf) => {
            let copies = crate::value::copy_values(args);
            let name = nf.0.clone();
            let ghost before = (name, copies, *stack);
            let r = host.call_native(name, copies, stack);
            proof {
                crate::host::lemma_native_outcome(host.native, before.0, before.1, before.2, (*stack, r));
            }
            r
        },
        _ => {
            assert(value_fits(host.num, seq![fnv@][0]));
            let a = fnv.string(host);
            let b = fnv.value_type().string(&host.cat);
            Err(err2(host, "errors.eval_speak_function_e4", a, b, ErrorReason::Runtime))
        },
    }
}

/// Runs a put-off call of `func` with the arguments `vt` as a flat loop:
/// each round adds a frame for the arguments and evaluates the statements of
/// the body in turn; a statement that gives a put-off call starts the next
/// round, and the first statement whose value has the return type ends the
/// run, dropping the frames that the rounds added.
fn unwrap<N: Fn(NumOp) -> NumOut, G: Fn(String, Vec<Value>, StackFrame) -> (StackFrame, Result<Value, Error>)>(
    stack: &mut StackFrame,
    vt: &crate::value::VTable,
    func: &Node,
    added: u64,
    host: &Host<N, G>,
    fuel: u32,
) -> (r: Result<Value, Error>)
    requires
        host.ok(),
        added + fuel <= u32::MAX,
        !aborts(unwrap_thunk(*host, old(stack)@, vt@, func@, added as nat, fuel as nat).res),
    ensures
        res_model(r) == unwrap_thunk(*host, old(stack)@, vt@, func@, added as nat, fuel as nat).res,
        final(stack)@ == unwrap_thunk(*host, old(stack)@, vt@, func@, added as nat, fuel as nat).stack,
    decreases fuel, 0nat, 0int, func@, 1int,
{
    let ghost target = unwrap_thunk(*host, stack@, vt@, func@, added as nat, fuel as nat);
    match func {
        Node::FunctionLiteral { sign, body, .. } => {
            proof {
                crate::node::lemma_nodes_index(body@);
            }
            let ghost bm = nodes_model(body@);
            let ghost ret = (*sign.2)@;
            assert(func@ matches NodeM::FunctionLiteral { sign: s, body: b, .. } && *s.2 == ret && b == bm);
            let mut frames = added;
            let mut budget = fuel;
            loop
                invariant
                    host.ok(),
                    budget <= fuel,
                    frames + budget <= u32::MAX,
                    bm == nodes_model(body@),
                    bm.len() == body@.len(),
                    forall|k: int| 0 <= k < body@.len() ==> #[trigger] bm[k] == body@[k]@,
                    func@ matches NodeM::FunctionLiteral { sign: s, body: b, .. } && *s.2 == ret && b == bm,
                    ret == (*sign.2)@,
                    unwrap_thunk(*host, stack@, vt@, func@, frames as nat, budget as nat) == target,
                    !aborts(target.res),
                    target == unwrap_thunk(*host, old(stack)@, vt@, func@, added as nat, fuel as nat),
                decreases budget,
            {
                stack.push_frame(vt.clone());
                frames = frames + 1;
                let ghost f_start = budget;
                let mut i: usize = 0;
                loop
                    invariant_except_break
                        i <= body@.len(),
                        budget == f_start,
                        frames + budget <= u32::MAX + 1,
                        run_body(*host, stack@, vt@, func@, ret, bm, i as int, frames as nat, budget as nat) == target,
                    invariant
                        host.ok(),
                        budget <= fuel,
                        frames >= 1,
                        bm == nodes_model(body@),
                        bm.len() == body@.len(),
                        forall|k: int| 0 <= k < body@.len() ==> #[trigger] bm[k] == body@[k]@,
                        func@ matches NodeM::FunctionLiteral { sign: s, body: b, .. } && *s.2 == ret && b == bm,
                        ret == (*sign.2)@,
                        !aborts(target.res),
                        target == unwrap_thunk(*host, old(stack)@, vt@, func@, added as nat, fuel as nat),
                    ensures
                        budget < f_start,
                        frames + budget <= u32::MAX,
                        unwrap_thunk(*host, stack@, vt@, func@, frames as nat, budget as nat) == target,
                    decreases body@.len() - i,
                {
                    if i >= body.len() {
                        let a = sign.2.string(host);
                        return Err(err1(host, "errors.unwrap_thunk_e1", a, ErrorReason::Runtime));
                    }
                    if budget == 0 {
                        return Err(err0(host, "errors.eval_depth", ErrorReason::System));
                    }
                    let stmt = copy_node(&body[i]);
                    assert(stmt@ == bm[i as int]);
                    let (_, r) = ev(stmt, stack, false, host, budget - 1);
                    match r {
                        Err(e) => return Err(e),
                        Ok(val) => match val {
                            Value::FunctionCallThunk { .. } => {
                                budget = budget - 1;
                                break;
                            },
                            _ => {
                                let is_assignment = match val {
                                    Value::Assignment(_) => true,
                                    _ => false,
                                };
                                if is_assignment && i + 1 != body.len() {
                                    i = i + 1;
                                } else if fits(&val, &sign.2, host) {
                                    return match pops(stack, frames, host) {
                                        Ok(_) => Ok(val),
                                        Err(e) => Err(e),
                                    };
                                } else {
                                    i = i + 1;
                                }
                            },
                        },
                    }
                }
            }
        },
        _ => {
            stack.push_frame(vt.clone());
            let a = func.string(host);
            Err(err1(host, "errors.unwrap_thunk_e2", a, ErrorReason::Assert))
        },
    }
}

/// Whether an operator combines the values of both operands.
fn is_value_op(k: Kind) -> (r: bool)
    ensures
        r == crate::semantics::is_value_operator(k),
{
    match k {
        Kind::AddOp | Kind::SubtractOp | Kind::MultiplyOp | Kind::DivideOp | Kind::ModulusOp
        | Kind::LogicalAndOp | Kind::LogicalOrOp | Kind::GreaterThanOp | Kind::LessThanOp
        | Kind::EqualOp => true,
        _ => false,
    }
}

/// Whether `a` comes before `b` in the order of strings.
fn less_text(a: &String, b: &String) -> (r: bool)
    ensures
        r == crate::semantics::text_less(a@, b@),
{
    let la = a.as_str().unicode_len();
    let lb = b.as_str().unicode_len();
    let mut i: usize = 0;
    assert(a@.skip(0) =~= a@);
    assert(b@.skip(0) =~= b@);
    while i < la && i < lb
        invariant
            la == a@.len(),
            lb == b@.len(),
            i <= la,
            i <= lb,
            crate::semantics::text_less(a@, b@) == crate::semantics::text_less(a@.skip(i as int), b@.skip(i as int)),
        decreases la - i,
    {
        let ca = a.as_str().get_char(i);
        let cb = b.as_str().get_char(i);
        assert(a@.skip(i as int)[0] == ca);
        assert(b@.skip(i as int)[0] == cb);
        if ca != cb {
            return ca < cb;
        }
        assert(a@.skip(i as int).drop_first() =~= a@.skip(i + 1));
        assert(b@.skip(i as int).drop_first() =~= b@.skip(i + 1));
        i = i + 1;
    }
    i == la && i < lb
}

/// The error for operands of kinds that an operator does not combine.
fn mismatch_err<N: Fn(NumOp) -> NumOut, G: Fn(String, Vec<Value>, StackFrame) -> (StackFrame, Result<Value, Error>)>(
    operator: Kind,
    left: &Node,
    right: &Node,
    position: Position,
    host: &Host<N, G>,
) -> (e: Error)
    requires
        host.ok(),
    ensures
        Fail::Error(e@) == crate::semantics::mismatch(*host, operator, left@, right@, position),
{
    let a = operator.string();
    let b = left.string(host);
    let c = right.string(host);
    let d = position.string();
    err4(host, "errors.eval_binary_expr_node_e17", a, b, c, d, ErrorReason::Runtime)
}

/// The error for a left operand that an operator does not take.
fn bad_left_err<N: Fn(NumOp) -> NumOut, G: Fn(String, Vec<Value>, StackFrame) -> (StackFrame, Result<Value, Error>)>(
    key: &str,
    l: &Value,
    r: &Value,
    position: Position,
    reason: ErrorReason,
    host: &Host<N, G>,
) -> (e: Error)
    requires
        host.ok(),
        crate::semantics::bad_left(*host, key@, l@, r@, position, reason) != Fail::Abort,
    ensures
        Fail::Error(e@) == crate::semantics::bad_left(*host, key@, l@, r@, position, reason),
{
    assert(value_fits(host.num, seq![l@, r@][0]));
    assert(value_fits(host.num, seq![l@, r@][1]));
    let a = l.string(host);
    let b = r.string(host);
    let c = position.string();
    err3(host, key, a, b, c, reason)
}

/// What an operator makes of the values of its operands.
#[verifier::rlimit(80)]
#[verifier::spinoff_prover]
fn combine_ex<N: Fn(NumOp) -> NumOut, G: Fn(String, Vec<Value>, StackFrame) -> (StackFrame, Result<Value, Error>)>(
    operator: Kind,
    l: Value,
    r: Value,
    left: &Node,
    right: &Node,
    position: Position,
    host: &Host<N, G>,
) -> (res: Result<Value, Error>)
    requires
        host.ok(),
        is_value_operator(operator),
        !aborts(crate::semantics::combine(*host, operator, l@, r@, left@, right@, position)),
    ensures
        res_model(res) == crate::semantics::combine(*host, operator, l@, r@, left@, right@, position),
{
    match operator {
        Kind::AddOp => match (l, r) {
            (Value::Number(a), Value::Number(b)) => Ok(Value::Number(host.number(NumOp::Add(a, b)))),
            (Value::String(a), Value::String(b)) => Ok(Value::String(crate::text::join(a.as_str(), b.as_str()))),
            (Value::Bool(a), Value::Bool(b)) => Ok(Value::Bool(a || b)),
            (Value::Array(ti, ai), Value::Array(tj, aj)) => {
                if ti.same(&tj) {
                    let mut ai = ai;
                    let mut aj = aj;
                    let ghost (sa, sb) = (ai@, aj@);
                    ai.append(&mut aj);
                    proof {
                        crate::value::lemma_values_add(sa, sb);
                    }
                    Ok(Value::Array(ti, ai))
                } else {
                    Err(mismatch_err(operator, left, right, position, host))
                }
            },
            (l, r) => match l {
                Value::Number(_) | Value::String(_) | Value::Bool(_) | Value::Array(..) => Err(mismatch_err(operator, left, right, position, host)),
                _ => Err(bad_left_err("errors.eval_binary_expr_node_e4", &l, &r, position, ErrorReason::Syntax, host)),
            },
        },
        Kind::SubtractOp => match (l, r) {
            (Value::Number(a), Value::Number(b)) => Ok(Value::Number(host.number(NumOp::Sub(a, b)))),
            (l, r) => match l {
                Value::Number(_) => Err(mismatch_err(operator, left, right, position, host)),
                _ => Err(bad_left_err("errors.eval_binary_expr_node_e5", &l, &r, position, ErrorReason::Syntax, host)),
            },
        },
        Kind::MultiplyOp => match (l, r) {
            (Value::Number(a), Value::Number(b)) => Ok(Value::Number(host.number(NumOp::Mul(a, b)))),
            (Value::Bool(a), Value::Bool(b)) => Ok(Value::Bool(a && b)),
            (l, r) => match l {
                Value::Number(_) | Value::Bool(_) => Err(mismatch_err(operator, left, right, position, host)),
                _ => Err(bad_left_err("errors.eval_binary_expr_node_e6", &l, &r, position, ErrorReason::Syntax, host)),
            },
        },
        Kind::DivideOp => match (l, r) {
            (Value::Number(a), Value::Number(b)) => {
                if host.truth(NumOp::IsZero(b)) {
                    let x = right.string(host);
                    Err(err1(host, "errors.eval_binary_expr_node_e7", x, ErrorReason::Runtime))
                } else {
                    Ok(Value::Number(host.number(NumOp::Div(a, b))))
                }
            },
            (l, r) => match l {
                Value::Number(_) => Err(mismatch_err(operator, left, right, position, host)),
                _ => Err(bad_left_err("errors.eval_binary_expr_node_e8", &l, &r, position, ErrorReason::Syntax, host)),
            },
        },
        Kind::ModulusOp => match (l, r) {
            (Value::Number(a), Value::Number(b)) => {
                if host.truth(NumOp::IsZero(b)) {
                    let x = right.position().string();
                    Err(err1(host, "errors.eval_binary_expr_node_e9", x, ErrorReason::Runtime))
                } else {
                    Ok(Value::Number(host.number(NumOp::Rem(a, b))))
                }
            },
            (l, r) => match l {
                Value::Number(_) => Err(mismatch_err(operator, left, right, position, host)),
                _ => {
                    assert(value_fits(host.num, seq![r@][0]));
                    let x = r.string(host);
                    let y = left.position().string();
                    Err(err2(host, "errors.eval_binary_expr_node_e10", x, y, ErrorReason::Syntax))
                },
            },
        },
        Kind::LogicalAndOp => match (l, r) {
            (Value::Number(a), Value::Number(b)) => {
                if host.truth(NumOp::IsIntable(a)) && host.truth(NumOp::IsIntable(b)) {
                    Ok(Value::Number(host.number(NumOp::BitAnd(a, b))))
                } else {
                    Err(bad_left_err("errors.eval_binary_expr_node_e11", &Value::Number(a), &Value::Number(b), position, ErrorReason::Runtime, host))
                }
            },
            (Value::Bool(a), Value::Bool(b)) => Ok(Value::Bool(a && b)),
            (l, r) => match l {
                Value::Number(_) => Err(bad_left_err("errors.eval_binary_expr_node_e11", &l, &r, position, ErrorReason::Runtime, host)),
                Value::Bool(_) => Err(mismatch_err(operator, left, right, position, host)),
                _ => Err(bad_left_err("errors.eval_binary_expr_node_e12", &l, &r, position, ErrorReason::Syntax, host)),
            },
        },
        Kind::LogicalOrOp => match (l, r) {
            (Value::Number(a), Value::Number(b)) => {
                if host.truth(NumOp::IsIntable(a)) && host.truth(NumOp::IsIntable(b)) {
                    Ok(Value::Number(host.number(NumOp::BitOr(a, b))))
                } else {
                    Err(bad_left_err("errors.eval_binary_expr_node_e13", &Value::Number(a), &Value::Number(b), position, ErrorReason::Runtime, host))
                }
            },
            (Value::Bool(a), Value::Bool(b)) => Ok(Value::Bool(a || b)),
            (l, r) => match l {
                Value::Number(_) => Err(bad_left_err("errors.eval_binary_expr_node_e13", &l, &r, position, ErrorReason::Runtime, host)),
                Value::Bool(_) => Err(mismatch_err(operator, left, right, position, host)),
                _ => Err(bad_left_err("errors.eval_binary_expr_node_e14", &l, &r, position, ErrorReason::Syntax, host)),
            },
        },
        Kind::GreaterThanOp => match (l, r) {
            (Value::Number(a), Value::Number(b)) => Ok(Value::Bool(host.truth(NumOp::Greater(a, b)))),
            (Value::String(a), Value::String(b)) => Ok(Value::Bool(less_text(&b, &a))),
            (l, r) => match l {
                Value::Number(_) | Value::String(_) => Err(mismatch_err(operator, left, right, position, host)),
                _ => Err(bad_left_err("errors.eval_binary_expr_node_e15", &l, &r, position, ErrorReason::Runtime, host)),
            },
        },
        Kind::LessThanOp => match (l, r) {
            (Value::Number(a), Value::Number(b)) => Ok(Value::Bool(host.truth(NumOp::Less(a, b)))),
            (Value::String(a), Value::String(b)) => Ok(Value::Bool(less_text(&a, &b))),
            (l, r) => match l {
                Value::Number(_) | Value::String(_) => Err(mismatch_err(operator, left, right, position, host)),
                _ => Err(bad_left_err("errors.eval_binary_expr_node_e15", &l, &r, position, ErrorReason::Runtime, host)),
            },
        },
        _ => Ok(Value::Bool(l.equals(r, host))),
    }
}

/// Evaluates a binary expression.
#[verifier::rlimit(60)]
#[verifier::spinoff_prover]
fn ev_binary<N: Fn(NumOp) -> NumOut, G: Fn(String, Vec<Value>, StackFrame) -> (StackFrame, Result<Value, Error>)>(
    n: &Node,
    stack: &mut StackFrame,
    host: &Host<N, G>,
    fuel: u32,
) -> (r: Result<Value, Error>)
    requires
        host.ok(),
        !aborts(eval_binary(*host, n@, old(stack)@, fuel as nat).res),
    ensures
        res_model(r) == eval_binary(*host, n@, old(stack)@, fuel as nat).res,
        final(stack)@ == eval_binary(*host, n@, old(stack)@, fuel as nat).stack,
    decreases fuel, array_depth(n@), 2int, n@, 1int,
{
    match n {
        Node::BinaryExpression { operator, left_operand, right_operand, position } => {
            assert(n@ == NodeM::BinaryExpression { operator: *operator, left_operand: Box::new((**left_operand)@), right_operand: Box::new((**right_operand)@), position: *position });
            assert(array_depth((**right_operand)@) <= array_depth(n@));
            assert(array_depth((**left_operand)@) <= array_depth(n@));
            if *operator == Kind::AssignOp {
                match &**left_operand {
                    Node::Identifier { .. } => ev_assign_name(n, stack, host, fuel),
                    Node::IndexingOp { .. } => ev_assign_index(n, stack, host, fuel),
                    Node::BinaryExpression { .. } => ev_assign_field(n, stack, host, fuel),
                    _ => ev_assign_other(n, stack, host, fuel),
                }
            } else if *operator == Kind::AccessorOp {
                let lc = copy_node(left_operand);
                let (_, o) = ev(lc, stack, false, host, fuel);
                match o {
                    Err(e) => Err(e),
                    Ok(obj) => {
                        let field = right_operand.string(host);
                        match &obj {
                            Value::Object { name, body } => {
                                proof {
                                    crate::value::lemma_body_index(body@);
                                }
                                match crate::stack::find_in(body, &field) {
                                    Some(i) => {
                                        proof {
                                            crate::stack::lemma_assoc_at(crate::value::body_model(body@), i as int, field@, crate::value::body_model(body@)[i as int].1);
                                        }
                                        Ok(body[i].1.1.clone())
                                    },
                                    None => {
                                        proof {
                                            crate::stack::lemma_assoc_absent(crate::value::body_model(body@), field@, (crate::types::TypeM::Empty, ValueM::Empty));
                                        }
                                        assert(value_fits(host.num, seq![obj@][0]));
                                        let a = name.clone();
                                        let b = obj.string(host);
                                        let c = left_operand.position().string();
                                        Err(err3(host, "errors.eval_binary_expr_node_e1", a, b, c, ErrorReason::Runtime))
                                    },
                                }
                            },
                            _ => {
                                assert(value_fits(host.num, seq![obj@][0]));
                                let a = obj.string(host);
                                Err(err1(host, "errors.eval_binary_expr_node_e2", a, ErrorReason::System))
                            },
                        }
                    },
                }
            } else if is_value_op(*operator) {
                let lc = copy_node(left_operand);
                let (_, lr) = ev(lc, stack, false, host, fuel);
                match lr {
                    Err(e) => Err(e),
                    Ok(lv) => {
                        let rc = copy_node(right_operand);
                        let (_, rr) = ev(rc, stack, false, host, fuel);
                        match rr {
                            Err(e) => Err(e),
                            Ok(rv) => combine_ex(*operator, lv, rv, left_operand, right_operand, *position, host),
                        }
                    },
                }
            } else {
                let a = operator.string();
                Err(err1(host, "errors.eval_binary_expr_node_e16", a, ErrorReason::Assert))
            }
        },
        _ => {
            let a = n.string(host);
            let b = n.position().string();
            Err(err2(host, "errors.eval_binary_expr_node_e18", a, b, ErrorReason::Assert))
        },
    }
}

/// Evaluates an `if` expression.
fn ev_if<N: Fn(NumOp) -> NumOut, G: Fn(String, Vec<Value>, StackFrame) -> (StackFrame, Result<Value, Error>)>(
    n: &Node,
    stack: &mut StackFrame,
    allow_thunk: bool,
    host: &Host<N, G>,
    fuel: u32,
) -> (r: Result<Value, Error>)
    requires
        host.ok(),
        !aborts(eval_if(*host, n@, old(stack)@, allow_thunk, fuel as nat).res),
    ensures
        res_model(r) == eval_if(*host, n@, old(stack)@, allow_thunk, fuel as nat).res,
        final(stack)@ == eval_if(*host, n@, old(stack)@, allow_thunk, fuel as nat).stack,
    decreases fuel, array_depth(n@), 2int, n@, 1int,
{
    match n {
        Node::IfExpr { condition, on_true, on_false, position } => {
            assert(n@ == NodeM::IfExpr { condition: Box::new((**condition)@), on_true: crate::node::opt_node_model(*on_true), on_false: crate::node::opt_node_model(*on_false), position: *position });
            let cond = copy_node(condition);
            let (c2, c) = ev(cond, stack, allow_thunk, host, fuel);
            match c {
                Err(e) => Err(e),
                Ok(Value::Bool(b)) => {
                    if b {
                        ev_branch(on_true, stack, allow_thunk, host, fuel)
                    } else {
                        ev_branch(on_false, stack, allow_thunk, host, fuel)
                    }
                },
                Ok(Value::String(t)) => {
                    if t.as_str().is_empty() {
                        ev_branch(on_true, stack, allow_thunk, host, fuel)
                    } else {
                        ev_branch(on_false, stack, allow_thunk, host, fuel)
                    }
                },
                Ok(_) => {
                    let a = c2.string(host);
                    let b = position.string();
                    Err(err2(host, "errors.eval_if_expr_node_e1", a, b, ErrorReason::Runtime))
                },
            }
        },
        _ => Err(Error { message: String::new(), reason: ErrorReason::System }),
    }
}

/// Evaluates a branch of an `if` expression; the empty value where there is none.
fn ev_branch<N: Fn(NumOp) -> NumOut, G: Fn(String, Vec<Value>, StackFrame) -> (StackFrame, Result<Value, Error>)>(
    b: &Option<Box<Node>>,
    stack: &mut StackFrame,
    allow_thunk: bool,
    host: &Host<N, G>,
    fuel: u32,
) -> (r: Result<Value, Error>)
    requires
        host.ok(),
        !aborts(eval_branch(*host, crate::node::opt_node_model(*b), old(stack)@, allow_thunk, fuel as nat).res),
    ensures
        res_model(r) == eval_branch(*host, crate::node::opt_node_model(*b), old(stack)@, allow_thunk, fuel as nat).res,
        final(stack)@ == eval_branch(*host, crate::node::opt_node_model(*b), old(stack)@, allow_thunk, fuel as nat).stack,
    decreases fuel, opt_depth(crate::node::opt_node_model(*b)), 2int, crate::node::opt_node_model(*b), 0int,
{
    match b {
        Some(bx) => {
            let c = copy_node(bx);
            let (_, r) = ev(c, stack, allow_thunk, host, fuel);
            r
        },
        None => Ok(Value::Empty),
    }
}

/// Evaluates the arguments of a call, in order.
fn ev_args<N: Fn(NumOp) -> NumOut, G: Fn(String, Vec<Value>, StackFrame) -> (StackFrame, Result<Value, Error>)>(
    args: Vec<Node>,
    stack: &mut StackFrame,
    host: &Host<N, G>,
    fuel: u32,
) -> (out: (Vec<Node>, Result<Vec<Value>, Error>))
    requires
        host.ok(),
        !(eval_elems(*host, nodes_model(args@), 0, old(stack)@, None, Seq::empty(), nodes_model(args@), fuel as nat).0 matches Err(Fail::Abort)),
    ensures
        nodes_model(out.0@) == eval_elems(*host, nodes_model(args@), 0, old(stack)@, None, Seq::empty(), nodes_model(args@), fuel as nat).1,
        final(stack)@ == eval_elems(*host, nodes_model(args@), 0, old(stack)@, None, Seq::empty(), nodes_model(args@), fuel as nat).2,
        vals_res(out.1) == eval_elems(*host, nodes_model(args@), 0, old(stack)@, None, Seq::empty(), nodes_model(args@), fuel as nat).0,
    decreases fuel, nodes_depth(nodes_model(args@)), 2int, nodes_model(args@), 2int,
{
    let ghost vm = nodes_model(args@);
    let ghost orig = args@;
    let ghost st0 = stack@;
    proof {
        crate::node::lemma_nodes_index(args@);
    }
    let ghost target = eval_elems(*host, vm, 0, st0, None, Seq::empty(), vm, fuel as nat);
    let mut value = args;
    let mut acc: Vec<Value> = Vec::new();
    assert(crate::value::values_model(acc@) =~= Seq::<ValueM>::empty());
    let mut i: usize = 0;
    while i < value.len()
        invariant
            host.ok(),
            i <= value@.len(),
            value@.len() == vm.len(),
            vm.len() == orig.len(),
            vm == nodes_model(orig),
            forall|k: int| 0 <= k < orig.len() ==> #[trigger] vm[k] == orig[k]@,
            forall|k: int| i <= k < value@.len() ==> #[trigger] value@[k] == orig[k],
            eval_elems(*host, vm, i as int, stack@, None, crate::value::values_model(acc@), nodes_model(value@), fuel as nat) == target,
            !(target.0 matches Err(Fail::Abort)),
            args@ == orig,
            st0 == old(stack)@,
            target == eval_elems(*host, nodes_model(args@), 0, old(stack)@, None, Seq::empty(), nodes_model(args@), fuel as nat),
        decreases value@.len() - i,
    {
        let ghost before_nodes = value@;
        let ghost st_i = stack@;
        let ghost acc_m = crate::value::values_model(acc@);
        let ghost out_i = nodes_model(value@);
        let n = take_node(&mut value, i);
        assert(n@ == vm[i as int]);
        assert(decreases_to!(vm => vm[i as int]));
        proof {
            crate::node::lemma_nodes_depth(vm);
        }
        let (nn, r) = ev(n, stack, false, host, fuel);
        value.set(i, nn);
        proof {
            crate::node::lemma_nodes_update(before_nodes, i as int, nn);
            assert(before_nodes.update(i as int, Node::EmptyLiteral(Position { line: 0, column: 0 })).update(i as int, nn) =~= before_nodes.update(i as int, nn));
        }
        let ghost e_spec = eval(*host, vm[i as int], st_i, false, fuel as nat);
        assert(nodes_model(value@) == out_i.update(i as int, e_spec.node));
        match r {
            Err(e) => {
                assert(target == eval_elems(*host, vm, i as int, st_i, None, acc_m, out_i, fuel as nat));
                return (value, Err(e));
            },
            Ok(v) => {
                let ghost acc_before = acc@;
                acc.push(v);
                proof {
                    crate::value::lemma_values_push(acc_before, v);
                }
            },
        }
        i = i + 1;
    }
    (value, Ok(acc))
}

/// Evaluates an assignment to a name.
#[verifier::rlimit(80)]
#[verifier::spinoff_prover]
fn ev_assign_name<N: Fn(NumOp) -> NumOut, G: Fn(String, Vec<Value>, StackFrame) -> (StackFrame, Result<Value, Error>)>(
    n: &Node,
    stack: &mut StackFrame,
    host: &Host<N, G>,
    fuel: u32,
) -> (r: Result<Value, Error>)
    requires
        host.ok(),
        n@ matches NodeM::BinaryExpression { left_operand, .. } && *left_operand is Identifier,
        !aborts(eval_assign(*host, n@, old(stack)@, fuel as nat).res),
    ensures
        res_model(r) == eval_assign(*host, n@, old(stack)@, fuel as nat).res,
        final(stack)@ == eval_assign(*host, n@, old(stack)@, fuel as nat).stack,
    decreases fuel, array_depth(n@), 2int, n@, 0int,
{
    match n {
        Node::BinaryExpression { operator, left_operand, right_operand, position } => {
            assert(n@ == NodeM::BinaryExpression { operator: *operator, left_operand: Box::new((**left_operand)@), right_operand: Box::new((**right_operand)@), position: *position });
            assert(array_depth((**right_operand)@) <= array_depth(n@));
            assert(array_depth((**left_operand)@) <= array_depth(n@));
            match &**left_operand {
                Node::Identifier { value, position: p } => {
                    assert((**left_operand)@ == NodeM::Identifier { value: value@, position: *p });
                    let rc = copy_node(right_operand);
                    let (_, rr) = ev(rc, stack, false, host, fuel);
                    match rr {
                        Err(e) => Err(e),
                        Ok(rv) => {
                            let kept = crate::value::copy_value(&rv);
                            stack.set(value.clone(), rv);
                            Ok(Value::Assignment(Box::new(kept)))
                        },
                    }
                },
                _ => Err(Error { message: String::new(), reason: ErrorReason::System }),
            }
        },
        _ => Err(Error { message: String::new(), reason: ErrorReason::System }),
    }
}

/// Evaluates an assignment to an element.
#[verifier::rlimit(80)]
#[verifier::spinoff_prover]
fn ev_assign_index<N: Fn(NumOp) -> NumOut, G: Fn(String, Vec<Value>, StackFrame) -> (StackFrame, Result<Value, Error>)>(
    n: &Node,
    stack: &mut StackFrame,
    host: &Host<N, G>,
    fuel: u32,
) -> (r: Result<Value, Error>)
    requires
        host.ok(),
        n@ matches NodeM::BinaryExpression { left_operand, .. } && *left_operand is IndexingOp,
        !aborts(eval_assign(*host, n@, old(stack)@, fuel as nat).res),
    ensures
        res_model(r) == eval_assign(*host, n@, old(stack)@, fuel as nat).res,
        final(stack)@ == eval_assign(*host, n@, old(stack)@, fuel as nat).stack,
    decreases fuel, array_depth(n@), 2int, n@, 0int,
{
    match n {
        Node::BinaryExpression { operator, left_operand, right_operand, position } => {
            assert(n@ == NodeM::BinaryExpression { operator: *operator, left_operand: Box::new((**left_operand)@), right_operand: Box::new((**right_operand)@), position: *position });
            assert(array_depth((**right_operand)@) <= array_depth(n@));
            assert(array_depth((**left_operand)@) <= array_depth(n@));
            match &**left_operand {
                Node::IndexingOp { operand, index, position: p } => {
                    assert((**left_operand)@ == NodeM::IndexingOp { operand: Box::new((**operand)@), index: Box::new((**index)@), position: *p });
                    assert(array_depth((**operand)@) <= array_depth((**left_operand)@));
                    assert(array_depth((**index)@) <= array_depth((**left_operand)@));
                    let oc = copy_node(operand);
                    let (o2, o) = ev(oc, stack, false, host, fuel);
                    match o {
                        Err(e) => Err(e),
                        Ok(Value::Array(_, vals)) => {
                            let ic = copy_node(index);
                            let (i2, nr) = to_num(ic, stack, host, fuel);
                            match nr {
                                Err(e) => Err(e),
                                Ok(num) => match to_usize_ex(num, i2.position(), host) {
                                    Err(e) => Err(e),
                                    Ok(_idx) => {
                                        let rc = copy_node(right_operand);
                                        let (_, rr) = ev(rc, stack, false, host, fuel);
                                        match rr {
                                            Err(e) => Err(e),
                                            Ok(rv) => Ok(Value::Assignment(Box::new(rv))),
                                        }
                                    },
                                },
                            }
                        },
                        Ok(_) => {
                            let a = o2.string(host);
                            let b = o2.position().string();
                            Err(err2(host, "errors.eval_e5", a, b, ErrorReason::Runtime))
                        },
                    }
                },
                _ => Err(Error { message: String::new(), reason: ErrorReason::System }),
            }
        },
        _ => Err(Error { message: String::new(), reason: ErrorReason::System }),
    }
}

/// Evaluates an assignment to a field.
#[verifier::rlimit(80)]
#[verifier::spinoff_prover]
fn ev_assign_field<N: Fn(NumOp) -> NumOut, G: Fn(String, Vec<Value>, StackFrame) -> (StackFrame, Result<Value, Error>)>(
    n: &Node,
    stack: &mut StackFrame,
    host: &Host<N, G>,
    fuel: u32,
) -> (r: Result<Value, Error>)
    requires
        host.ok(),
        n@ matches NodeM::BinaryExpression { left_operand, .. } && *left_operand is BinaryExpression,
        !aborts(eval_assign(*host, n@, old(stack)@, fuel as nat).res),
    ensures
        res_model(r) == eval_assign(*host, n@, old(stack)@, fuel as nat).res,
        final(stack)@ == eval_assign(*host, n@, old(stack)@, fuel as nat).stack,
    decreases fuel, array_depth(n@), 2int, n@, 0int,
{
    match n {
        Node::BinaryExpression { operator, left_operand, right_operand, position } => {
            assert(n@ == NodeM::BinaryExpression { operator: *operator, left_operand: Box::new((**left_operand)@), right_operand: Box::new((**right_operand)@), position: *position });
            assert(array_depth((**right_operand)@) <= array_depth(n@));
            assert(array_depth((**left_operand)@) <= array_depth(n@));
            match &**left_operand {
                Node::BinaryExpression { operator: lop, left_operand: ll, right_operand: lr, position: lpos } => {
                    assert((**left_operand)@ == NodeM::BinaryExpression { operator: *lop, left_operand: Box::new((**ll)@), right_operand: Box::new((**lr)@), position: *lpos });
                    assert(array_depth((**ll)@) <= array_depth((**left_operand)@));
                    if *lop == Kind::AccessorOp {
                        let lc = copy_node(ll);
                        let (_, o) = ev(lc, stack, false, host, fuel);
                        match o {
                            Err(e) => Err(e),
                            Ok(obj) => {
                                let field = lr.string(host);
                                let found = match &obj {
                                    Value::Object { body, .. } => {
                                        proof {
                                            crate::value::lemma_body_index(body@);
                                        }
                                        match crate::stack::find_in(body, &field) {
                                            Some(i) => {
                                                proof {
                                                    crate::stack::lemma_assoc_at(crate::value::body_model(body@), i as int, field@, crate::value::body_model(body@)[i as int].1);
                                                }
                                                true
                                            },
                                            None => {
                                                proof {
                                                    crate::stack::lemma_assoc_absent(crate::value::body_model(body@), field@, (crate::types::TypeM::Empty, ValueM::Empty));
                                                }
                                                false
                                            },
                                        }
                                    },
                                    _ => false,
                                };
                                match &obj {
                                    Value::Object { name, .. } => {
                                        if found {
                                            let rc = copy_node(right_operand);
                                            let (_, rr) = ev(rc, stack, false, host, fuel);
                                            match rr {
                                                Err(e) => Err(e),
                                                Ok(_) => {
                                                    if stack.up(name, &obj) {
                                                        Ok(crate::value::copy_value(&obj))
                                                    } else {
                                                        let a = name.clone();
                                                        Err(err1(host, "errors.stack_up", a, ErrorReason::System))
                                                    }
                                                },
                                            }
                                        } else {
                                            assert(value_fits(host.num, seq![obj@][0]));
                                            let a = name.clone();
                                            let b = obj.string(host);
                                            let c = lpos.string();
                                            Err(err3(host, "errors.eval_binary_expr_node_e1", a, b, c, ErrorReason::Runtime))
                                        }
                                    },
                                    _ => {
                                        assert(value_fits(host.num, seq![obj@][0]));
                                        let a = obj.string(host);
                                        Err(err1(host, "erros.eval_binary_expr_node_e2", a, ErrorReason::System))
                                    },
                                }
                            },
                        }
                    } else {
                        let a = ll.string(host);
                        let b = lpos.string();
                        Err(err2(host, "errors.eval_binary_expr_node_e3", a, b, ErrorReason::Runtime))
                    }
                },
                _ => Err(Error { message: String::new(), reason: ErrorReason::System }),
            }
        },
        _ => Err(Error { message: String::new(), reason: ErrorReason::System }),
    }
}

/// Evaluates an assignment to anything else.
fn ev_assign_other<N: Fn(NumOp) -> NumOut, G: Fn(String, Vec<Value>, StackFrame) -> (StackFrame, Result<Value, Error>)>(
    n: &Node,
    stack: &mut StackFrame,
    host: &Host<N, G>,
    fuel: u32,
) -> (r: Result<Value, Error>)
    requires
        host.ok(),
        n@ matches NodeM::BinaryExpression { left_operand, .. } && !(*left_operand is Identifier || *left_operand is IndexingOp || *left_operand is BinaryExpression),
        !aborts(eval_assign(*host, n@, old(stack)@, fuel as nat).res),
    ensures
        res_model(r) == eval_assign(*host, n@, old(stack)@, fuel as nat).res,
        final(stack)@ == eval_assign(*host, n@, old(stack)@, fuel as nat).stack,
    decreases fuel, array_depth(n@), 2int, n@, 0int,
{
    match n {
        Node::BinaryExpression { operator, left_operand, right_operand, position } => {
            assert(n@ == NodeM::BinaryExpression { operator: *operator, left_operand: Box::new((**left_operand)@), right_operand: Box::new((**right_operand)@), position: *position });
            assert(array_depth((**right_operand)@) <= array_depth(n@));
            assert(array_depth((**left_operand)@) <= array_depth(n@));
            match &**left_operand {
                other => {
                    let lc = copy_node(other);
                    let (l2, lo) = ev(lc, stack, false, host, fuel);
                    match lo {
                        Err(e) => Err(e),
                        Ok(lv) => {
                            assert(value_fits(host.num, seq![lv@][0]));
                            let a = lv.string(host);
                            let b = l2.position().string();
                            Err(err2(host, "errors.eval_binary_expr_node_e3", a, b, ErrorReason::Runtime))
                        },
                    }
                },
            }
        },
        _ => Err(Error { message: String::new(), reason: ErrorReason::System }),
    }
}

impl Node {
    /// Evaluates the node on `stack`: gives its value, or the error of the
    /// language that stops it. Evaluation may change the node (a negated
    /// literal is negated in place) and the stack (assignments, function
    /// definitions, calls). Where `allow_thunk` holds, a call of a function
    /// of the language gives a put-off call in place of running the body.
    /// Numbers and native functions come from `host`; `fuel` bounds the
    /// depth of re-evaluation and of function calls.
    pub fn eval<N: Fn(NumOp) -> NumOut, G: Fn(String, Vec<Value>, StackFrame) -> (StackFrame, Result<Value, Error>)>(
        &mut self,
        stack: &mut StackFrame,
        allow_thunk: bool,
        host: &Host<N, G>,
        fuel: u32,
    ) -> (r: Result<Value, Error>)
        requires
            host.ok(),
            !aborts(eval(*host, old(self)@, old(stack)@, allow_thunk, fuel as nat).res),
        ensures
            res_model(r) == eval(*host, old(self)@, old(stack)@, allow_thunk, fuel as nat).res,
            final(self)@ == eval(*host, old(self)@, old(stack)@, allow_thunk, fuel as nat).node,
            final(stack)@ == eval(*host, old(self)@, old(stack)@, allow_thunk, fuel as nat).stack,
    {
        let mut taken = Node::EmptyLiteral(Position { line: 0, column: 0 });
        std::mem::swap(&mut taken, self);
        let (back, r) = ev(taken, stack, allow_thunk, host, fuel);
        *self = back;
        r
    }
}

} // verus!
