//! Properties of evaluation as a whole: what a read gives back of a write,
//! what the stack keeps, what arrays, objects and slices are made of.
use crate::error::Error;
use crate::host::{Host, NumOp, NumOut};
use crate::i18n::Catalog;
use crate::node::{Kind, NodeM, Position};
use crate::semantics::{eval, eval_call, eval_elems, eval_fields, text_less, Fail};
use crate::stack::{
    assoc_get, assoc_set, lemma_assoc_absent, lemma_assoc_at, stack_get, stack_set, stack_up,
    FrameM, StackFrame,
};
use crate::types::{type_of_name, type_text, TypeM};
use crate::value::{type_of_value, values_equal, Value, ValueM};
use vstd::prelude::*;

verus! {

/// The evaluation result is the value `v`.
pub open spec fn gives(r: Result<ValueM, Fail>, v: ValueM) -> bool {
    r == Ok::<ValueM, Fail>(v)
}

/// No name occurs twice among the entries.
pub open spec fn names_unique<V>(f: Seq<(Seq<char>, V)>) -> bool {
    forall|i: int, j: int| 0 <= i < j < f.len() ==> #[trigger] f[i].0 != #[trigger] f[j].0
}

/// Reading a name after binding it among entries gives the value bound.
pub proof fn law_assoc_set_get<V>(f: Seq<(Seq<char>, V)>, name: Seq<char>, v: V)
    ensures
        assoc_get(assoc_set(f, name, v), name) == Some(v),
    decreases f.len(),
{
    if f.len() > 0 && f[0].0 != name {
        law_assoc_set_get(f.drop_first(), name, v);
        assert((seq![f[0]] + assoc_set(f.drop_first(), name, v)).drop_first() =~= assoc_set(
            f.drop_first(),
            name,
            v,
        ));
    }
}

/// Binding a name among entries leaves every other name as it was.
pub proof fn law_assoc_set_other<V>(f: Seq<(Seq<char>, V)>, name: Seq<char>, other: Seq<char>, v: V)
    requires
        other != name,
    ensures
        assoc_get(assoc_set(f, name, v), other) == assoc_get(f, other),
    decreases f.len(),
{
    if f.len() == 0 {
        assert(seq![(name, v)].drop_first() =~= Seq::<(Seq<char>, V)>::empty());
        assert(assoc_get(Seq::<(Seq<char>, V)>::empty(), other) is None);
        assert(assoc_get(seq![(name, v)], other) == assoc_get(seq![(name, v)].drop_first(), other));
    } else if f[0].0 == name {
        assert(f.update(0, (name, v)).drop_first() =~= f.drop_first());
    } else {
        law_assoc_set_other(f.drop_first(), name, other, v);
        assert((seq![f[0]] + assoc_set(f.drop_first(), name, v)).drop_first() =~= assoc_set(
            f.drop_first(),
            name,
            v,
        ));
    }
}

/// Binding a name among entries in which no name occurs twice keeps every
/// name occurring once.
pub proof fn law_assoc_set_keeps_names_unique<V>(f: Seq<(Seq<char>, V)>, name: Seq<char>, v: V)
    requires
        names_unique(f),
    ensures
        names_unique(assoc_set(f, name, v)),
{
    if exists|i: int| 0 <= i < f.len() && f[i].0 == name {
        let i = choose|i: int| 0 <= i < f.len() && f[i].0 == name;
        assert forall|j: int| 0 <= j < i implies #[trigger] f[j].0 != name by {
            assert(f[j].0 != f[i].0);
        }
        lemma_assoc_at(f, i, name, v);
        let g = f.update(i, (name, v));
        assert forall|a: int, b: int| 0 <= a < b < g.len() implies #[trigger] g[a].0 != #[trigger] g[b].0 by {
            assert(g[a].0 == f[a].0 && g[b].0 == f[b].0);
            assert(f[a].0 != f[b].0);
        }
    } else {
        assert forall|j: int| 0 <= j < f.len() implies #[trigger] f[j].0 != name by {}
        lemma_assoc_absent(f, name, v);
        let g = f.push((name, v));
        assert forall|a: int, b: int| 0 <= a < b < g.len() implies #[trigger] g[a].0 != #[trigger] g[b].0 by {
            if b < f.len() {
                assert(f[a].0 != f[b].0);
            } else {
                assert(g[a] == f[a]);
                assert(f[a].0 != name);
            }
        }
    }
}

/// A read of a name from the stack gives back what the last write of that
/// name wrote.
pub proof fn law_stack_set_get(st: Seq<FrameM>, name: Seq<char>, v: ValueM)
    ensures
        stack_get(stack_set(st, name, v), name) == Some(v),
{
    if st.len() == 0 {
        law_assoc_set_get(Seq::<(Seq<char>, ValueM)>::empty(), name, v);
    } else {
        law_assoc_set_get(st.last(), name, v);
    }
}

/// A write of one name leaves what a read of any other name gives.
pub proof fn law_stack_set_other(st: Seq<FrameM>, name: Seq<char>, other: Seq<char>, v: ValueM)
    requires
        other != name,
    ensures
        stack_get(stack_set(st, name, v), other) == stack_get(st, other),
{
    if st.len() == 0 {
        law_assoc_set_other(Seq::<(Seq<char>, ValueM)>::empty(), name, other, v);
        let s2 = stack_set(st, name, v);
        assert(s2.drop_last() =~= Seq::<FrameM>::empty());
        assert(stack_get(Seq::<FrameM>::empty(), other) is None);
        assert(assoc_get(s2.last(), other) is None);
        assert(stack_get(s2, other) == stack_get(s2.drop_last(), other));
    } else {
        law_assoc_set_other(st.last(), name, other, v);
        assert(stack_set(st, name, v).drop_last() =~= st.drop_last());
    }
}

/// A write keeps every frame free of names that occur twice.
pub proof fn law_stack_set_keeps_frames_unique(st: Seq<FrameM>, name: Seq<char>, v: ValueM)
    requires
        forall|i: int| 0 <= i < st.len() ==> names_unique(#[trigger] st[i]),
    ensures
        forall|i: int| 0 <= i < stack_set(st, name, v).len() ==> names_unique(#[trigger] stack_set(st, name, v)[i]),
{
    if st.len() == 0 {
        assert(names_unique(seq![(name, v)]));
    } else {
        law_assoc_set_keeps_names_unique(st.last(), name, v);
        let s2 = stack_set(st, name, v);
        assert forall|i: int| 0 <= i < s2.len() implies names_unique(#[trigger] s2[i]) by {
            if i < st.len() - 1 {
                assert(s2[i] == st[i]);
            }
        }
    }
}

/// After an update of a name that some frame has, a read of the name gives
/// the new value.
pub proof fn law_stack_up_get(st: Seq<FrameM>, name: Seq<char>, v: ValueM)
    requires
        stack_up(st, name, v) is Some,
    ensures
        stack_get(stack_up(st, name, v)->0, name) == Some(v),
    decreases st.len(),
{
    if st.len() > 0 {
        if assoc_get(st.last(), name) is Some {
            law_assoc_set_get(st.last(), name, v);
        } else {
            law_stack_up_get(st.drop_last(), name, v);
            let s = stack_up(st.drop_last(), name, v)->0;
            assert(s.push(st.last()).drop_last() =~= s);
        }
    }
}

/// Adding a frame and dropping it again gives back the stack.
pub proof fn law_push_then_pop(st: Seq<FrameM>, vt: FrameM)
    ensures
        st.push(vt).drop_last() == st,
{
    assert(st.push(vt).drop_last() =~= st);
}


/// The assignment of the value of `right` to the name `name`.
pub open spec fn assignment(name: Seq<char>, p: Position, right: NodeM, q: Position) -> NodeM {
    NodeM::BinaryExpression {
        operator: Kind::AssignOp,
        left_operand: Box::new(NodeM::Identifier { value: name, position: p }),
        right_operand: Box::new(right),
        position: q,
    }
}

/// An assignment to a name gives the value of its right side, and a read
/// of the name after it gives that value back.
pub proof fn law_assignment_read_back<N: Fn(NumOp) -> NumOut, G: Fn(String, Vec<Value>, StackFrame) -> (StackFrame, Result<Value, Error>)>(
    h: Host<N, G>,
    name: Seq<char>,
    p: Position,
    right: NodeM,
    q: Position,
    st: Seq<FrameM>,
    allow_thunk: bool,
    fuel: nat,
    p2: Position,
    allow2: bool,
    fuel2: nat,
    v: ValueM,
)
    requires
        gives(eval(h, assignment(name, p, right, q), st, allow_thunk, fuel).res, ValueM::Assignment(Box::new(v))),
    ensures
        gives(eval(h, right, st, false, fuel).res, v),
        gives(
            eval(
                h,
                NodeM::Identifier { value: name, position: p2 },
                eval(h, assignment(name, p, right, q), st, allow_thunk, fuel).stack,
                allow2,
                fuel2,
            ).res,
            v,
        ),
{
    let n = assignment(name, p, right, q);
    let r = eval(h, right, st, false, fuel);
    assert(eval(h, n, st, allow_thunk, fuel).res == crate::semantics::eval_binary(h, n, st, fuel).res);
    assert(eval(h, n, st, allow_thunk, fuel).stack == crate::semantics::eval_binary(h, n, st, fuel).stack);
    assert(crate::semantics::eval_binary(h, n, st, fuel) == crate::semantics::eval_assign(h, n, st, fuel));
    if let Ok(rv) = r.res {
        assert(crate::semantics::eval_assign(h, n, st, fuel).stack == stack_set(r.stack, name, rv));
        law_stack_set_get(r.stack, name, rv);
    }
}

/// Evaluating a function literal named by an identifier binds the name to
/// the function, and a read of the name after it gives the function back.
pub proof fn law_definition_read_back<N: Fn(NumOp) -> NumOut, G: Fn(String, Vec<Value>, StackFrame) -> (StackFrame, Result<Value, Error>)>(
    h: Host<N, G>,
    node: NodeM,
    name: Seq<char>,
    st: Seq<FrameM>,
    allow_thunk: bool,
    fuel: nat,
    p2: Position,
    allow2: bool,
    fuel2: nat,
)
    requires
        node matches NodeM::FunctionLiteral { sign, .. } && *sign.0 matches NodeM::Identifier { value, .. } && value == name,
    ensures
        gives(eval(h, node, st, allow_thunk, fuel).res, ValueM::Empty),
        gives(
            eval(h, NodeM::Identifier { value: name, position: p2 }, eval(h, node, st, allow_thunk, fuel).stack, allow2, fuel2).res,
            ValueM::Function(node),
        ),
{
    law_stack_set_get(st, name, ValueM::Function(node));
}

/// Evaluating a literal or a name changes neither the node nor the stack.
pub proof fn law_reading_changes_nothing<N: Fn(NumOp) -> NumOut, G: Fn(String, Vec<Value>, StackFrame) -> (StackFrame, Result<Value, Error>)>(
    h: Host<N, G>,
    node: NodeM,
    st: Seq<FrameM>,
    allow_thunk: bool,
    fuel: nat,
)
    requires
        node is NumberLiteral || node is StringLiteral || node is BoolLiteral || node is EmptyLiteral
            || node is EmptyIdentifier || node is Identifier,
    ensures
        eval(h, node, st, allow_thunk, fuel).node == node,
        eval(h, node, st, allow_thunk, fuel).stack == st,
{
}

/// The elements evaluated after others of type `t` keep the type `t`.
proof fn lemma_elems_typed<N: Fn(NumOp) -> NumOut, G: Fn(String, Vec<Value>, StackFrame) -> (StackFrame, Result<Value, Error>)>(
    h: Host<N, G>,
    nodes: Seq<NodeM>,
    i: int,
    st: Seq<FrameM>,
    t: TypeM,
    acc: Seq<ValueM>,
    out: Seq<NodeM>,
    fuel: nat,
)
    requires
        forall|k: int| 0 <= k < acc.len() ==> type_of_value(#[trigger] acc[k]) == t,
    ensures
        eval_elems(h, nodes, i, st, Some(t), acc, out, fuel).0 matches Ok(vals) ==> forall|k: int|
            0 <= k < vals.len() ==> type_of_value(#[trigger] vals[k]) == t,
    decreases nodes.len() - i,
{
    if 0 <= i < nodes.len() {
        let e = eval(h, nodes[i], st, false, fuel);
        if let Ok(v) = e.res {
            if type_of_value(v) == t {
                let acc2 = acc.push(v);
                assert forall|k: int| 0 <= k < acc2.len() implies type_of_value(#[trigger] acc2[k]) == t by {
                    if k < acc.len() {
                        assert(acc2[k] == acc[k]);
                    }
                }
                lemma_elems_typed(h, nodes, i + 1, e.stack, t, acc2, out.update(i, e.node), fuel);
            }
        }
    }
}

/// Every element of an array that an array literal gives has the type of
/// the array's elements.
pub proof fn law_array_elements_share_type<N: Fn(NumOp) -> NumOut, G: Fn(String, Vec<Value>, StackFrame) -> (StackFrame, Result<Value, Error>)>(
    h: Host<N, G>,
    value: Seq<NodeM>,
    position: Position,
    st: Seq<FrameM>,
    allow_thunk: bool,
    fuel: nat,
    t: TypeM,
    vals: Seq<ValueM>,
)
    requires
        gives(eval(h, NodeM::ArrayLiteral { value, position }, st, allow_thunk, fuel).res, ValueM::Array(t, vals)),
    ensures
        forall|k: int| 0 <= k < vals.len() ==> type_of_value(#[trigger] vals[k]) == t,
{
    if value.len() > 0 {
        let first = eval(h, value[0], st, false, fuel);
        if first.res is Ok {
            crate::nesting::law_evaluation_keeps_nesting(h, value[0], st, false, fuel);
            let ty = type_of_value(first.res->Ok_0);
            let again = eval(h, first.node, first.stack, false, fuel);
            if again.res is Ok {
                let w = again.res->Ok_0;
                if type_of_value(w) == ty {
                    assert(seq![w][0] == w);
                    lemma_elems_typed(h, value, 1, again.stack, ty, seq![w], value.update(0, again.node), fuel);
                }
            }
        }
    }
}

/// Each field of an object body carries the type of its value.
pub open spec fn body_typed(b: Seq<(Seq<char>, (TypeM, ValueM))>) -> bool {
    forall|k: int| 0 <= k < b.len() ==> (#[trigger] b[k]).1.0 == type_of_value(b[k].1.1)
}

/// Binding a name among entries in which no name occurs twice changes the
/// entry of that name or adds one at the end.
proof fn lemma_assoc_set_entries<V>(f: Seq<(Seq<char>, V)>, name: Seq<char>, v: V)
    requires
        names_unique(f),
    ensures
        forall|k: int| 0 <= k < assoc_set(f, name, v).len() ==>
            #[trigger] assoc_set(f, name, v)[k] == (name, v) || (k < f.len() && assoc_set(f, name, v)[k] == f[k]),
{
    if exists|i: int| 0 <= i < f.len() && f[i].0 == name {
        let i = choose|i: int| 0 <= i < f.len() && f[i].0 == name;
        assert forall|j: int| 0 <= j < i implies #[trigger] f[j].0 != name by {
            assert(f[j].0 != f[i].0);
        }
        lemma_assoc_at(f, i, name, v);
    } else {
        assert forall|j: int| 0 <= j < f.len() implies #[trigger] f[j].0 != name by {}
        lemma_assoc_absent(f, name, v);
    }
}

/// The fields evaluated after others keep the body free of names that
/// occur twice, typed, and holding every field evaluated.
proof fn lemma_fields_body<N: Fn(NumOp) -> NumOut, G: Fn(String, Vec<Value>, StackFrame) -> (StackFrame, Result<Value, Error>)>(
    h: Host<N, G>,
    fields: Seq<(Seq<char>, NodeM)>,
    i: int,
    st: Seq<FrameM>,
    acc: Seq<(Seq<char>, (TypeM, ValueM))>,
    out: Seq<(Seq<char>, NodeM)>,
    fuel: nat,
)
    requires
        0 <= i <= fields.len(),
        names_unique(acc),
        body_typed(acc),
        forall|k: int| 0 <= k < i ==> assoc_get(acc, (#[trigger] fields[k]).0) is Some,
    ensures
        eval_fields(h, fields, i, st, acc, out, fuel).0 matches Ok(body) ==> {
            &&& names_unique(body)
            &&& body_typed(body)
            &&& forall|k: int| 0 <= k < fields.len() ==> assoc_get(body, (#[trigger] fields[k]).0) is Some
        },
    decreases fields.len() - i,
{
    if i < fields.len() {
        let e = eval(h, fields[i].1, st, false, fuel);
        if let Ok(v) = e.res {
            let name = fields[i].0;
            let acc2 = assoc_set(acc, name, (type_of_value(v), v));
            law_assoc_set_keeps_names_unique(acc, name, (type_of_value(v), v));
            lemma_assoc_set_entries(acc, name, (type_of_value(v), v));
            assert forall|k: int| 0 <= k < acc2.len() implies (#[trigger] acc2[k]).1.0 == type_of_value(acc2[k].1.1) by {
                if acc2[k] != (name, (type_of_value(v), v)) {
                    assert(acc2[k] == acc[k]);
                }
            }
            assert forall|k: int| 0 <= k < i + 1 implies assoc_get(acc2, (#[trigger] fields[k]).0) is Some by {
                if fields[k].0 == name {
                    law_assoc_set_get(acc, name, (type_of_value(v), v));
                } else {
                    law_assoc_set_other(acc, name, fields[k].0, (type_of_value(v), v));
                }
            }
            lemma_fields_body(h, fields, i + 1, e.stack, acc2, out.update(i, (fields[i].0, e.node)), fuel);
        }
    }
}

/// An object that an object literal gives has the literal's name and a
/// field for each field of the literal; no field name occurs twice, and
/// each field carries the type of its value.
pub proof fn law_object_literal_body<N: Fn(NumOp) -> NumOut, G: Fn(String, Vec<Value>, StackFrame) -> (StackFrame, Result<Value, Error>)>(
    h: Host<N, G>,
    name: Seq<char>,
    value: Seq<(Seq<char>, NodeM)>,
    position: Position,
    st: Seq<FrameM>,
    allow_thunk: bool,
    fuel: nat,
    oname: Seq<char>,
    body: Seq<(Seq<char>, (TypeM, ValueM))>,
)
    requires
        gives(
            eval(h, NodeM::ObjectLiteral { name, value, position }, st, allow_thunk, fuel).res,
            ValueM::Object { name: oname, body },
        ),
    ensures
        oname == name,
        names_unique(body),
        body_typed(body),
        forall|k: int| 0 <= k < value.len() ==> assoc_get(body, (#[trigger] value[k]).0) is Some,
{
    lemma_fields_body(h, value, 0, st, Seq::empty(), value, fuel);
}

/// A slice of an array gives an array of the same element type whose
/// elements are a stretch of the array's elements, in order.
pub proof fn law_slice_is_a_stretch<N: Fn(NumOp) -> NumOut, G: Fn(String, Vec<Value>, StackFrame) -> (StackFrame, Result<Value, Error>)>(
    h: Host<N, G>,
    operand: NodeM,
    start: Option<Box<NodeM>>,
    end: Option<Box<NodeM>>,
    position: Position,
    st: Seq<FrameM>,
    allow_thunk: bool,
    fuel: nat,
    t: TypeM,
    vals: Seq<ValueM>,
    t2: TypeM,
    piece: Seq<ValueM>,
)
    requires
        gives(eval(h, operand, st, false, fuel).res, ValueM::Array(t, vals)),
        gives(
            eval(
                h,
                NodeM::SlicingOp { operand: Box::new(operand), start_inclusive: start, end_exclusive: end, position },
                st,
                allow_thunk,
                fuel,
            ).res,
            ValueM::Array(t2, piece),
        ),
    ensures
        t2 == t,
        exists|i: int, j: int| 0 <= i <= j <= vals.len() && piece == vals.subrange(i, j),
{
    let o = eval(h, operand, st, false, fuel);
    match (start, end) {
        (Some(x), None) => {
            let n = crate::semantics::to_number(h, *x, o.stack, fuel);
            if let Ok(num) = n.0 {
                if let Ok(k) = crate::semantics::to_usize(h, num, crate::node::node_position(n.1)) {
                    assert(piece == vals.subrange(k as int, vals.len() as int));
                }
            }
        },
        (None, Some(x)) => {
            let n = crate::semantics::to_number(h, *x, o.stack, fuel);
            if let Ok(num) = n.0 {
                if let Ok(k) = crate::semantics::to_usize(h, num, crate::node::node_position(n.1)) {
                    assert(piece == vals.subrange(0, k as int));
                }
            }
        },
        (Some(x), Some(y)) => {
            let ny = crate::semantics::to_number(h, *y, o.stack, fuel);
            if let Ok(numy) = ny.0 {
                if let Ok(ky) = crate::semantics::to_usize(h, numy, crate::node::node_position(ny.1)) {
                    let nx = crate::semantics::to_number(h, *x, ny.2, fuel);
                    if let Ok(numx) = nx.0 {
                        if let Ok(kx) = crate::semantics::to_usize(h, numx, crate::node::node_position(nx.1)) {
                            assert(piece == vals.subrange(kx as int, ky as int));
                        }
                    }
                }
            }
        },
        (None, None) => {},
    }
}

/// With `allow_thunk`, a call of a function of the language is put off:
/// it leaves the stack as it was and gives the put-off call of that function.
pub proof fn law_put_off_call<N: Fn(NumOp) -> NumOut, G: Fn(String, Vec<Value>, StackFrame) -> (StackFrame, Result<Value, Error>)>(
    h: Host<N, G>,
    st: Seq<FrameM>,
    defn: NodeM,
    args: Seq<ValueM>,
    fuel: nat,
)
    requires
        defn is FunctionLiteral,
    ensures
        eval_call(h, st, ValueM::Function(defn), true, args, fuel).stack == st,
        eval_call(h, st, ValueM::Function(defn), true, args, fuel).res matches Ok(v) ==> (v matches ValueM::Thunk { func, .. } && func == defn),
{
}

/// Values are equal only where both are numbers, both truth values, both
/// strings or both empty; for all but numbers, equality does not depend on
/// the order of the two.
pub proof fn law_equality_within_kinds<N: Fn(NumOp) -> NumOut>(n: N, a: ValueM, b: ValueM)
    ensures
        values_equal(n, a, b) ==> (a is Number && b is Number) || (a is Bool && b is Bool) || (a is Str
            && b is Str) || (a is Empty && b is Empty),
        !(a is Number) ==> values_equal(n, a, b) == values_equal(n, b, a),
{
}

/// The names that the catalog gives the base types, and `()`, are five
/// different texts.
pub open spec fn base_names_distinct(cat: Catalog) -> bool {
    let names = seq![
        cat.text("types.number"@),
        cat.text("types.bool"@),
        cat.text("types.string"@),
        cat.text("types.function"@),
        "()"@,
    ];
    forall|i: int, j: int| 0 <= i < j < 5 ==> #[trigger] names[i] != #[trigger] names[j]
}

/// Reading back the name of a base type gives the type, where the base
/// names are all different.
pub proof fn law_base_type_name_round_trip(cat: Catalog, t: TypeM)
    requires
        base_names_distinct(cat),
        t is Number || t is Bool || t is Str || t is Function || t is Empty,
    ensures
        type_of_name(cat, type_text(cat, t)) == t,
{
    let names = seq![
        cat.text("types.number"@),
        cat.text("types.bool"@),
        cat.text("types.string"@),
        cat.text("types.function"@),
        "()"@,
    ];
    assert(names[0] != names[1] && names[0] != names[2] && names[0] != names[3] && names[0] != names[4]);
    assert(names[1] != names[2] && names[1] != names[3] && names[1] != names[4]);
    assert(names[2] != names[3] && names[2] != names[4]);
    assert(names[3] != names[4]);
}

/// The order of strings that `<` and `>` use is irreflexive.
pub proof fn law_text_order_irreflexive(a: Seq<char>)
    ensures
        !text_less(a, a),
    decreases a.len(),
{
    if a.len() > 0 {
        law_text_order_irreflexive(a.drop_first());
    }
}

/// The order of strings that `<` and `>` use is asymmetric.
pub proof fn law_text_order_asymmetric(a: Seq<char>, b: Seq<char>)
    ensures
        text_less(a, b) ==> !text_less(b, a),
    decreases a.len(),
{
    if a.len() > 0 && b.len() > 0 && a[0] == b[0] {
        law_text_order_asymmetric(a.drop_first(), b.drop_first());
    }
}

/// The order of strings that `<` and `>` use is transitive.
pub proof fn law_text_order_transitive(a: Seq<char>, b: Seq<char>, c: Seq<char>)
    ensures
        text_less(a, b) && text_less(b, c) ==> text_less(a, c),
    decreases a.len(),
{
    if a.len() > 0 && b.len() > 0 && c.len() > 0 {
        if a[0] == b[0] && b[0] == c[0] {
            law_text_order_transitive(a.drop_first(), b.drop_first(), c.drop_first());
        }
    }
}

/// Of two different strings, one comes before the other.
pub proof fn law_text_order_total(a: Seq<char>, b: Seq<char>)
    ensures
        a != b ==> text_less(a, b) || text_less(b, a),
    decreases a.len(),
{
    if a.len() > 0 && b.len() > 0 {
        if a[0] == b[0] {
            law_text_order_total(a.drop_first(), b.drop_first());
            if a.drop_first() == b.drop_first() {
                assert(a =~= seq![a[0]] + a.drop_first());
                assert(b =~= seq![b[0]] + b.drop_first());
            }
        }
    } else if a.len() == 0 && b.len() == 0 {
        assert(a =~= b);
    }
}

} // verus!

verus! {

/// A direct call of a function of the language runs the call that `allow_thunk`
/// would put off: it leaves the stack that running the put-off call leaves,
/// fails as that run fails, and otherwise gives its value where the function's
/// return type is a name (an assertion error where it is not).
pub proof fn law_direct_call_runs_put_off_call<N: Fn(NumOp) -> NumOut, G: Fn(String, Vec<Value>, StackFrame) -> (StackFrame, Result<Value, Error>)>(
    h: Host<N, G>,
    st: Seq<FrameM>,
    defn: NodeM,
    args: Seq<ValueM>,
    fuel: nat,
    vt: Seq<(Seq<char>, ValueM)>,
)
    requires
        defn is FunctionLiteral,
        gives(eval_call(h, st, ValueM::Function(defn), true, args, fuel).res, ValueM::Thunk { vt, func: defn }),
    ensures
        eval_call(h, st, ValueM::Function(defn), false, args, fuel).stack == crate::semantics::unwrap_thunk(h, st, vt, defn, 0, fuel).stack,
        crate::semantics::unwrap_thunk(h, st, vt, defn, 0, fuel).res is Err ==> eval_call(h, st, ValueM::Function(defn), false, args, fuel).res
            == crate::semantics::unwrap_thunk(h, st, vt, defn, 0, fuel).res,
        crate::semantics::unwrap_thunk(h, st, vt, defn, 0, fuel).res matches Ok(v) ==> {
            &&& *defn->FunctionLiteral_sign.2 is Identifier ==> gives(eval_call(h, st, ValueM::Function(defn), false, args, fuel).res, v)
            &&& !(*defn->FunctionLiteral_sign.2 is Identifier) ==> (eval_call(h, st, ValueM::Function(defn), false, args, fuel).res matches Err(
                crate::semantics::Fail::Error(e),
            ) && e.reason == crate::error::ErrorReason::Assert)
        },
{
}

/// Equality of values is symmetric where the host's equality of numbers is.
pub proof fn law_equality_symmetric<N: Fn(NumOp) -> NumOut>(n: N, a: ValueM, b: ValueM)
    requires
        forall|x: u64, y: u64| crate::host::truth_of(n, NumOp::Equal(x, y)) == #[trigger] crate::host::truth_of(n, NumOp::Equal(y, x)),
    ensures
        values_equal(n, a, b) == values_equal(n, b, a),
{
    if let (ValueM::Number(x), ValueM::Number(y)) = (a, b) {
        assert(crate::host::truth_of(n, NumOp::Equal(y, x)) == crate::host::truth_of(n, NumOp::Equal(x, y)));
    }
}

} // verus!
