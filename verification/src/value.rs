//! Speak values: numbers, truth values, strings, objects, arrays and
//! functions.
use crate::node::{copy_node, Node, NodeM};
use crate::types::{Type, TypeM};
use vstd::prelude::*;

verus! {

/// A function defined in a Speak program.
#[derive(Debug)]
pub struct Function {
    /// The defining node, a `FunctionLiteral`.
    pub defn: Node,
}

/// A function that the host implements, known by its name.
#[derive(Debug)]
pub struct NativeFn(pub String);

/// The variables of one frame, by name.
#[derive(Debug)]
pub struct VTable(pub Vec<(String, Value)>);

/// A value of a Speak program. Numbers are held as the bits of an `f64`.
#[derive(Debug)]
pub enum Value {
    Number(u64),
    Bool(bool),
    String(String),
    /// A composite value: an object with named fields, each with its type.
    Object { name: String, body: Vec<(String, (Type, Value))> },
    Array(Type, Vec<Value>),
    /// A function defined in a Speak program.
    Function(Function),
    /// A function that the host implements.
    NativeFunction(NativeFn),
    /// A call of a function whose evaluation has been put off: the
    /// arguments bound to the parameters, and the function.
    FunctionCallThunk { vt: VTable, func: Function },
    /// The value that an assignment put on the stack.
    Assignment(Box<Value>),
    Empty,
}

/// The model of a [`Value`]; a function is modelled by its defining node.
pub enum ValueM {
    Number(u64),
    Bool(bool),
    Str(Seq<char>),
    Object { name: Seq<char>, body: Seq<(Seq<char>, (TypeM, ValueM))> },
    Array(TypeM, Seq<ValueM>),
    Function(NodeM),
    NativeFunction(Seq<char>),
    Thunk { vt: Seq<(Seq<char>, ValueM)>, func: NodeM },
    Assignment(Box<ValueM>),
    Empty,
}

/// The model of a value.
pub open spec fn value_model(v: Value) -> ValueM
    decreases v,
{
    match v {
        Value::Number(b) => ValueM::Number(b),
        Value::Bool(b) => ValueM::Bool(b),
        Value::String(s) => ValueM::Str(s@),
        Value::Object { name, body } => ValueM::Object { name: name@, body: body_model(body@) },
        Value::Array(t, vs) => ValueM::Array(t@, values_model(vs@)),
        Value::Function(f) => ValueM::Function(f.defn@),
        Value::NativeFunction(n) => ValueM::NativeFunction(n.0@),
        Value::FunctionCallThunk { vt, func } => ValueM::Thunk {
            vt: entries_model(vt.0@),
            func: func.defn@,
        },
        Value::Assignment(b) => ValueM::Assignment(Box::new(value_model(*b))),
        Value::Empty => ValueM::Empty,
    }
}

/// The models of a sequence of values.
pub open spec fn values_model(s: Seq<Value>) -> Seq<ValueM>
    decreases s,
{
    if s.len() == 0 {
        Seq::empty()
    } else {
        values_model(s.drop_last()).push(value_model(s.last()))
    }
}

/// The model of the body of an object.
pub open spec fn body_model(s: Seq<(String, (Type, Value))>) -> Seq<(Seq<char>, (TypeM, ValueM))>
    decreases s,
{
    if s.len() == 0 {
        Seq::empty()
    } else {
        body_model(s.drop_last()).push((s.last().0@, (s.last().1.0@, value_model(s.last().1.1))))
    }
}

/// The model of the variables of a frame.
pub open spec fn entries_model(s: Seq<(String, Value)>) -> Seq<(Seq<char>, ValueM)>
    decreases s,
{
    if s.len() == 0 {
        Seq::empty()
    } else {
        entries_model(s.drop_last()).push((s.last().0@, value_model(s.last().1)))
    }
}

impl View for Value {
    type V = ValueM;

    open spec fn view(&self) -> ValueM {
        value_model(*self)
    }
}

impl View for VTable {
    type V = Seq<(Seq<char>, ValueM)>;

    open spec fn view(&self) -> Seq<(Seq<char>, ValueM)> {
        entries_model(self.0@)
    }
}

/// `values_model` of a sequence with one more value.
pub proof fn lemma_values_push(s: Seq<Value>, x: Value)
    ensures
        values_model(s.push(x)) == values_model(s).push(value_model(x)),
{
    assert(s.push(x).drop_last() =~= s);
}

/// `values_model` keeps the length and maps each value to its model.
pub proof fn lemma_values_index(s: Seq<Value>)
    ensures
        values_model(s).len() == s.len(),
        forall|i: int| 0 <= i < s.len() ==> #[trigger] values_model(s)[i] == value_model(s[i]),
    decreases s.len(),
{
    if s.len() > 0 {
        lemma_values_index(s.drop_last());
    }
}

/// `values_model` of a prefix is the prefix of the models.
pub proof fn lemma_values_take(s: Seq<Value>, n: int)
    requires
        0 <= n <= s.len(),
    ensures
        values_model(s.take(n)) == values_model(s).take(n),
{
    lemma_values_index(s);
    lemma_values_index(s.take(n));
    assert(values_model(s.take(n)) =~= values_model(s).take(n));
}

/// `values_model` of a suffix is the suffix of the models.
pub proof fn lemma_values_skip(s: Seq<Value>, n: int)
    requires
        0 <= n <= s.len(),
    ensures
        values_model(s.skip(n)) == values_model(s).skip(n),
{
    lemma_values_index(s);
    lemma_values_index(s.skip(n));
    assert(values_model(s.skip(n)) =~= values_model(s).skip(n));
}

/// `values_model` of two sequences put together.
pub proof fn lemma_values_add(s: Seq<Value>, t: Seq<Value>)
    ensures
        values_model(s + t) == values_model(s) + values_model(t),
{
    lemma_values_index(s);
    lemma_values_index(t);
    lemma_values_index(s + t);
    assert(values_model(s + t) =~= values_model(s) + values_model(t));
}

/// `body_model` of a sequence with one more field.
pub proof fn lemma_body_push(s: Seq<(String, (Type, Value))>, x: (String, (Type, Value)))
    ensures
        body_model(s.push(x)) == body_model(s).push((x.0@, (x.1.0@, value_model(x.1.1)))),
{
    assert(s.push(x).drop_last() =~= s);
}

/// `body_model` keeps the length and maps each field to its model.
pub proof fn lemma_body_index(s: Seq<(String, (Type, Value))>)
    ensures
        body_model(s).len() == s.len(),
        forall|i: int|
            0 <= i < s.len() ==> #[trigger] body_model(s)[i] == (
                s[i].0@,
                (s[i].1.0@, value_model(s[i].1.1)),
            ),
    decreases s.len(),
{
    if s.len() > 0 {
        lemma_body_index(s.drop_last());
    }
}

/// `entries_model` of a sequence with one more variable.
pub proof fn lemma_entries_push(s: Seq<(String, Value)>, x: (String, Value))
    ensures
        entries_model(s.push(x)) == entries_model(s).push((x.0@, value_model(x.1))),
{
    assert(s.push(x).drop_last() =~= s);
}

/// `entries_model` keeps the length and maps each variable to its model.
pub proof fn lemma_entries_index(s: Seq<(String, Value)>)
    ensures
        entries_model(s).len() == s.len(),
        forall|i: int|
            0 <= i < s.len() ==> #[trigger] entries_model(s)[i] == (s[i].0@, value_model(s[i].1)),
    decreases s.len(),
{
    if s.len() > 0 {
        lemma_entries_index(s.drop_last());
    }
}

/// A copy of a value.
pub fn copy_value(v: &Value) -> (r: Value)
    ensures
        r@ == v@,
    decreases v,
{
    match v {
        Value::Number(b) => Value::Number(*b),
        Value::Bool(b) => Value::Bool(*b),
        Value::String(s) => Value::String(s.clone()),
        Value::Object { name, body } => Value::Object { name: name.clone(), body: copy_body(body) },
        Value::Array(t, vs) => Value::Array(t.clone(), copy_values(vs)),
        Value::Function(f) => Value::Function(Function { defn: copy_node(&f.defn) }),
        Value::NativeFunction(n) => Value::NativeFunction(NativeFn(n.0.clone())),
        Value::FunctionCallThunk { vt, func } => Value::FunctionCallThunk {
            vt: VTable(copy_entries(&vt.0)),
            func: Function { defn: copy_node(&func.defn) },
        },
        Value::Assignment(b) => Value::Assignment(Box::new(copy_value(b))),
        Value::Empty => Value::Empty,
    }
}

/// A copy of a list of values.
pub fn copy_values(v: &Vec<Value>) -> (r: Vec<Value>)
    ensures
        values_model(r@) == values_model(v@),
    decreases v,
{
    let mut r: Vec<Value> = Vec::new();
    let mut i: usize = 0;
    while i < v.len()
        invariant
            i <= v.len(),
            values_model(r@) == values_model(v@.take(i as int)),
        decreases v.len() - i,
    {
        let x = copy_value(&v[i]);
        proof {
            lemma_values_push(r@, x);
            lemma_values_push(v@.take(i as int), v@[i as int]);
            assert(v@.take(i as int).push(v@[i as int]) =~= v@.take(i + 1));
        }
        r.push(x);
        i = i + 1;
    }
    assert(v@.take(v@.len() as int) =~= v@);
    r
}

/// A copy of the body of an object.
pub fn copy_body(v: &Vec<(String, (Type, Value))>) -> (r: Vec<(String, (Type, Value))>)
    ensures
        body_model(r@) == body_model(v@),
    decreases v,
{
    let mut r: Vec<(String, (Type, Value))> = Vec::new();
    let mut i: usize = 0;
    while i < v.len()
        invariant
            i <= v.len(),
            body_model(r@) == body_model(v@.take(i as int)),
        decreases v.len() - i,
    {
        let x = (v[i].0.clone(), (v[i].1.0.clone(), copy_value(&v[i].1.1)));
        proof {
            lemma_body_push(r@, x);
            lemma_body_push(v@.take(i as int), v@[i as int]);
            assert(v@.take(i as int).push(v@[i as int]) =~= v@.take(i + 1));
        }
        r.push(x);
        i = i + 1;
    }
    assert(v@.take(v@.len() as int) =~= v@);
    r
}

/// A copy of the variables of a frame.
pub fn copy_entries(v: &Vec<(String, Value)>) -> (r: Vec<(String, Value)>)
    ensures
        entries_model(r@) == entries_model(v@),
    decreases v,
{
    let mut r: Vec<(String, Value)> = Vec::new();
    let mut i: usize = 0;
    while i < v.len()
        invariant
            i <= v.len(),
            entries_model(r@) == entries_model(v@.take(i as int)),
        decreases v.len() - i,
    {
        let x = (v[i].0.clone(), copy_value(&v[i].1));
        proof {
            lemma_entries_push(r@, x);
            lemma_entries_push(v@.take(i as int), v@[i as int]);
            assert(v@.take(i as int).push(v@[i as int]) =~= v@.take(i + 1));
        }
        r.push(x);
        i = i + 1;
    }
    assert(v@.take(v@.len() as int) =~= v@);
    r
}

impl Clone for Value {
    fn clone(&self) -> (r: Value)
        ensures
            r@ == self@,
    {
        copy_value(self)
    }
}

impl Clone for Function {
    fn clone(&self) -> (r: Function)
        ensures
            r.defn@ == self.defn@,
    {
        Function { defn: copy_node(&self.defn) }
    }
}

impl Clone for VTable {
    fn clone(&self) -> (r: VTable)
        ensures
            r@ == self@,
    {
        VTable(copy_entries(&self.0))
    }
}

/// The type of a value; an assignment has the type of the value assigned.
pub open spec fn type_of_value(v: ValueM) -> TypeM
    decreases v,
{
    match v {
        ValueM::Number(_) => TypeM::Number,
        ValueM::Bool(_) => TypeM::Bool,
        ValueM::Str(_) => TypeM::Str,
        ValueM::Object { name, .. } => TypeM::Object(name),
        ValueM::Array(t, _) => TypeM::Array(Box::new(t)),
        ValueM::Function(_) | ValueM::Thunk { .. } | ValueM::NativeFunction(_) => TypeM::Function,
        ValueM::Empty => TypeM::Empty,
        ValueM::Assignment(b) => type_of_value(*b),
    }
}

impl Value {
    /// The type of the value.
    pub fn value_type(&self) -> (t: Type)
        ensures
            t@ == type_of_value(self@),
        decreases self,
    {
        match self {
            Value::Number(_) => Type::Number,
            Value::Bool(_) => Type::Bool,
            Value::String(_) => Type::String,
            Value::Object { name, .. } => Type::Object(name.clone()),
            Value::Array(t, ..) => Type::Array(Box::new(t.clone())),
            Value::Function { .. } | Value::FunctionCallThunk { .. } | Value::NativeFunction(
                ..,
            ) => Type::Function,
            Value::Empty => Type::Empty,
            Value::Assignment(val) => val.value_type(),
        }
    }
}

} // verus!

verus! {

/// Whether two values are equal: numbers as the host compares them, truth
/// values and strings by content, and two empty values; values of other
/// kinds are never equal.
pub open spec fn values_equal<N: Fn(crate::host::NumOp) -> crate::host::NumOut>(
    n: N,
    a: ValueM,
    b: ValueM,
) -> bool {
    match (a, b) {
        (ValueM::Number(x), ValueM::Number(y)) => crate::host::truth_of(
            n,
            crate::host::NumOp::Equal(x, y),
        ),
        (ValueM::Bool(x), ValueM::Bool(y)) => x == y,
        (ValueM::Str(x), ValueM::Str(y)) => x == y,
        (ValueM::Empty, ValueM::Empty) => true,
        _ => false,
    }
}

impl Value {
    /// Whether the value equals `value`.
    pub fn equals<N: Fn(crate::host::NumOp) -> crate::host::NumOut, G: Fn(String, Vec<Value>, crate::stack::StackFrame) -> (crate::stack::StackFrame, Result<Value, crate::error::Error>)>(
        &self,
        value: Value,
        host: &crate::host::Host<N, G>,
    ) -> (r: bool)
        requires
            crate::host::num_ok(host.num),
        ensures
            r == values_equal(host.num, self@, value@),
    {
        match (self, value) {
            (Value::Number(a), Value::Number(b)) => host.truth(crate::host::NumOp::Equal(*a, b)),
            (Value::Bool(a), Value::Bool(b)) => *a == b,
            (Value::String(a), Value::String(b)) => *a == b,
            (Value::Empty, Value::Empty) => true,
            _ => false,
        }
    }
}

} // verus!
