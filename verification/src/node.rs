//! Parsed Speak expressions: source positions, operator kinds and nodes.
use vstd::prelude::*;

verus! {

/// A place in the source text.
#[derive(Debug, Clone, Copy, PartialEq, Eq, Structural)]
pub struct Position {
    pub line: usize,
    pub column: usize,
}

/// The kind of an operator token.
#[derive(Debug, Clone, Copy, PartialEq, Eq, Structural)]
pub enum Kind {
    NegationOp,
    AssignOp,
    AccessorOp,
    AddOp,
    SubtractOp,
    MultiplyOp,
    DivideOp,
    ModulusOp,
    LogicalAndOp,
    LogicalOrOp,
    GreaterThanOp,
    LessThanOp,
    EqualOp,
    FunctionArrow,
    Separator,
}

/// A node of the syntax tree. Number literals hold the IEEE-754 bits of
/// their `f64` value.
#[derive(Debug)]
#[allow(inconsistent_fields)]
pub enum Node {
    NumberLiteral { value: u64, position: Position },
    StringLiteral { value: String, position: Position },
    BoolLiteral { value: bool, position: Position },
    ArrayLiteral { value: Vec<Node>, position: Position },
    ObjectLiteral { name: String, value: Vec<(String, Node)>, position: Position },
    EmptyLiteral(Position),
    EmptyIdentifier { position: Position },
    Identifier { value: String, position: Position },
    UnaryExpression { operator: Kind, operand: Box<Node>, position: Position },
    BinaryExpression {
        operator: Kind,
        left_operand: Box<Node>,
        right_operand: Box<Node>,
        position: Position,
    },
    IndexingOp { operand: Box<Node>, index: Box<Node>, position: Position },
    SlicingOp {
        operand: Box<Node>,
        start_inclusive: Option<Box<Node>>,
        end_exclusive: Option<Box<Node>>,
        position: Position,
    },
    FunctionCall { function: Box<Node>, arguments: Vec<Node>, position: Position },
    /// `sign` holds the function's name, its parameters (each a name and a
    /// type) and its return type.
    FunctionLiteral {
        sign: (Box<Node>, Vec<(Node, Node)>, Box<Node>),
        body: Vec<Node>,
        position: Position,
    },
    IfExpr {
        condition: Box<Node>,
        on_true: Option<Box<Node>>,
        on_false: Option<Box<Node>>,
        position: Position,
    },
}

/// The mathematical model of a [`Node`].
#[allow(inconsistent_fields)]
pub enum NodeM {
    NumberLiteral { value: u64, position: Position },
    StringLiteral { value: Seq<char>, position: Position },
    BoolLiteral { value: bool, position: Position },
    ArrayLiteral { value: Seq<NodeM>, position: Position },
    ObjectLiteral { name: Seq<char>, value: Seq<(Seq<char>, NodeM)>, position: Position },
    EmptyLiteral(Position),
    EmptyIdentifier { position: Position },
    Identifier { value: Seq<char>, position: Position },
    UnaryExpression { operator: Kind, operand: Box<NodeM>, position: Position },
    BinaryExpression {
        operator: Kind,
        left_operand: Box<NodeM>,
        right_operand: Box<NodeM>,
        position: Position,
    },
    IndexingOp { operand: Box<NodeM>, index: Box<NodeM>, position: Position },
    SlicingOp {
        operand: Box<NodeM>,
        start_inclusive: Option<Box<NodeM>>,
        end_exclusive: Option<Box<NodeM>>,
        position: Position,
    },
    FunctionCall { function: Box<NodeM>, arguments: Seq<NodeM>, position: Position },
    FunctionLiteral {
        sign: (Box<NodeM>, Seq<(NodeM, NodeM)>, Box<NodeM>),
        body: Seq<NodeM>,
        position: Position,
    },
    IfExpr {
        condition: Box<NodeM>,
        on_true: Option<Box<NodeM>>,
        on_false: Option<Box<NodeM>>,
        position: Position,
    },
}

/// The model of a node.
pub open spec fn node_model(n: Node) -> NodeM
    decreases n,
{
    match n {
        Node::NumberLiteral { value, position } => NodeM::NumberLiteral { value, position },
        Node::StringLiteral { value, position } => NodeM::StringLiteral { value: value@, position },
        Node::BoolLiteral { value, position } => NodeM::BoolLiteral { value, position },
        Node::ArrayLiteral { value, position } => NodeM::ArrayLiteral {
            value: nodes_model(value@),
            position,
        },
        Node::ObjectLiteral { name, value, position } => NodeM::ObjectLiteral {
            name: name@,
            value: fields_model(value@),
            position,
        },
        Node::EmptyLiteral(p) => NodeM::EmptyLiteral(p),
        Node::EmptyIdentifier { position } => NodeM::EmptyIdentifier { position },
        Node::Identifier { value, position } => NodeM::Identifier { value: value@, position },
        Node::UnaryExpression { operator, operand, position } => NodeM::UnaryExpression {
            operator,
            operand: Box::new(node_model(*operand)),
            position,
        },
        Node::BinaryExpression { operator, left_operand, right_operand, position } =>
            NodeM::BinaryExpression {
            operator,
            left_operand: Box::new(node_model(*left_operand)),
            right_operand: Box::new(node_model(*right_operand)),
            position,
        },
        Node::IndexingOp { operand, index, position } => NodeM::IndexingOp {
            operand: Box::new(node_model(*operand)),
            index: Box::new(node_model(*index)),
            position,
        },
        Node::SlicingOp { operand, start_inclusive, end_exclusive, position } => NodeM::SlicingOp {
            operand: Box::new(node_model(*operand)),
            start_inclusive: opt_node_model(start_inclusive),
            end_exclusive: opt_node_model(end_exclusive),
            position,
        },
        Node::FunctionCall { function, arguments, position } => NodeM::FunctionCall {
            function: Box::new(node_model(*function)),
            arguments: nodes_model(arguments@),
            position,
        },
        Node::FunctionLiteral { sign, body, position } => NodeM::FunctionLiteral {
            sign: (
                Box::new(node_model(*sign.0)),
                params_model(sign.1@),
                Box::new(node_model(*sign.2)),
            ),
            body: nodes_model(body@),
            position,
        },
        Node::IfExpr { condition, on_true, on_false, position } => NodeM::IfExpr {
            condition: Box::new(node_model(*condition)),
            on_true: opt_node_model(on_true),
            on_false: opt_node_model(on_false),
            position,
        },
    }
}

/// The model of an optional node.
pub open spec fn opt_node_model(o: Option<Box<Node>>) -> Option<Box<NodeM>>
    decreases o,
{
    match o {
        Some(b) => Some(Box::new(node_model(*b))),
        None => None,
    }
}

/// The models of a sequence of nodes.
pub open spec fn nodes_model(s: Seq<Node>) -> Seq<NodeM>
    decreases s,
{
    if s.len() == 0 {
        Seq::empty()
    } else {
        nodes_model(s.drop_last()).push(node_model(s.last()))
    }
}

/// The models of the fields of an object literal.
pub open spec fn fields_model(s: Seq<(String, Node)>) -> Seq<(Seq<char>, NodeM)>
    decreases s,
{
    if s.len() == 0 {
        Seq::empty()
    } else {
        fields_model(s.drop_last()).push((s.last().0@, node_model(s.last().1)))
    }
}

/// The models of the parameters of a function literal.
pub open spec fn params_model(s: Seq<(Node, Node)>) -> Seq<(NodeM, NodeM)>
    decreases s,
{
    if s.len() == 0 {
        Seq::empty()
    } else {
        params_model(s.drop_last()).push((node_model(s.last().0), node_model(s.last().1)))
    }
}

impl View for Node {
    type V = NodeM;

    open spec fn view(&self) -> NodeM {
        node_model(*self)
    }
}

} // verus!

verus! {

/// `nodes_model` of a sequence with one more node.
pub proof fn lemma_nodes_push(s: Seq<Node>, x: Node)
    ensures
        nodes_model(s.push(x)) == nodes_model(s).push(node_model(x)),
{
    assert(s.push(x).drop_last() =~= s);
}

/// `nodes_model` keeps the length and maps each node to its model.
pub proof fn lemma_nodes_index(s: Seq<Node>)
    ensures
        nodes_model(s).len() == s.len(),
        forall|i: int| 0 <= i < s.len() ==> #[trigger] nodes_model(s)[i] == node_model(s[i]),
    decreases s.len(),
{
    if s.len() > 0 {
        lemma_nodes_index(s.drop_last());
    }
}

/// `fields_model` of a sequence with one more field.
pub proof fn lemma_fields_push(s: Seq<(String, Node)>, x: (String, Node))
    ensures
        fields_model(s.push(x)) == fields_model(s).push((x.0@, node_model(x.1))),
{
    assert(s.push(x).drop_last() =~= s);
}

/// `fields_model` keeps the length and maps each field to its model.
pub proof fn lemma_fields_index(s: Seq<(String, Node)>)
    ensures
        fields_model(s).len() == s.len(),
        forall|i: int|
            0 <= i < s.len() ==> #[trigger] fields_model(s)[i] == (s[i].0@, node_model(s[i].1)),
    decreases s.len(),
{
    if s.len() > 0 {
        lemma_fields_index(s.drop_last());
    }
}

/// `params_model` of a sequence with one more parameter.
pub proof fn lemma_params_push(s: Seq<(Node, Node)>, x: (Node, Node))
    ensures
        params_model(s.push(x)) == params_model(s).push((node_model(x.0), node_model(x.1))),
{
    assert(s.push(x).drop_last() =~= s);
}

/// `params_model` keeps the length and maps each parameter to its model.
pub proof fn lemma_params_index(s: Seq<(Node, Node)>)
    ensures
        params_model(s).len() == s.len(),
        forall|i: int|
            0 <= i < s.len() ==> #[trigger] params_model(s)[i] == (
                node_model(s[i].0),
                node_model(s[i].1),
            ),
    decreases s.len(),
{
    if s.len() > 0 {
        lemma_params_index(s.drop_last());
    }
}

/// A copy of a node.
pub fn copy_node(n: &Node) -> (r: Node)
    ensures
        r@ == n@,
    decreases n,
{
    match n {
        Node::NumberLiteral { value, position } => Node::NumberLiteral {
            value: *value,
            position: *position,
        },
        Node::StringLiteral { value, position } => Node::StringLiteral {
            value: value.clone(),
            position: *position,
        },
        Node::BoolLiteral { value, position } => Node::BoolLiteral {
            value: *value,
            position: *position,
        },
        Node::ArrayLiteral { value, position } => Node::ArrayLiteral {
            value: copy_nodes(value),
            position: *position,
        },
        Node::ObjectLiteral { name, value, position } => Node::ObjectLiteral {
            name: name.clone(),
            value: copy_fields(value),
            position: *position,
        },
        Node::EmptyLiteral(p) => Node::EmptyLiteral(*p),
        Node::EmptyIdentifier { position } => Node::EmptyIdentifier { position: *position },
        Node::Identifier { value, position } => Node::Identifier {
            value: value.clone(),
            position: *position,
        },
        Node::UnaryExpression { operator, operand, position } => Node::UnaryExpression {
            operator: *operator,
            operand: Box::new(copy_node(operand)),
            position: *position,
        },
        Node::BinaryExpression { operator, left_operand, right_operand, position } => {
            let l = copy_node(left_operand);
            let r = copy_node(right_operand);
            Node::BinaryExpression {
                operator: *operator,
                left_operand: Box::new(l),
                right_operand: Box::new(r),
                position: *position,
            }
        },
        Node::IndexingOp { operand, index, position } => {
            let o = copy_node(operand);
            let i = copy_node(index);
            Node::IndexingOp { operand: Box::new(o), index: Box::new(i), position: *position }
        },
        Node::SlicingOp { operand, start_inclusive, end_exclusive, position } => {
            let o = copy_node(operand);
            let s = copy_opt(start_inclusive);
            let e = copy_opt(end_exclusive);
            Node::SlicingOp {
                operand: Box::new(o),
                start_inclusive: s,
                end_exclusive: e,
                position: *position,
            }
        },
        Node::FunctionCall { function, arguments, position } => {
            let f = copy_node(function);
            let a = copy_nodes(arguments);
            Node::FunctionCall { function: Box::new(f), arguments: a, position: *position }
        },
        Node::FunctionLiteral { sign, body, position } => {
            let s0 = copy_node(&sign.0);
            let s1 = copy_params(&sign.1);
            let s2 = copy_node(&sign.2);
            let b = copy_nodes(body);
            Node::FunctionLiteral {
                sign: (Box::new(s0), s1, Box::new(s2)),
                body: b,
                position: *position,
            }
        },
        Node::IfExpr { condition, on_true, on_false, position } => {
            let c = copy_node(condition);
            let t = copy_opt(on_true);
            let f = copy_opt(on_false);
            Node::IfExpr {
                condition: Box::new(c),
                on_true: t,
                on_false: f,
                position: *position,
            }
        },
    }
}

/// A copy of an optional node.
pub fn copy_opt(o: &Option<Box<Node>>) -> (r: Option<Box<Node>>)
    ensures
        opt_node_model(r) == opt_node_model(*o),
    decreases o,
{
    match o {
        Some(b) => Some(Box::new(copy_node(b))),
        None => None,
    }
}

/// A copy of a list of nodes.
pub fn copy_nodes(v: &Vec<Node>) -> (r: Vec<Node>)
    ensures
        nodes_model(r@) == nodes_model(v@),
    decreases v,
{
    let mut r: Vec<Node> = Vec::new();
    let mut i: usize = 0;
    while i < v.len()
        invariant
            i <= v.len(),
            nodes_model(r@) == nodes_model(v@.take(i as int)),
        decreases v.len() - i,
    {
        let x = copy_node(&v[i]);
        proof {
            lemma_nodes_push(r@, x);
            lemma_nodes_push(v@.take(i as int), v@[i as int]);
            assert(v@.take(i as int).push(v@[i as int]) =~= v@.take(i + 1));
        }
        r.push(x);
        i = i + 1;
    }
    assert(v@.take(v@.len() as int) =~= v@);
    r
}

/// A copy of the fields of an object literal.
pub fn copy_fields(v: &Vec<(String, Node)>) -> (r: Vec<(String, Node)>)
    ensures
        fields_model(r@) == fields_model(v@),
    decreases v,
{
    let mut r: Vec<(String, Node)> = Vec::new();
    let mut i: usize = 0;
    while i < v.len()
        invariant
            i <= v.len(),
            fields_model(r@) == fields_model(v@.take(i as int)),
        decreases v.len() - i,
    {
        let x = (v[i].0.clone(), copy_node(&v[i].1));
        proof {
            lemma_fields_push(r@, x);
            lemma_fields_push(v@.take(i as int), v@[i as int]);
            assert(v@.take(i as int).push(v@[i as int]) =~= v@.take(i + 1));
        }
        r.push(x);
        i = i + 1;
    }
    assert(v@.take(v@.len() as int) =~= v@);
    r
}

/// A copy of the parameters of a function literal.
pub fn copy_params(v: &Vec<(Node, Node)>) -> (r: Vec<(Node, Node)>)
    ensures
        params_model(r@) == params_model(v@),
    decreases v,
{
    let mut r: Vec<(Node, Node)> = Vec::new();
    let mut i: usize = 0;
    while i < v.len()
        invariant
            i <= v.len(),
            params_model(r@) == params_model(v@.take(i as int)),
        decreases v.len() - i,
    {
        let x = (copy_node(&v[i].0), copy_node(&v[i].1));
        proof {
            lemma_params_push(r@, x);
            lemma_params_push(v@.take(i as int), v@[i as int]);
            assert(v@.take(i as int).push(v@[i as int]) =~= v@.take(i + 1));
        }
        r.push(x);
        i = i + 1;
    }
    assert(v@.take(v@.len() as int) =~= v@);
    r
}

impl Clone for Node {
    fn clone(&self) -> (r: Node)
        ensures
            r@ == self@,
    {
        copy_node(self)
    }
}

impl Node {
    /// The position of the node in the source.
    pub fn position(&self) -> (p: Position)
        ensures
            p == node_position(self@),
    {
        match self {
            Node::NumberLiteral { position, .. } => *position,
            Node::StringLiteral { position, .. } => *position,
            Node::BoolLiteral { position, .. } => *position,
            Node::ArrayLiteral { position, .. } => *position,
            Node::ObjectLiteral { position, .. } => *position,
            Node::EmptyLiteral(p) => *p,
            Node::EmptyIdentifier { position } => *position,
            Node::Identifier { position, .. } => *position,
            Node::UnaryExpression { position, .. } => *position,
            Node::BinaryExpression { position, .. } => *position,
            Node::IndexingOp { position, .. } => *position,
            Node::SlicingOp { position, .. } => *position,
            Node::FunctionCall { position, .. } => *position,
            Node::FunctionLiteral { position, .. } => *position,
            Node::IfExpr { position, .. } => *position,
        }
    }
}

/// The position of a node.
pub open spec fn node_position(n: NodeM) -> Position {
    match n {
        NodeM::NumberLiteral { position, .. } => position,
        NodeM::StringLiteral { position, .. } => position,
        NodeM::BoolLiteral { position, .. } => position,
        NodeM::ArrayLiteral { position, .. } => position,
        NodeM::ObjectLiteral { position, .. } => position,
        NodeM::EmptyLiteral(p) => p,
        NodeM::EmptyIdentifier { position } => position,
        NodeM::Identifier { position, .. } => position,
        NodeM::UnaryExpression { position, .. } => position,
        NodeM::BinaryExpression { position, .. } => position,
        NodeM::IndexingOp { position, .. } => position,
        NodeM::SlicingOp { position, .. } => position,
        NodeM::FunctionCall { position, .. } => position,
        NodeM::FunctionLiteral { position, .. } => position,
        NodeM::IfExpr { position, .. } => position,
    }
}

} // verus!

verus! {

/// `nodes_model` of a sequence with one node changed.
pub proof fn lemma_nodes_update(s: Seq<Node>, i: int, x: Node)
    requires
        0 <= i < s.len(),
    ensures
        nodes_model(s.update(i, x)) == nodes_model(s).update(i, node_model(x)),
{
    lemma_nodes_index(s);
    lemma_nodes_index(s.update(i, x));
    assert(nodes_model(s.update(i, x)) =~= nodes_model(s).update(i, node_model(x)));
}

/// `fields_model` of a sequence with one field changed.
pub proof fn lemma_fields_update(s: Seq<(String, Node)>, i: int, x: (String, Node))
    requires
        0 <= i < s.len(),
    ensures
        fields_model(s.update(i, x)) == fields_model(s).update(i, (x.0@, node_model(x.1))),
{
    lemma_fields_index(s);
    lemma_fields_index(s.update(i, x));
    assert(fields_model(s.update(i, x)) =~= fields_model(s).update(i, (x.0@, node_model(x.1))));
}

/// Takes the node at index `i` out of `v`, leaving an empty literal there.
pub fn take_node(v: &mut Vec<Node>, i: usize) -> (n: Node)
    requires
        i < old(v)@.len(),
    ensures
        n == old(v)@[i as int],
        final(v)@ == old(v)@.update(i as int, Node::EmptyLiteral(Position { line: 0, column: 0 })),
{
    let mut n = Node::EmptyLiteral(Position { line: 0, column: 0 });
    std::mem::swap(&mut n, &mut v[i]);
    n
}

} // verus!

verus! {

/// Takes the node of field `i` out of `v`, leaving an empty literal there.
pub fn take_field(v: &mut Vec<(String, Node)>, i: usize) -> (n: Node)
    requires
        i < old(v)@.len(),
    ensures
        n == old(v)@[i as int].1,
        final(v)@ == old(v)@.update(i as int, (old(v)@[i as int].0, Node::EmptyLiteral(Position { line: 0, column: 0 }))),
{
    let mut n = Node::EmptyLiteral(Position { line: 0, column: 0 });
    std::mem::swap(&mut n, &mut v[i].1);
    n
}

/// Puts the node `n` back as the node of field `i` of `v`.
pub fn put_field(v: &mut Vec<(String, Node)>, i: usize, n: Node)
    requires
        i < old(v)@.len(),
    ensures
        final(v)@ == old(v)@.update(i as int, (old(v)@[i as int].0, n)),
{
    let mut n = n;
    std::mem::swap(&mut n, &mut v[i].1);
}

} // verus!

verus! {

/// The larger of two numbers.
pub open spec fn max_nat(a: nat, b: nat) -> nat {
    if a >= b { a } else { b }
}

/// How deeply array literals nest in the parts of a node that evaluation
/// visits (a function literal's parts are visited only by a call).
pub open spec fn array_depth(n: NodeM) -> nat
    decreases n,
{
    match n {
        NodeM::ArrayLiteral { value, .. } => 1 + nodes_depth(value),
        NodeM::ObjectLiteral { value, .. } => fields_depth(value),
        NodeM::UnaryExpression { operand, .. } => array_depth(*operand),
        NodeM::BinaryExpression { left_operand, right_operand, .. } => max_nat(array_depth(*left_operand), array_depth(*right_operand)),
        NodeM::IndexingOp { operand, index, .. } => max_nat(array_depth(*operand), array_depth(*index)),
        NodeM::SlicingOp { operand, start_inclusive, end_exclusive, .. } => max_nat(
            array_depth(*operand),
            max_nat(opt_depth(start_inclusive), opt_depth(end_exclusive)),
        ),
        NodeM::FunctionCall { function, arguments, .. } => max_nat(array_depth(*function), nodes_depth(arguments)),
        NodeM::IfExpr { condition, on_true, on_false, .. } => max_nat(
            array_depth(*condition),
            max_nat(opt_depth(on_true), opt_depth(on_false)),
        ),
        _ => 0,
    }
}

/// `array_depth` of an optional node; 0 where there is none.
pub open spec fn opt_depth(o: Option<Box<NodeM>>) -> nat
    decreases o,
{
    match o {
        Some(b) => array_depth(*b),
        None => 0,
    }
}

/// The largest `array_depth` of a list of nodes.
pub open spec fn nodes_depth(s: Seq<NodeM>) -> nat
    decreases s,
{
    if s.len() == 0 {
        0
    } else {
        max_nat(nodes_depth(s.drop_last()), array_depth(s.last()))
    }
}

/// The largest `array_depth` of the values of a list of fields.
pub open spec fn fields_depth(s: Seq<(Seq<char>, NodeM)>) -> nat
    decreases s,
{
    if s.len() == 0 {
        0
    } else {
        max_nat(fields_depth(s.drop_last()), array_depth(s.last().1))
    }
}

/// No node of a list is nested deeper than the list.
pub proof fn lemma_nodes_depth(s: Seq<NodeM>)
    ensures
        forall|i: int| 0 <= i < s.len() ==> array_depth(#[trigger] s[i]) <= nodes_depth(s),
    decreases s.len(),
{
    if s.len() > 0 {
        lemma_nodes_depth(s.drop_last());
        assert forall|i: int| 0 <= i < s.len() implies array_depth(#[trigger] s[i]) <= nodes_depth(s) by {
            if i < s.len() - 1 {
                assert(s[i] == s.drop_last()[i]);
            }
        }
    }
}

/// No field of a list is nested deeper than the list.
pub proof fn lemma_fields_depth(s: Seq<(Seq<char>, NodeM)>)
    ensures
        forall|i: int| 0 <= i < s.len() ==> array_depth((#[trigger] s[i]).1) <= fields_depth(s),
    decreases s.len(),
{
    if s.len() > 0 {
        lemma_fields_depth(s.drop_last());
        assert forall|i: int| 0 <= i < s.len() implies array_depth((#[trigger] s[i]).1) <= fields_depth(s) by {
            if i < s.len() - 1 {
                assert(s[i] == s.drop_last()[i]);
            }
        }
    }
}

/// Lists whose nodes are nested alike are nested alike.
pub proof fn lemma_nodes_depth_same(s: Seq<NodeM>, t: Seq<NodeM>)
    requires
        s.len() == t.len(),
        forall|i: int| 0 <= i < s.len() ==> array_depth(#[trigger] s[i]) == array_depth(t[i]),
    ensures
        nodes_depth(s) == nodes_depth(t),
    decreases s.len(),
{
    if s.len() > 0 {
        assert forall|i: int| 0 <= i < s.len() - 1 implies array_depth(#[trigger] s.drop_last()[i]) == array_depth(t.drop_last()[i]) by {
            assert(s.drop_last()[i] == s[i] && t.drop_last()[i] == t[i]);
        }
        lemma_nodes_depth_same(s.drop_last(), t.drop_last());
        assert(array_depth(s[s.len() - 1]) == array_depth(t[s.len() - 1]));
    }
}

/// Lists whose fields are nested alike are nested alike.
pub proof fn lemma_fields_depth_same(s: Seq<(Seq<char>, NodeM)>, t: Seq<(Seq<char>, NodeM)>)
    requires
        s.len() == t.len(),
        forall|i: int| 0 <= i < s.len() ==> array_depth((#[trigger] s[i]).1) == array_depth(t[i].1),
    ensures
        fields_depth(s) == fields_depth(t),
    decreases s.len(),
{
    if s.len() > 0 {
        assert forall|i: int| 0 <= i < s.len() - 1 implies array_depth((#[trigger] s.drop_last()[i]).1) == array_depth(t.drop_last()[i].1) by {
            assert(s.drop_last()[i] == s[i] && t.drop_last()[i] == t[i]);
        }
        lemma_fields_depth_same(s.drop_last(), t.drop_last());
        assert(array_depth(s[s.len() - 1].1) == array_depth(t[s.len() - 1].1));
    }
}

} // verus!
