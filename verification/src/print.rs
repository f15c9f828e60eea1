//! The texts of positions, operators, nodes and values.
use crate::error::Error;
use crate::host::{num_text, Host, NumOp, NumOut};
use crate::i18n::Catalog;
use crate::node::{
    lemma_fields_index, lemma_nodes_index, lemma_params_index, node_model, Kind, Node, NodeM,
    Position,
};
use crate::text::{bool_text, bool_word, decimal, decimal_text, join};
use crate::types::{type_text, TypeM};
use crate::value::{
    lemma_body_index, lemma_values_index, value_model, Function, Value, ValueM,
};
use crate::stack::StackFrame;
use vstd::prelude::*;
use vstd::utf8::*;

verus! {

/// The longest text of a function that is printed whole; longer ones are
/// cut to this many bytes and end in `..`.
pub const MAX_PRINT_LEN: usize = 120;

/// The text of a position: line and column.
pub open spec fn position_text(p: Position) -> Seq<char> {
    decimal(p.line as nat) + seq![':'] + decimal(p.column as nat)
}

/// The text of an operator.
pub open spec fn kind_text(k: Kind) -> Seq<char> {
    match k {
        Kind::NegationOp => seq!['!'],
        Kind::AssignOp => seq!['='],
        Kind::AccessorOp => seq!['.'],
        Kind::AddOp => seq!['+'],
        Kind::SubtractOp => seq!['-'],
        Kind::MultiplyOp => seq!['*'],
        Kind::DivideOp => seq!['/'],
        Kind::ModulusOp => seq!['%'],
        Kind::LogicalAndOp => seq!['&'],
        Kind::LogicalOrOp => seq!['|'],
        Kind::GreaterThanOp => seq!['>'],
        Kind::LessThanOp => seq!['<'],
        Kind::EqualOp => seq!['=', '='],
        Kind::FunctionArrow => seq!['=', '>'],
        Kind::Separator => seq![','],
    }
}

impl Position {
    /// The text of the position.
    pub fn string(&self) -> (s: String)
        ensures
            s@ == position_text(*self),
    {
        proof {
            reveal_strlit(":");
        }
        let l = decimal_text(self.line);
        let c = decimal_text(self.column);
        let lc = join(l.as_str(), ":");
        join(lc.as_str(), c.as_str())
    }
}

impl Kind {
    /// The text of the operator.
    pub fn string(&self) -> (s: String)
        ensures
            s@ == kind_text(*self),
    {
        proof {
            reveal_strlit("!");
            reveal_strlit("=");
            reveal_strlit(".");
            reveal_strlit("+");
            reveal_strlit("-");
            reveal_strlit("*");
            reveal_strlit("/");
            reveal_strlit("%");
            reveal_strlit("&");
            reveal_strlit("|");
            reveal_strlit(">");
            reveal_strlit("<");
            reveal_strlit("==");
            reveal_strlit("=>");
            reveal_strlit(",");
        }
        let t = match self {
            Kind::NegationOp => "!",
            Kind::AssignOp => "=",
            Kind::AccessorOp => ".",
            Kind::AddOp => "+",
            Kind::SubtractOp => "-",
            Kind::MultiplyOp => "*",
            Kind::DivideOp => "/",
            Kind::ModulusOp => "%",
            Kind::LogicalAndOp => "&",
            Kind::LogicalOrOp => "|",
            Kind::GreaterThanOp => ">",
            Kind::LessThanOp => "<",
            Kind::EqualOp => "==",
            Kind::FunctionArrow => "=>",
            Kind::Separator => ",",
        };
        let r = t.to_owned();
        assert(r@ =~= kind_text(*self));
        r
    }
}

/// The text of a node, in the notation of the language.
pub open spec fn node_text<N: Fn(NumOp) -> NumOut>(n: N, node: NodeM) -> Seq<char>
    decreases node,
{
    match node {
        NodeM::NumberLiteral { value, .. } => num_text(n, value),
        NodeM::StringLiteral { value, .. } => value,
        NodeM::BoolLiteral { value, .. } => bool_text(value),
        NodeM::ArrayLiteral { value, .. } => "["@ + list_text(n, value) + "]"@,
        NodeM::ObjectLiteral { name, value, .. } => name + "{"@ + fields_text(n, value) + "}"@,
        NodeM::EmptyLiteral(_) => "()"@,
        NodeM::EmptyIdentifier { .. } => "_"@,
        NodeM::Identifier { value, .. } => value,
        NodeM::UnaryExpression { operator, operand, .. } => kind_text(operator) + node_text(
            n,
            *operand,
        ),
        NodeM::BinaryExpression { operator, left_operand, right_operand, .. } => "("@ + node_text(
            n,
            *left_operand,
        ) + " "@ + kind_text(operator) + " "@ + node_text(n, *right_operand) + ")"@,
        NodeM::IndexingOp { operand, index, .. } => node_text(n, *operand) + "["@ + node_text(
            n,
            *index,
        ) + "]"@,
        NodeM::SlicingOp { operand, start_inclusive, end_exclusive, .. } => node_text(n, *operand)
            + "["@ + opt_text(n, start_inclusive) + ":"@ + opt_text(n, end_exclusive) + "]"@,
        NodeM::FunctionCall { function, arguments, .. } => node_text(n, *function) + "("@
            + list_text(n, arguments) + ")"@,
        NodeM::FunctionLiteral { sign, body, .. } => node_text(n, *sign.0) + "("@ + params_text(
            n,
            sign.1,
        ) + ") "@ + node_text(n, *sign.2) + " { "@ + list_text(n, body) + " }"@,
        NodeM::IfExpr { condition, on_true, on_false, .. } => "if "@ + node_text(n, *condition)
            + " ? "@ + opt_text(n, on_true) + " : "@ + opt_text(n, on_false),
    }
}

/// The text of an optional node; nothing where there is none.
pub open spec fn opt_text<N: Fn(NumOp) -> NumOut>(n: N, o: Option<Box<NodeM>>) -> Seq<char>
    decreases o,
{
    match o {
        Some(b) => node_text(n, *b),
        None => Seq::empty(),
    }
}

/// The texts of nodes, separated by `, `.
pub open spec fn list_text<N: Fn(NumOp) -> NumOut>(n: N, s: Seq<NodeM>) -> Seq<char>
    decreases s,
{
    if s.len() == 0 {
        Seq::empty()
    } else if s.len() == 1 {
        node_text(n, s[0])
    } else {
        list_text(n, s.drop_last()) + ", "@ + node_text(n, s.last())
    }
}

/// The texts of the fields of an object literal: `name: value`, separated by `, `.
pub open spec fn fields_text<N: Fn(NumOp) -> NumOut>(n: N, s: Seq<(Seq<char>, NodeM)>) -> Seq<
    char,
>
    decreases s,
{
    if s.len() == 0 {
        Seq::empty()
    } else if s.len() == 1 {
        s[0].0 + ": "@ + node_text(n, s[0].1)
    } else {
        fields_text(n, s.drop_last()) + ", "@ + s.last().0 + ": "@ + node_text(n, s.last().1)
    }
}

/// The texts of the parameters of a function literal: `name type`, separated by `, `.
pub open spec fn params_text<N: Fn(NumOp) -> NumOut>(n: N, s: Seq<(NodeM, NodeM)>) -> Seq<char>
    decreases s,
{
    if s.len() == 0 {
        Seq::empty()
    } else if s.len() == 1 {
        node_text(n, s[0].0) + " "@ + node_text(n, s[0].1)
    } else {
        params_text(n, s.drop_last()) + ", "@ + node_text(n, s.last().0) + " "@ + node_text(
            n,
            s.last().1,
        )
    }
}

} // verus!

verus! {

/// The texts of the nodes `v`, separated by `, `.
fn list_string<N: Fn(NumOp) -> NumOut, G: Fn(String, Vec<Value>, StackFrame) -> (StackFrame, Result<Value, Error>)>(
    v: &Vec<Node>,
    host: &Host<N, G>,
) -> (s: String)
    requires
        crate::host::num_ok(host.num),
    ensures
        s@ == list_text(host.num, crate::node::nodes_model(v@)),
    decreases v,
{
    let mut acc = String::new();
    let mut i: usize = 0;
    proof {
        assert(crate::node::nodes_model(v@.take(0)) =~= Seq::<NodeM>::empty());
    }
    while i < v.len()
        invariant
            crate::host::num_ok(host.num),
            i <= v.len(),
            acc@ == list_text(host.num, crate::node::nodes_model(v@.take(i as int))),
        decreases v.len() - i,
    {
        let t = v[i].string(host);
        let ghost prev = crate::node::nodes_model(v@.take(i as int));
        proof {
            assert(v@.take(i as int).push(v@[i as int]) =~= v@.take(i + 1));
            crate::node::lemma_nodes_push(v@.take(i as int), v@[i as int]);
            lemma_nodes_index(v@.take(i as int));
            let next = prev.push(node_model(v@[i as int]));
            assert(next.drop_last() =~= prev);
        }
        if i == 0 {
            acc = t;
        } else {
            let with_sep = join(acc.as_str(), ", ");
            acc = join(with_sep.as_str(), t.as_str());
        }
        i = i + 1;
    }
    assert(v@.take(v@.len() as int) =~= v@);
    acc
}

/// The texts of the fields `v` of an object literal.
fn fields_string<N: Fn(NumOp) -> NumOut, G: Fn(String, Vec<Value>, StackFrame) -> (StackFrame, Result<Value, Error>)>(
    v: &Vec<(String, Node)>,
    host: &Host<N, G>,
) -> (s: String)
    requires
        crate::host::num_ok(host.num),
    ensures
        s@ == fields_text(host.num, crate::node::fields_model(v@)),
    decreases v,
{
    let mut acc = String::new();
    let mut i: usize = 0;
    proof {
        assert(crate::node::fields_model(v@.take(0)) =~= Seq::<(Seq<char>, NodeM)>::empty());
    }
    while i < v.len()
        invariant
            crate::host::num_ok(host.num),
            i <= v.len(),
            acc@ == fields_text(host.num, crate::node::fields_model(v@.take(i as int))),
        decreases v.len() - i,
    {
        let t = v[i].1.string(host);
        let k = join(v[i].0.as_str(), ": ");
        let kt = join(k.as_str(), t.as_str());
        let ghost prev = crate::node::fields_model(v@.take(i as int));
        proof {
            assert(v@.take(i as int).push(v@[i as int]) =~= v@.take(i + 1));
            crate::node::lemma_fields_push(v@.take(i as int), v@[i as int]);
            lemma_fields_index(v@.take(i as int));
            let next = prev.push((v@[i as int].0@, node_model(v@[i as int].1)));
            assert(next.drop_last() =~= prev);
        }
        if i == 0 {
            acc = kt;
        } else {
            let with_sep = join(acc.as_str(), ", ");
            acc = join(with_sep.as_str(), kt.as_str());
        }
        i = i + 1;
    }
    assert(v@.take(v@.len() as int) =~= v@);
    acc
}

/// The texts of the parameters `v` of a function literal.
fn params_string<N: Fn(NumOp) -> NumOut, G: Fn(String, Vec<Value>, StackFrame) -> (StackFrame, Result<Value, Error>)>(
    v: &Vec<(Node, Node)>,
    host: &Host<N, G>,
) -> (s: String)
    requires
        crate::host::num_ok(host.num),
    ensures
        s@ == params_text(host.num, crate::node::params_model(v@)),
    decreases v,
{
    let mut acc = String::new();
    let mut i: usize = 0;
    proof {
        assert(crate::node::params_model(v@.take(0)) =~= Seq::<(NodeM, NodeM)>::empty());
    }
    while i < v.len()
        invariant
            crate::host::num_ok(host.num),
            i <= v.len(),
            acc@ == params_text(host.num, crate::node::params_model(v@.take(i as int))),
        decreases v.len() - i,
    {
        let a = v[i].0.string(host);
        let b = v[i].1.string(host);
        let a_sp = join(a.as_str(), " ");
        let ab = join(a_sp.as_str(), b.as_str());
        let ghost prev = crate::node::params_model(v@.take(i as int));
        proof {
            assert(v@.take(i as int).push(v@[i as int]) =~= v@.take(i + 1));
            crate::node::lemma_params_push(v@.take(i as int), v@[i as int]);
            lemma_params_index(v@.take(i as int));
            let next = prev.push((node_model(v@[i as int].0), node_model(v@[i as int].1)));
            assert(next.drop_last() =~= prev);
        }
        if i == 0 {
            acc = ab;
        } else {
            let with_sep = join(acc.as_str(), ", ");
            acc = join(with_sep.as_str(), ab.as_str());
        }
        i = i + 1;
    }
    assert(v@.take(v@.len() as int) =~= v@);
    acc
}

/// The text of an optional node.
fn opt_string<N: Fn(NumOp) -> NumOut, G: Fn(String, Vec<Value>, StackFrame) -> (StackFrame, Result<Value, Error>)>(
    o: &Option<Box<Node>>,
    host: &Host<N, G>,
) -> (s: String)
    requires
        crate::host::num_ok(host.num),
    ensures
        s@ == opt_text(host.num, crate::node::opt_node_model(*o)),
    decreases o,
{
    match o {
        Some(b) => b.string(host),
        None => String::new(),
    }
}

/// `a`, `b` and `c` one after the other.
fn join3(a: &str, b: &str, c: &str) -> (s: String)
    ensures
        s@ == a@ + b@ + c@,
{
    let ab = join(a, b);
    join(ab.as_str(), c)
}

impl Node {
    /// The text of the node, in the notation of the language.
    pub fn string<N: Fn(NumOp) -> NumOut, G: Fn(String, Vec<Value>, StackFrame) -> (StackFrame, Result<Value, Error>)>(
        &self,
        host: &Host<N, G>,
    ) -> (s: String)
        requires
            crate::host::num_ok(host.num),
        ensures
            s@ == node_text(host.num, self@),
        decreases self,
    {
        match self {
            Node::NumberLiteral { value, .. } => host.render(*value),
            Node::StringLiteral { value, .. } => value.clone(),
            Node::BoolLiteral { value, .. } => bool_word(*value),
            Node::ArrayLiteral { value, .. } => {
                let items = list_string(value, host);
                join3("[", items.as_str(), "]")
            },
            Node::ObjectLiteral { name, value, .. } => {
                let fields = fields_string(value, host);
                let head = join(name.as_str(), "{");
                join3(head.as_str(), fields.as_str(), "}")
            },
            Node::EmptyLiteral(_) => "()".to_owned(),
            Node::EmptyIdentifier { .. } => "_".to_owned(),
            Node::Identifier { value, .. } => value.clone(),
            Node::UnaryExpression { operator, operand, .. } => {
                let o = operand.string(host);
                let k = operator.string();
                join(k.as_str(), o.as_str())
            },
            Node::BinaryExpression { operator, left_operand, right_operand, .. } => {
                let l = left_operand.string(host);
                let r = right_operand.string(host);
                let k = operator.string();
                let a = join3("(", l.as_str(), " ");
                let b = join3(a.as_str(), k.as_str(), " ");
                join3(b.as_str(), r.as_str(), ")")
            },
            Node::IndexingOp { operand, index, .. } => {
                let o = operand.string(host);
                let i = index.string(host);
                let a = join3(o.as_str(), "[", i.as_str());
                join(a.as_str(), "]")
            },
            Node::SlicingOp { operand, start_inclusive, end_exclusive, .. } => {
                let o = operand.string(host);
                let st = opt_string(start_inclusive, host);
                let en = opt_string(end_exclusive, host);
                let a = join3(o.as_str(), "[", st.as_str());
                let b = join3(a.as_str(), ":", en.as_str());
                join(b.as_str(), "]")
            },
            Node::FunctionCall { function, arguments, .. } => {
                let f = function.string(host);
                let args = list_string(arguments, host);
                let a = join3(f.as_str(), "(", args.as_str());
                join(a.as_str(), ")")
            },
            Node::FunctionLiteral { sign, body, .. } => {
                let name = sign.0.string(host);
                let params = params_string(&sign.1, host);
                let ret = sign.2.string(host);
                let stmts = list_string(body, host);
                let a = join3(name.as_str(), "(", params.as_str());
                let b = join3(a.as_str(), ") ", ret.as_str());
                let c = join3(b.as_str(), " { ", stmts.as_str());
                join(c.as_str(), " }")
            },
            Node::IfExpr { condition, on_true, on_false, .. } => {
                let c = condition.string(host);
                let t = opt_string(on_true, host);
                let f = opt_string(on_false, host);
                let a = join3("if ", c.as_str(), " ? ");
                let b = join3(a.as_str(), t.as_str(), " : ");
                join(b.as_str(), f.as_str())
            },
        }
    }
}

} // verus!

verus! {

/// The text of a function: the text of its defining node, cut to
/// `MAX_PRINT_LEN` bytes followed by `..` where it is longer.
pub open spec fn func_text<N: Fn(NumOp) -> NumOut>(n: N, defn: NodeM) -> Seq<char> {
    let bytes = encode_utf8(node_text(n, defn));
    if bytes.len() > MAX_PRINT_LEN {
        decode_utf8(bytes.subrange(0, MAX_PRINT_LEN as int)) + ".."@
    } else {
        node_text(n, defn)
    }
}

/// The text of a function can be cut where `func_text` cuts it: at a
/// character boundary.
pub open spec fn func_fits<N: Fn(NumOp) -> NumOut>(n: N, defn: NodeM) -> bool {
    let bytes = encode_utf8(node_text(n, defn));
    bytes.len() > MAX_PRINT_LEN ==> is_char_boundary(bytes, MAX_PRINT_LEN as int)
}

/// Every function within the value can be printed.
pub open spec fn value_fits<N: Fn(NumOp) -> NumOut>(n: N, v: ValueM) -> bool
    decreases v,
{
    match v {
        ValueM::Object { body, .. } => body_fits(n, body),
        ValueM::Array(_, vs) => values_fit(n, vs),
        ValueM::Function(d) => func_fits(n, d),
        ValueM::Thunk { func, .. } => func_fits(n, func),
        ValueM::Assignment(b) => value_fits(n, *b),
        _ => true,
    }
}

/// Every function within the values can be printed.
pub open spec fn values_fit<N: Fn(NumOp) -> NumOut>(n: N, s: Seq<ValueM>) -> bool
    decreases s,
{
    if s.len() == 0 {
        true
    } else {
        values_fit(n, s.drop_last()) && value_fits(n, s.last())
    }
}

/// Every function within the fields can be printed.
pub open spec fn body_fits<N: Fn(NumOp) -> NumOut>(n: N, s: Seq<(Seq<char>, (TypeM, ValueM))>) -> bool
    decreases s,
{
    if s.len() == 0 {
        true
    } else {
        body_fits(n, s.drop_last()) && value_fits(n, s.last().1.1)
    }
}

/// The text of a value.
pub open spec fn value_text<N: Fn(NumOp) -> NumOut>(n: N, cat: Catalog, v: ValueM) -> Seq<char>
    decreases v,
{
    match v {
        ValueM::Number(b) => num_text(n, b),
        ValueM::Bool(b) => bool_text(b),
        ValueM::Str(s) => s,
        ValueM::Object { name, body } => cat.text("types.object"@) + " ("@ + name + "): "@ + "{"@
            + body_text(n, cat, body) + "}"@,
        ValueM::Array(t, vs) => cat.text("types.array"@) + " ([]"@ + type_text(cat, t) + "): "@
            + "["@ + values_text(n, cat, vs) + "]"@,
        ValueM::Function(d) => func_text(n, d),
        ValueM::NativeFunction(name) => cat.text("types.native_function"@) + " ("@ + name + ")"@,
        ValueM::Thunk { func, .. } => "Thunk "@ + cat.text("misc.of"@) + " ("@ + func_text(
            n,
            func,
        ) + ")"@,
        ValueM::Empty => Seq::empty(),
        ValueM::Assignment(b) => value_text(n, cat, *b),
    }
}

/// The texts of values, separated by `, `.
pub open spec fn values_text<N: Fn(NumOp) -> NumOut>(n: N, cat: Catalog, s: Seq<ValueM>) -> Seq<char>
    decreases s,
{
    if s.len() == 0 {
        Seq::empty()
    } else if s.len() == 1 {
        value_text(n, cat, s[0])
    } else {
        values_text(n, cat, s.drop_last()) + ", "@ + value_text(n, cat, s.last())
    }
}

/// The texts of the fields of an object: `name: value`, separated by `, `.
pub open spec fn body_text<N: Fn(NumOp) -> NumOut>(
    n: N,
    cat: Catalog,
    s: Seq<(Seq<char>, (TypeM, ValueM))>,
) -> Seq<char>
    decreases s,
{
    if s.len() == 0 {
        Seq::empty()
    } else if s.len() == 1 {
        s[0].0 + ": "@ + value_text(n, cat, s[0].1.1)
    } else {
        body_text(n, cat, s.drop_last()) + ", "@ + s.last().0 + ": "@ + value_text(
            n,
            cat,
            s.last().1.1,
        )
    }
}

impl Function {
    /// The text of the function, cut to `MAX_PRINT_LEN` bytes and `..` where
    /// it is longer.
    pub fn string<N: Fn(NumOp) -> NumOut, G: Fn(String, Vec<Value>, StackFrame) -> (StackFrame, Result<Value, Error>)>(
        &self,
        host: &Host<N, G>,
    ) -> (s: String)
        requires
            crate::host::num_ok(host.num),
            func_fits(host.num, self.defn@),
        ensures
            s@ == func_text(host.num, self.defn@),
    {
        broadcast use encode_utf8_decode_utf8;

        let func_str = self.defn.string(host);
        let whole = func_str.as_str();
        let byte_len = whole.as_bytes().len();
        if byte_len > MAX_PRINT_LEN {
            let (head, _) = whole.split_at(MAX_PRINT_LEN);
            assert(head@ == decode_utf8(encode_utf8(head@)));
            return join(head, "..");
        }
        func_str
    }
}

/// The texts of the values `v`, separated by `, `.
fn values_string<N: Fn(NumOp) -> NumOut, G: Fn(String, Vec<Value>, StackFrame) -> (StackFrame, Result<Value, Error>)>(
    v: &Vec<Value>,
    host: &Host<N, G>,
) -> (s: String)
    requires
        crate::host::num_ok(host.num),
        values_fit(host.num, crate::value::values_model(v@)),
    ensures
        s@ == values_text(host.num, host.cat, crate::value::values_model(v@)),
    decreases v,
{
    let mut acc = String::new();
    let mut i: usize = 0;
    proof {
        assert(crate::value::values_model(v@.take(0)) =~= Seq::<ValueM>::empty());
        lemma_values_fit_index(host.num, crate::value::values_model(v@));
        lemma_values_index(v@);
        assert forall|j: int| 0 <= j < v@.len() implies value_fits(
            host.num,
            #[trigger] value_model(v@[j]),
        ) by {
            assert(crate::value::values_model(v@)[j] == value_model(v@[j]));
        }
    }
    while i < v.len()
        invariant
            crate::host::num_ok(host.num),
            i <= v.len(),
            forall|j: int| 0 <= j < v@.len() ==> value_fits(host.num, #[trigger] value_model(v@[j])),
            acc@ == values_text(host.num, host.cat, crate::value::values_model(v@.take(i as int))),
        decreases v.len() - i,
    {
        let t = v[i].string(host);
        let ghost prev = crate::value::values_model(v@.take(i as int));
        proof {
            assert(v@.take(i as int).push(v@[i as int]) =~= v@.take(i + 1));
            crate::value::lemma_values_push(v@.take(i as int), v@[i as int]);
            lemma_values_index(v@.take(i as int));
            let next = prev.push(value_model(v@[i as int]));
            assert(next.drop_last() =~= prev);
        }
        if i == 0 {
            acc = t;
        } else {
            let with_sep = join(acc.as_str(), ", ");
            acc = join(with_sep.as_str(), t.as_str());
        }
        i = i + 1;
    }
    assert(v@.take(v@.len() as int) =~= v@);
    acc
}

/// The texts of the fields `v` of an object.
fn body_string<N: Fn(NumOp) -> NumOut, G: Fn(String, Vec<Value>, StackFrame) -> (StackFrame, Result<Value, Error>)>(
    v: &Vec<(String, (crate::types::Type, Value))>,
    host: &Host<N, G>,
) -> (s: String)
    requires
        crate::host::num_ok(host.num),
        body_fits(host.num, crate::value::body_model(v@)),
    ensures
        s@ == body_text(host.num, host.cat, crate::value::body_model(v@)),
    decreases v,
{
    let mut acc = String::new();
    let mut i: usize = 0;
    proof {
        assert(crate::value::body_model(v@.take(0)) =~= Seq::<(Seq<char>, (TypeM, ValueM))>::empty());
        lemma_body_fits_index(host.num, crate::value::body_model(v@));
        lemma_body_index(v@);
        assert forall|j: int| 0 <= j < v@.len() implies value_fits(
            host.num,
            #[trigger] value_model(v@[j].1.1),
        ) by {
            assert(crate::value::body_model(v@)[j].1.1 == value_model(v@[j].1.1));
        }
    }
    while i < v.len()
        invariant
            crate::host::num_ok(host.num),
            i <= v.len(),
            forall|j: int| 0 <= j < v@.len() ==> value_fits(host.num, #[trigger] value_model(v@[j].1.1)),
            acc@ == body_text(host.num, host.cat, crate::value::body_model(v@.take(i as int))),
        decreases v.len() - i,
    {
        let t = v[i].1.1.string(host);
        let k = join(v[i].0.as_str(), ": ");
        let kt = join(k.as_str(), t.as_str());
        let ghost prev = crate::value::body_model(v@.take(i as int));
        proof {
            assert(v@.take(i as int).push(v@[i as int]) =~= v@.take(i + 1));
            crate::value::lemma_body_push(v@.take(i as int), v@[i as int]);
            lemma_body_index(v@.take(i as int));
            let next = prev.push((v@[i as int].0@, (v@[i as int].1.0@, value_model(v@[i as int].1.1))));
            assert(next.drop_last() =~= prev);
        }
        if i == 0 {
            acc = kt;
        } else {
            let with_sep = join(acc.as_str(), ", ");
            acc = join(with_sep.as_str(), kt.as_str());
        }
        i = i + 1;
    }
    assert(v@.take(v@.len() as int) =~= v@);
    acc
}

/// Each value of a printable sequence is printable.
pub proof fn lemma_values_fit_index<N: Fn(NumOp) -> NumOut>(n: N, s: Seq<ValueM>)
    requires
        values_fit(n, s),
    ensures
        forall|j: int| 0 <= j < s.len() ==> value_fits(n, #[trigger] s[j]),
    decreases s.len(),
{
    if s.len() > 0 {
        lemma_values_fit_index(n, s.drop_last());
        assert forall|j: int| 0 <= j < s.len() implies value_fits(n, #[trigger] s[j]) by {
            if j < s.len() - 1 {
                assert(s[j] == s.drop_last()[j]);
            }
        }
    }
}

/// Each field of a printable body is printable.
pub proof fn lemma_body_fits_index<N: Fn(NumOp) -> NumOut>(n: N, s: Seq<(Seq<char>, (TypeM, ValueM))>)
    requires
        body_fits(n, s),
    ensures
        forall|j: int| 0 <= j < s.len() ==> value_fits(n, #[trigger] s[j].1.1),
    decreases s.len(),
{
    if s.len() > 0 {
        lemma_body_fits_index(n, s.drop_last());
        assert forall|j: int| 0 <= j < s.len() implies value_fits(n, #[trigger] s[j].1.1) by {
            if j < s.len() - 1 {
                assert(s[j] == s.drop_last()[j]);
            }
        }
    }
}

impl Value {
    /// The text of the value.
    pub fn string<N: Fn(NumOp) -> NumOut, G: Fn(String, Vec<Value>, StackFrame) -> (StackFrame, Result<Value, Error>)>(
        &self,
        host: &Host<N, G>,
    ) -> (s: String)
        requires
            crate::host::num_ok(host.num),
            value_fits(host.num, self@),
        ensures
            s@ == value_text(host.num, host.cat, self@),
        decreases self,
    {
        match self {
            Value::Number(value) => host.render(*value),
            Value::Bool(value) => bool_word(*value),
            Value::String(value) => value.clone(),
            Value::Object { name, body } => {
                let obj = host.cat.tr("types.object");
                let b = body_string(body, host);
                let a = join3(obj.as_str(), " (", name.as_str());
                let c = join3(a.as_str(), "): ", "{");
                join3(c.as_str(), b.as_str(), "}")
            },
            Value::Array(t, value) => {
                let arr = host.cat.tr("types.array");
                let ts = t.string(&host.cat);
                let vs = values_string(value, host);
                let a = join3(arr.as_str(), " ([]", ts.as_str());
                let c = join3(a.as_str(), "): ", "[");
                join3(c.as_str(), vs.as_str(), "]")
            },
            Value::Function(func) => func.string(host),
            Value::NativeFunction(func) => {
                let nf = host.cat.tr("types.native_function");
                let a = join3(nf.as_str(), " (", func.0.as_str());
                join(a.as_str(), ")")
            },
            Value::FunctionCallThunk { func, .. } => {
                let of = host.cat.tr("misc.of");
                let f = func.string(host);
                let a = join3("Thunk ", of.as_str(), " (");
                join3(a.as_str(), f.as_str(), ")")
            },
            Value::Empty => String::new(),
            Value::Assignment(val) => val.string(host),
        }
    }
}

} // verus!
