use speak_core::error::{Error, ErrorReason};
use speak_core::host::{Host, NumOp, NumOut};
use speak_core::i18n::Catalog;
use speak_core::node::{Kind, Node, Position};
use speak_core::stack::StackFrame;
use speak_core::types::Type;
use speak_core::value::{Function, NativeFn, Value};

fn f(bits: u64) -> f64 {
    f64::from_bits(bits)
}

fn n(x: f64) -> u64 {
    x.to_bits()
}

fn arithmetic(op: NumOp) -> NumOut {
    match op {
        NumOp::Neg(a) => NumOut::Num(n(-f(a))),
        NumOp::Add(a, b) => NumOut::Num(n(f(a) + f(b))),
        NumOp::Sub(a, b) => NumOut::Num(n(f(a) - f(b))),
        NumOp::Mul(a, b) => NumOut::Num(n(f(a) * f(b))),
        NumOp::Div(a, b) => NumOut::Num(n(f(a) / f(b))),
        NumOp::Rem(a, b) => NumOut::Num(n(f(a) % f(b))),
        NumOp::BitAnd(a, b) => NumOut::Num(n((f(a) as i64 & f(b) as i64) as f64)),
        NumOp::BitOr(a, b) => NumOut::Num(n((f(a) as i64 | f(b) as i64) as f64)),
        NumOp::Greater(a, b) => NumOut::Truth(f(a) > f(b)),
        NumOp::Less(a, b) => NumOut::Truth(f(a) < f(b)),
        NumOp::Equal(a, b) => NumOut::Truth(f(a) == f(b)),
        NumOp::IsZero(a) => NumOut::Truth(f(a) == 0f64),
        NumOp::IsIntable(a) => NumOut::Truth(f(a) == f(a).trunc()),
        NumOp::ToIndex(a) => NumOut::Index(f(a) as usize),
        NumOp::Render(a) => NumOut::Text(f(a).to_string()),
    }
}

fn natives(name: String, args: Vec<Value>, mut stack: StackFrame) -> (StackFrame, Result<Value, Error>) {
    let answer = match name.as_str() {
        "println" => {
            if let Some(Value::String(s)) = args.first() {
                println!("{}", s);
            }
            Ok(Value::Empty)
        },
        "sprint" => match args.first() {
            Some(Value::String(s)) => Ok(Value::String(s.clone())),
            _ => Ok(Value::String(String::new())),
        },
        "remember" => {
            let first = args.into_iter().next().unwrap_or(Value::Empty);
            stack.set("memo".to_string(), first);
            Ok(Value::Empty)
        },
        _ => Err(Error { message: format!("no native {}", name), reason: ErrorReason::Runtime }),
    };
    (stack, answer)
}

fn catalog() -> Catalog {
    let mut cat = Catalog::new("en");
    let pairs: Vec<(String, String)> = vec![
        ("types.number", "number"),
        ("types.bool", "bool"),
        ("types.string", "string"),
        ("types.function", "function"),
        ("types.object", "object"),
        ("types.array", "array"),
        ("types.native_function", "native function"),
        ("misc.of", "of"),
        ("errors.eval_e2", "%{a} is not defined [%{b}]"),
        ("errors.eval_binary_expr_node_e7", "division by zero: %{a}"),
    ]
    .into_iter()
    .map(|(k, v)| (k.to_string(), v.to_string()))
    .collect();
    cat.add_translations("en", &pairs);
    cat
}

fn host() -> Host<fn(NumOp) -> NumOut, fn(String, Vec<Value>, StackFrame) -> (StackFrame, Result<Value, Error>)> {
    Host { cat: catalog(), num: arithmetic, native: natives }
}

fn pos(line: usize, column: usize) -> Position {
    Position { line, column }
}

fn num(x: f64) -> Node {
    Node::NumberLiteral { value: n(x), position: pos(1, 1) }
}

fn text(s: &str) -> Node {
    Node::StringLiteral { value: s.to_string(), position: pos(1, 1) }
}

fn ident(s: &str) -> Node {
    Node::Identifier { value: s.to_string(), position: pos(1, 1) }
}

fn binary(operator: Kind, l: Node, r: Node) -> Node {
    Node::BinaryExpression {
        operator,
        left_operand: Box::new(l),
        right_operand: Box::new(r),
        position: pos(1, 1),
    }
}

const FUEL: u32 = 50;

fn number_of(v: &Value) -> f64 {
    match v {
        Value::Number(b) => f(*b),
        _ => panic!("not a number: {:?}", v),
    }
}

fn numbers_of(v: &Value) -> Vec<f64> {
    match v {
        Value::Array(_, vals) => vals.iter().map(number_of).collect(),
        _ => panic!("not an array: {:?}", v),
    }
}

fn eval(node: &mut Node, stack: &mut StackFrame) -> Result<Value, Error> {
    let h = host();
    node.eval(stack, false, &h, FUEL)
}

fn array(items: Vec<Node>) -> Node {
    Node::ArrayLiteral { value: items, position: pos(1, 1) }
}

fn with_natives() -> StackFrame {
    let mut stack = StackFrame::new();
    stack.set("println".to_string(), Value::NativeFunction(NativeFn("println".to_string())));
    stack.set("sprint".to_string(), Value::NativeFunction(NativeFn("sprint".to_string())));
    stack
}

#[test]
fn test_eval_speak_function() {
    let h = host();
    let mut frame = with_natives();
    let ident_pos = Position { line: 1, column: 1 };
    let str_pos = Position { line: 1, column: 9 };
    let h_str = "Hello World!";

    {
        let mut node_fn_call = Node::FunctionCall {
            function: Box::new(Node::Identifier { value: "println".to_string(), position: ident_pos }),
            arguments: vec![Node::StringLiteral { value: h_str.to_string(), position: str_pos }],
            position: ident_pos,
        };
        let val = node_fn_call.eval(&mut frame, false, &h, FUEL).expect("this should resolve to empty value");
        assert_eq!(val.string(&h), "");
    }

    {
        let mut node_fn_call = Node::FunctionCall {
            function: Box::new(Node::Identifier { value: "sprint".to_string(), position: ident_pos }),
            arguments: vec![Node::StringLiteral { value: h_str.to_string(), position: str_pos }],
            position: ident_pos,
        };
        let val = node_fn_call.eval(&mut frame, false, &h, FUEL).expect("this should resolve to a string value");
        if let Value::String(val) = val {
            assert_eq!(val, h_str);
        } else {
            panic!("did not resolve to Value::String, value id of type {}", val.value_type().string(&h.cat));
        }
    }
}

#[test]
fn literals_evaluate_to_their_values() {
    let mut stack = StackFrame::new();
    assert_eq!(number_of(&eval(&mut num(2.5), &mut stack).unwrap()), 2.5);
    assert!(matches!(eval(&mut text("hi"), &mut stack).unwrap(), Value::String(s) if s == "hi"));
    let mut b = Node::BoolLiteral { value: true, position: pos(1, 1) };
    assert!(matches!(eval(&mut b, &mut stack).unwrap(), Value::Bool(true)));
    assert!(matches!(eval(&mut Node::EmptyLiteral(pos(1, 1)), &mut stack).unwrap(), Value::Empty));
    assert!(matches!(eval(&mut Node::EmptyIdentifier { position: pos(1, 1) }, &mut stack).unwrap(), Value::Empty));
}

#[test]
fn unknown_name_is_a_system_error() {
    let mut stack = StackFrame::new();
    let mut node = Node::Identifier { value: "x".to_string(), position: pos(3, 7) };
    let e = eval(&mut node, &mut stack).unwrap_err();
    assert_eq!(e.message, "x is not defined [3:7]");
    assert_eq!(e.reason, ErrorReason::System);
}

#[test]
fn assignment_then_read_gives_the_value() {
    let mut stack = StackFrame::new();
    let mut assign = binary(Kind::AssignOp, ident("x"), binary(Kind::AddOp, num(2.0), num(3.0)));
    match eval(&mut assign, &mut stack).unwrap() {
        Value::Assignment(v) => assert_eq!(number_of(&v), 5.0),
        other => panic!("{:?}", other),
    }
    assert_eq!(number_of(&eval(&mut ident("x"), &mut stack).unwrap()), 5.0);
    assert_eq!(stack.frames.len(), 1);
}

#[test]
fn negation_changes_the_literal_in_place() {
    let mut stack = StackFrame::new();
    let mut node = Node::UnaryExpression { operator: Kind::NegationOp, operand: Box::new(num(3.0)), position: pos(1, 1) };
    assert_eq!(number_of(&eval(&mut node, &mut stack).unwrap()), -3.0);
    assert_eq!(number_of(&eval(&mut node, &mut stack).unwrap()), 3.0);
    let mut b = Node::UnaryExpression {
        operator: Kind::NegationOp,
        operand: Box::new(Node::BoolLiteral { value: true, position: pos(1, 1) }),
        position: pos(1, 1),
    };
    assert!(matches!(eval(&mut b, &mut stack).unwrap(), Value::Bool(false)));
}

#[test]
fn negation_errors() {
    let mut stack = StackFrame::new();
    stack.set("y".to_string(), Value::Number(n(1.0)));
    let mut bound = Node::UnaryExpression { operator: Kind::NegationOp, operand: Box::new(ident("y")), position: pos(2, 2) };
    let e = eval(&mut bound, &mut stack).unwrap_err();
    assert_eq!(e.reason, ErrorReason::Runtime);
    assert_eq!(e.message, "errors.eval_e3");
    let mut unbound = Node::UnaryExpression { operator: Kind::NegationOp, operand: Box::new(ident("z")), position: pos(2, 2) };
    let e = eval(&mut unbound, &mut stack).unwrap_err();
    assert_eq!(e.reason, ErrorReason::System);
    assert_eq!(e.message, "z is not defined [1:1]");
    let mut other = Node::UnaryExpression { operator: Kind::NegationOp, operand: Box::new(text("s")), position: pos(2, 2) };
    assert_eq!(eval(&mut other, &mut stack).unwrap_err().reason, ErrorReason::Syntax);
    let mut not_neg = Node::UnaryExpression { operator: Kind::AddOp, operand: Box::new(num(1.0)), position: pos(2, 2) };
    assert_eq!(eval(&mut not_neg, &mut stack).unwrap_err().reason, ErrorReason::Syntax);
}

#[test]
fn array_literals() {
    let mut stack = StackFrame::new();
    let v = eval(&mut array(vec![num(1.0), num(2.0), num(3.0)]), &mut stack).unwrap();
    assert_eq!(numbers_of(&v), vec![1.0, 2.0, 3.0]);
    assert!(matches!(v, Value::Array(Type::Number, _)));
    let empty = eval(&mut array(vec![]), &mut stack).unwrap();
    assert!(matches!(empty, Value::Array(Type::Empty, ref vals) if vals.is_empty()));
    let e = eval(&mut array(vec![num(1.0), text("a")]), &mut stack).unwrap_err();
    assert_eq!(e.reason, ErrorReason::Runtime);
}

#[test]
fn a_negated_first_element_is_evaluated_twice() {
    let mut stack = StackFrame::new();
    let neg = Node::UnaryExpression { operator: Kind::NegationOp, operand: Box::new(num(1.0)), position: pos(1, 1) };
    let v = eval(&mut array(vec![neg]), &mut stack).unwrap();
    assert_eq!(numbers_of(&v), vec![1.0]);
}

#[test]
fn running_out_of_fuel_is_an_error() {
    let h = host();
    let mut stack = StackFrame::new();
    adder().eval(&mut stack, false, &h, 0).unwrap();
    let mut c = call("add", vec![num(1.0), num(2.0)]);
    let e = c.eval(&mut stack, false, &h, 0).unwrap_err();
    assert_eq!(e.message, "errors.eval_depth");
    assert_eq!(e.reason, ErrorReason::System);
    assert_eq!(number_of(&c.eval(&mut stack, false, &h, 1).unwrap()), 3.0);
}

#[test]
fn array_literals_need_no_fuel() {
    let h = host();
    let mut stack = StackFrame::new();
    let inner = array(vec![num(1.0), num(2.0)]);
    let mut node = array(vec![array(vec![inner]), array(vec![array(vec![num(3.0)])])]);
    match node.eval(&mut stack, false, &h, 0).unwrap() {
        Value::Array(t, vals) => {
            assert_eq!(t, Type::Array(Box::new(Type::Array(Box::new(Type::Number)))));
            assert_eq!(vals.len(), 2);
        },
        other => panic!("{:?}", other),
    }
    let neg = Node::UnaryExpression { operator: Kind::NegationOp, operand: Box::new(num(1.0)), position: pos(1, 1) };
    let v = array(vec![neg]).eval(&mut stack, false, &h, 0).unwrap();
    assert_eq!(numbers_of(&v), vec![1.0]);
}

#[test]
fn object_literal_and_field_access() {
    let h = host();
    let mut stack = StackFrame::new();
    let mut obj = Node::ObjectLiteral {
        name: "point".to_string(),
        value: vec![("x".to_string(), num(1.0)), ("y".to_string(), text("b"))],
        position: pos(1, 1),
    };
    let v = obj.eval(&mut stack, false, &h, FUEL).unwrap();
    assert_eq!(v.string(&h), "object (point): {x: 1, y: b}");
    stack.set("p".to_string(), v);
    let mut get = binary(Kind::AccessorOp, ident("p"), ident("x"));
    assert_eq!(number_of(&get.eval(&mut stack, false, &h, FUEL).unwrap()), 1.0);
    let mut missing = binary(Kind::AccessorOp, ident("p"), ident("z"));
    let e = missing.eval(&mut stack, false, &h, FUEL).unwrap_err();
    assert_eq!(e.message, "errors.eval_binary_expr_node_e1");
    assert_eq!(e.reason, ErrorReason::Runtime);
    let mut not_object = binary(Kind::AccessorOp, num(1.0), ident("z"));
    assert_eq!(not_object.eval(&mut stack, false, &h, FUEL).unwrap_err().reason, ErrorReason::System);
}

#[test]
fn field_assignment_gives_the_object_as_it_was() {
    let h = host();
    let mut stack = StackFrame::new();
    let mut obj = Node::ObjectLiteral { name: "p".to_string(), value: vec![("x".to_string(), num(1.0))], position: pos(1, 1) };
    let v = obj.eval(&mut stack, false, &h, FUEL).unwrap();
    stack.set("p".to_string(), v);
    let mut set = binary(Kind::AssignOp, binary(Kind::AccessorOp, ident("p"), ident("x")), num(9.0));
    let r = set.eval(&mut stack, false, &h, FUEL).unwrap();
    assert_eq!(r.string(&h), "object (p): {x: 1}");
    let mut get = binary(Kind::AccessorOp, ident("p"), ident("x"));
    assert_eq!(number_of(&get.eval(&mut stack, false, &h, FUEL).unwrap()), 1.0);
    let mut bad = binary(Kind::AssignOp, binary(Kind::AccessorOp, ident("p"), ident("q")), num(9.0));
    assert_eq!(bad.eval(&mut stack, false, &h, FUEL).unwrap_err().message, "errors.eval_binary_expr_node_e1");
}

#[test]
fn indexing() {
    let mut stack = StackFrame::new();
    stack.set("a".to_string(), Value::Array(Type::Number, vec![Value::Number(n(10.0)), Value::Number(n(20.0))]));
    let mut at = |i: f64, stack: &mut StackFrame| {
        let mut node = Node::IndexingOp { operand: Box::new(ident("a")), index: Box::new(num(i)), position: pos(1, 1) };
        eval(&mut node, stack)
    };
    assert_eq!(number_of(&at(1.0, &mut stack).unwrap()), 20.0);
    assert!(matches!(at(5.0, &mut stack).unwrap(), Value::Empty));
    let e = at(1.5, &mut stack).unwrap_err();
    assert_eq!(e.message, "errors.to_usize_e");
    assert_eq!(e.reason, ErrorReason::Runtime);
    let mut not_array = Node::IndexingOp { operand: Box::new(num(1.0)), index: Box::new(num(0.0)), position: pos(1, 1) };
    assert_eq!(eval(&mut not_array, &mut stack).unwrap_err().message, "errors.eval_e5");
    let mut not_number = Node::IndexingOp { operand: Box::new(ident("a")), index: Box::new(text("x")), position: pos(1, 1) };
    assert_eq!(eval(&mut not_number, &mut stack).unwrap_err().message, "errors.to_number_e");
}

#[test]
fn element_assignment_leaves_the_array() {
    let mut stack = StackFrame::new();
    stack.set("a".to_string(), Value::Array(Type::Number, vec![Value::Number(n(10.0))]));
    let target = Node::IndexingOp { operand: Box::new(ident("a")), index: Box::new(num(3.0)), position: pos(1, 1) };
    let mut set = binary(Kind::AssignOp, target, num(7.0));
    match eval(&mut set, &mut stack).unwrap() {
        Value::Assignment(v) => assert_eq!(number_of(&v), 7.0),
        other => panic!("{:?}", other),
    }
    assert_eq!(numbers_of(&eval(&mut ident("a"), &mut stack).unwrap()), vec![10.0]);
}

#[test]
fn assigning_to_a_value_is_an_error() {
    let h = host();
    let mut stack = StackFrame::new();
    let mut set = binary(Kind::AssignOp, num(3.0), num(4.0));
    let e = set.eval(&mut stack, false, &h, FUEL).unwrap_err();
    assert_eq!(e.message, "errors.eval_binary_expr_node_e3");
    assert_eq!(e.reason, ErrorReason::Runtime);
}

#[test]
fn slicing() {
    let mut stack = StackFrame::new();
    let four = || array(vec![num(1.0), num(2.0), num(3.0), num(4.0)]);
    let slice = |s: Option<f64>, e: Option<f64>| Node::SlicingOp {
        operand: Box::new(four()),
        start_inclusive: s.map(|x| Box::new(num(x))),
        end_exclusive: e.map(|x| Box::new(num(x))),
        position: pos(1, 1),
    };
    assert_eq!(numbers_of(&eval(&mut slice(Some(1.0), None), &mut stack).unwrap()), vec![2.0, 3.0, 4.0]);
    assert_eq!(numbers_of(&eval(&mut slice(None, Some(2.0)), &mut stack).unwrap()), vec![1.0, 2.0]);
    assert_eq!(numbers_of(&eval(&mut slice(Some(1.0), Some(3.0)), &mut stack).unwrap()), vec![2.0, 3.0]);
    let e = eval(&mut slice(None, None), &mut stack).unwrap_err();
    assert_eq!(e.message, "errors.eval_e6");
    assert_eq!(e.reason, ErrorReason::Assert);
}

#[test]
fn arithmetic_and_comparison() {
    let mut stack = StackFrame::new();
    let mut ev = |k: Kind, l: Node, r: Node| eval(&mut binary(k, l, r), &mut stack);
    assert_eq!(number_of(&ev(Kind::AddOp, num(1.0), num(2.0)).unwrap()), 3.0);
    assert_eq!(number_of(&ev(Kind::SubtractOp, num(7.0), num(2.0)).unwrap()), 5.0);
    assert_eq!(number_of(&ev(Kind::MultiplyOp, num(3.0), num(4.0)).unwrap()), 12.0);
    assert_eq!(number_of(&ev(Kind::DivideOp, num(7.0), num(2.0)).unwrap()), 3.5);
    assert_eq!(number_of(&ev(Kind::ModulusOp, num(7.0), num(3.0)).unwrap()), 1.0);
    assert_eq!(number_of(&ev(Kind::LogicalAndOp, num(6.0), num(3.0)).unwrap()), 2.0);
    assert_eq!(number_of(&ev(Kind::LogicalOrOp, num(6.0), num(3.0)).unwrap()), 7.0);
    assert!(matches!(ev(Kind::AddOp, text("a"), text("b")).unwrap(), Value::String(s) if s == "ab"));
    let t = || Node::BoolLiteral { value: true, position: pos(1, 1) };
    let fl = || Node::BoolLiteral { value: false, position: pos(1, 1) };
    assert!(matches!(ev(Kind::AddOp, t(), fl()).unwrap(), Value::Bool(true)));
    assert!(matches!(ev(Kind::MultiplyOp, t(), fl()).unwrap(), Value::Bool(false)));
    assert!(matches!(ev(Kind::LogicalAndOp, t(), fl()).unwrap(), Value::Bool(false)));
    assert!(matches!(ev(Kind::LogicalOrOp, t(), fl()).unwrap(), Value::Bool(true)));
    assert!(matches!(ev(Kind::GreaterThanOp, num(2.0), num(1.0)).unwrap(), Value::Bool(true)));
    assert!(matches!(ev(Kind::LessThanOp, num(2.0), num(1.0)).unwrap(), Value::Bool(false)));
    assert!(matches!(ev(Kind::GreaterThanOp, text("b"), text("a")).unwrap(), Value::Bool(true)));
    assert!(matches!(ev(Kind::LessThanOp, text("ab"), text("b")).unwrap(), Value::Bool(true)));
    assert!(matches!(ev(Kind::LessThanOp, text("a"), text("ab")).unwrap(), Value::Bool(true)));
    assert!(matches!(ev(Kind::EqualOp, num(1.0), num(1.0)).unwrap(), Value::Bool(true)));
    assert!(matches!(ev(Kind::EqualOp, text("a"), text("b")).unwrap(), Value::Bool(false)));
    assert!(matches!(ev(Kind::EqualOp, num(1.0), text("1")).unwrap(), Value::Bool(false)));
    let joined = ev(Kind::AddOp, array(vec![num(1.0)]), array(vec![num(2.0)])).unwrap();
    assert_eq!(numbers_of(&joined), vec![1.0, 2.0]);
}

#[test]
fn binary_errors() {
    let mut stack = StackFrame::new();
    let mut ev = |k: Kind, l: Node, r: Node| eval(&mut binary(k, l, r), &mut stack).unwrap_err();
    let e = ev(Kind::DivideOp, num(1.0), num(0.0));
    assert_eq!(e.message, "division by zero: 0");
    assert_eq!(e.reason, ErrorReason::Runtime);
    assert_eq!(ev(Kind::ModulusOp, num(1.0), num(0.0)).message, "errors.eval_binary_expr_node_e9");
    let e = ev(Kind::AddOp, num(1.0), text("a"));
    assert_eq!(e.message, "errors.eval_binary_expr_node_e17");
    assert_eq!(e.reason, ErrorReason::Runtime);
    let empty = || Node::EmptyLiteral(pos(1, 1));
    let e = ev(Kind::AddOp, empty(), num(1.0));
    assert_eq!(e.message, "errors.eval_binary_expr_node_e4");
    assert_eq!(e.reason, ErrorReason::Syntax);
    assert_eq!(ev(Kind::SubtractOp, empty(), num(1.0)).message, "errors.eval_binary_expr_node_e5");
    assert_eq!(ev(Kind::MultiplyOp, empty(), num(1.0)).message, "errors.eval_binary_expr_node_e6");
    assert_eq!(ev(Kind::DivideOp, empty(), num(1.0)).message, "errors.eval_binary_expr_node_e8");
    assert_eq!(ev(Kind::ModulusOp, empty(), num(1.0)).message, "errors.eval_binary_expr_node_e10");
    let e = ev(Kind::LogicalAndOp, num(1.5), num(1.0));
    assert_eq!(e.message, "errors.eval_binary_expr_node_e11");
    assert_eq!(e.reason, ErrorReason::Runtime);
    assert_eq!(ev(Kind::LogicalAndOp, empty(), num(1.0)).message, "errors.eval_binary_expr_node_e12");
    assert_eq!(ev(Kind::LogicalOrOp, num(1.5), num(1.0)).message, "errors.eval_binary_expr_node_e13");
    assert_eq!(ev(Kind::LogicalOrOp, empty(), num(1.0)).message, "errors.eval_binary_expr_node_e14");
    assert_eq!(ev(Kind::GreaterThanOp, empty(), num(1.0)).message, "errors.eval_binary_expr_node_e15");
    let e = ev(Kind::FunctionArrow, num(1.0), num(1.0));
    assert_eq!(e.message, "errors.eval_binary_expr_node_e16");
    assert_eq!(e.reason, ErrorReason::Assert);
}

fn adder() -> Node {
    let param = |name: &str| (ident(name), ident("number"));
    Node::FunctionLiteral {
        sign: (Box::new(ident("add")), vec![param("a"), param("b")], Box::new(ident("number"))),
        body: vec![binary(Kind::AddOp, ident("a"), ident("b"))],
        position: pos(1, 1),
    }
}

fn call(name: &str, args: Vec<Node>) -> Node {
    Node::FunctionCall { function: Box::new(ident(name)), arguments: args, position: pos(1, 1) }
}

#[test]
fn defining_and_calling_a_function() {
    let h = host();
    let mut stack = StackFrame::new();
    let mut def = adder();
    assert!(matches!(def.eval(&mut stack, false, &h, FUEL).unwrap(), Value::Empty));
    assert!(matches!(stack.get(&"add".to_string()), Some(Value::Function(_))));
    let mut c = call("add", vec![num(1.0), num(2.0)]);
    assert_eq!(number_of(&c.eval(&mut stack, false, &h, FUEL).unwrap()), 3.0);
    assert_eq!(stack.frames.len(), 1);
    let mut put_off = call("add", vec![num(1.0), num(2.0)]);
    assert!(matches!(put_off.eval(&mut stack, true, &h, FUEL).unwrap(), Value::FunctionCallThunk { .. }));
    assert_eq!(stack.frames.len(), 1);
}

#[test]
fn call_errors() {
    let h = host();
    let mut stack = StackFrame::new();
    adder().eval(&mut stack, false, &h, FUEL).unwrap();
    let mut wrong = call("add", vec![text("x"), num(2.0)]);
    let e = wrong.eval(&mut stack, false, &h, FUEL).unwrap_err();
    assert_eq!(e.message, "errors.eval_speak_function_e1");
    assert_eq!(e.reason, ErrorReason::Runtime);
    stack.set("k".to_string(), Value::Number(n(1.0)));
    let mut not_fn = call("k", vec![]);
    let e = not_fn.eval(&mut stack, false, &h, FUEL).unwrap_err();
    assert_eq!(e.message, "errors.eval_speak_function_e4");
    let mut unnamed = Node::FunctionLiteral {
        sign: (Box::new(num(1.0)), vec![], Box::new(ident("number"))),
        body: vec![],
        position: pos(1, 1),
    };
    assert_eq!(unnamed.eval(&mut stack, false, &h, FUEL).unwrap_err().message, "errors.eval_e7");
    let mut no_return = Node::FunctionLiteral {
        sign: (Box::new(ident("f")), vec![], Box::new(ident("number"))),
        body: vec![text("x")],
        position: pos(1, 1),
    };
    no_return.eval(&mut stack, false, &h, FUEL).unwrap();
    let e = call("f", vec![]).eval(&mut stack, false, &h, FUEL).unwrap_err();
    assert_eq!(e.message, "errors.unwrap_thunk_e1");
}

#[test]
fn native_functions_answer_calls() {
    let h = host();
    let mut stack = with_natives();
    let mut c = call("sprint", vec![text("abc")]);
    assert!(matches!(c.eval(&mut stack, false, &h, FUEL).unwrap(), Value::String(s) if s == "abc"));
    stack.set("nope".to_string(), Value::NativeFunction(NativeFn("nope".to_string())));
    let e = call("nope", vec![]).eval(&mut stack, false, &h, FUEL).unwrap_err();
    assert_eq!(e.message, "no native nope");
}

#[test]
fn if_expressions() {
    let mut stack = StackFrame::new();
    let cond = |c: Node, t: Option<Node>, f: Option<Node>| Node::IfExpr {
        condition: Box::new(c),
        on_true: t.map(Box::new),
        on_false: f.map(Box::new),
        position: pos(1, 1),
    };
    let t = Node::BoolLiteral { value: true, position: pos(1, 1) };
    assert_eq!(number_of(&eval(&mut cond(t, Some(num(1.0)), Some(num(2.0))), &mut stack).unwrap()), 1.0);
    assert_eq!(number_of(&eval(&mut cond(text(""), Some(num(1.0)), Some(num(2.0))), &mut stack).unwrap()), 1.0);
    assert_eq!(number_of(&eval(&mut cond(text("x"), Some(num(1.0)), Some(num(2.0))), &mut stack).unwrap()), 2.0);
    assert!(matches!(eval(&mut cond(text("x"), Some(num(1.0)), None), &mut stack).unwrap(), Value::Empty));
    let e = eval(&mut cond(num(1.0), None, None), &mut stack).unwrap_err();
    assert_eq!(e.message, "errors.eval_if_expr_node_e1");
    assert_eq!(e.reason, ErrorReason::Runtime);
}

#[test]
fn a_function_value_prints_cut() {
    let h = host();
    let long = "x".repeat(200);
    let f = Function {
        defn: Node::FunctionLiteral {
            sign: (Box::new(ident(&long)), vec![], Box::new(ident("number"))),
            body: vec![],
            position: pos(1, 1),
        },
    };
    let s = f.string(&h);
    assert_eq!(s.len(), 122);
    assert!(s.ends_with(".."));
    let short = Function { defn: adder() };
    assert_eq!(short.string(&h), "add(a number, b number) number { (a + b) }");
}

#[test]
fn reading_leaves_the_stack() {
    let mut stack = StackFrame::new();
    stack.set("x".to_string(), Value::Number(n(4.0)));
    let mut node = ident("x");
    assert_eq!(number_of(&eval(&mut node, &mut stack).unwrap()), 4.0);
    assert_eq!(stack.frames.len(), 1);
    assert_eq!(stack.frames[0].0.len(), 1);
    assert!(matches!(node, Node::Identifier { ref value, .. } if value == "x"));
}

#[test]
fn a_field_named_twice_is_held_once() {
    let h = host();
    let mut stack = StackFrame::new();
    let mut obj = Node::ObjectLiteral {
        name: "p".to_string(),
        value: vec![("x".to_string(), num(1.0)), ("x".to_string(), num(2.0))],
        position: pos(1, 1),
    };
    match obj.eval(&mut stack, false, &h, FUEL).unwrap() {
        Value::Object { name, body } => {
            assert_eq!(name, "p");
            assert_eq!(body.len(), 1);
            assert_eq!(body[0].0, "x");
            assert_eq!(body[0].1.0, Type::Number);
            assert_eq!(number_of(&body[0].1.1), 2.0);
        },
        other => panic!("{:?}", other),
    }
}

#[test]
fn nested_calls_leave_the_stack_as_deep_as_they_found_it() {
    let h = host();
    let mut stack = StackFrame::new();
    adder().eval(&mut stack, false, &h, FUEL).unwrap();
    let twice = Node::FunctionLiteral {
        sign: (Box::new(ident("twice")), vec![(ident("a"), ident("number"))], Box::new(ident("number"))),
        body: vec![
            binary(Kind::AssignOp, ident("b"), call("add", vec![ident("a"), ident("a")])),
            call("add", vec![ident("b"), ident("b")]),
        ],
        position: pos(1, 1),
    };
    let mut def = twice;
    def.eval(&mut stack, false, &h, FUEL).unwrap();
    let mut c = call("twice", vec![num(3.0)]);
    assert_eq!(number_of(&c.eval(&mut stack, false, &h, FUEL).unwrap()), 12.0);
    assert_eq!(stack.frames.len(), 1);
    assert!(stack.get(&"b".to_string()).is_none());
}

#[test]
fn slices_keep_the_element_type() {
    let mut stack = StackFrame::new();
    let mut node = Node::SlicingOp {
        operand: Box::new(array(vec![text("a"), text("b"), text("c")])),
        start_inclusive: Some(Box::new(num(1.0))),
        end_exclusive: None,
        position: pos(1, 1),
    };
    match eval(&mut node, &mut stack).unwrap() {
        Value::Array(t, vals) => {
            assert_eq!(t, Type::String);
            assert_eq!(vals.len(), 2);
        },
        other => panic!("{:?}", other),
    }
}

#[test]
fn native_functions_may_change_the_stack() {
    let h = host();
    let mut stack = with_natives();
    stack.set("remember".to_string(), Value::NativeFunction(NativeFn("remember".to_string())));
    let mut c = call("remember", vec![num(8.0)]);
    assert!(matches!(c.eval(&mut stack, false, &h, FUEL).unwrap(), Value::Empty));
    assert_eq!(number_of(stack.get(&"memo".to_string()).unwrap()), 8.0);
}
