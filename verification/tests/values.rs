use speak_core::error::{Error, ErrorReason};
use speak_core::host::{Host, NumOp, NumOut};
use speak_core::i18n::Catalog;
use speak_core::node::{Kind, Node, Position};
use speak_core::stack::StackFrame;
use speak_core::types::Type;
use speak_core::value::{Function, NativeFn, VTable, Value};

fn f(bits: u64) -> f64 {
    f64::from_bits(bits)
}

fn n(x: f64) -> u64 {
    x.to_bits()
}

fn arithmetic(op: NumOp) -> NumOut {
    match op {
        NumOp::Neg(a) => NumOut::Num(n(-f(a))),
        NumOp::Add(a, b) => NumOut::Num(n(f(a) + f(b))),
        NumOp::Sub(a, b) => NumOut::Num(n(f(a) - f(b))),
        NumOp::Mul(a, b) => NumOut::Num(n(f(a) * f(b))),
        NumOp::Div(a, b) => NumOut::Num(n(f(a) / f(b))),
        NumOp::Rem(a, b) => NumOut::Num(n(f(a) % f(b))),
        NumOp::BitAnd(a, b) => NumOut::Num(n((f(a) as i64 & f(b) as i64) as f64)),
        NumOp::BitOr(a, b) => NumOut::Num(n((f(a) as i64 | f(b) as i64) as f64)),
        NumOp::Greater(a, b) => NumOut::Truth(f(a) > f(b)),
        NumOp::Less(a, b) => NumOut::Truth(f(a) < f(b)),
        NumOp::Equal(a, b) => NumOut::Truth(f(a) == f(b)),
        NumOp::IsZero(a) => NumOut::Truth(f(a) == 0f64),
        NumOp::IsIntable(a) => NumOut::Truth(f(a) == f(a).trunc()),
        NumOp::ToIndex(a) => NumOut::Index(f(a) as usize),
        NumOp::Render(a) => NumOut::Text(f(a).to_string()),
    }
}

fn natives(name: String, args: Vec<Value>, mut stack: StackFrame) -> (StackFrame, Result<Value, Error>) {
    let answer = match name.as_str() {
        "println" => Ok(Value::Empty),
        "sprint" => match args.first() {
            Some(Value::String(s)) => Ok(Value::String(s.clone())),
            _ => Ok(Value::String(String::new())),
        },
        "remember" => {
            let first = args.into_iter().next().unwrap_or(Value::Empty);
            stack.set("memo".to_string(), first);
            Ok(Value::Empty)
        },
        _ => Err(Error { message: format!("no native {}", name), reason: ErrorReason::Runtime }),
    };
    (stack, answer)
}

fn catalog() -> Catalog {
    let mut cat = Catalog::new("en");
    let pairs: Vec<(String, String)> = vec![
        ("types.number", "number"),
        ("types.bool", "bool"),
        ("types.string", "string"),
        ("types.function", "function"),
        ("types.object", "object"),
        ("types.array", "array"),
        ("types.native_function", "native function"),
        ("misc.of", "of"),
        ("errors.eval_e2", "%{a} is not defined [%{b}]"),
        ("errors.eval_binary_expr_node_e7", "division by zero: %{a}"),
    ]
    .into_iter()
    .map(|(k, v)| (k.to_string(), v.to_string()))
    .collect();
    cat.add_translations("en", &pairs);
    cat
}

fn host() -> Host<fn(NumOp) -> NumOut, fn(String, Vec<Value>, StackFrame) -> (StackFrame, Result<Value, Error>)> {
    Host { cat: catalog(), num: arithmetic, native: natives }
}

fn pos(line: usize, column: usize) -> Position {
    Position { line, column }
}

fn num(x: f64) -> Node {
    Node::NumberLiteral { value: n(x), position: pos(1, 1) }
}

fn text(s: &str) -> Node {
    Node::StringLiteral { value: s.to_string(), position: pos(1, 1) }
}

fn ident(s: &str) -> Node {
    Node::Identifier { value: s.to_string(), position: pos(1, 1) }
}

fn binary(operator: Kind, l: Node, r: Node) -> Node {
    Node::BinaryExpression {
        operator,
        left_operand: Box::new(l),
        right_operand: Box::new(r),
        position: pos(1, 1),
    }
}

#[test]
fn type_names() {
    let cat = catalog();
    assert_eq!(Type::Number.string(&cat), "number");
    assert_eq!(Type::Bool.string(&cat), "bool");
    assert_eq!(Type::String.string(&cat), "string");
    assert_eq!(Type::Function.string(&cat), "function");
    assert_eq!(Type::Empty.string(&cat), "()");
    assert_eq!(Type::Object("point".to_string()).string(&cat), "object: point");
    assert_eq!(Type::Array(Box::new(Type::Number)).string(&cat), "[]number");
    assert_eq!(Type::Array(Box::new(Type::Empty)).string(&cat), "[]()");
}

#[test]
fn names_read_back_as_types() {
    let cat = catalog();
    for t in [Type::Number, Type::Bool, Type::String, Type::Function, Type::Empty] {
        let back = Type::to_type(&t.string(&cat), &cat);
        assert!(back.same(&t));
    }
    assert!(Type::to_type("point", &cat).same(&Type::Object("point".to_string())));
    assert!(!Type::to_type("[]number", &cat).same(&Type::Array(Box::new(Type::Number))));
}

#[test]
fn type_names_follow_the_catalog() {
    let mut cat = Catalog::new("fr");
    let pairs = vec![("types.number".to_string(), "nombre".to_string())];
    cat.add_translations("fr", &pairs);
    assert_eq!(Type::Number.string(&cat), "nombre");
    assert!(Type::to_type("nombre", &cat).same(&Type::Number));
    assert_eq!(Type::Bool.string(&cat), "types.bool");
}

#[test]
fn value_types() {
    let cat = catalog();
    assert!(Value::Number(n(1.0)).value_type().same(&Type::Number));
    assert!(Value::Bool(true).value_type().same(&Type::Bool));
    assert!(Value::String("s".to_string()).value_type().same(&Type::String));
    let obj = Value::Object { name: "p".to_string(), body: vec![] };
    assert!(obj.value_type().same(&Type::Object("p".to_string())));
    let arr = Value::Array(Type::Bool, vec![]);
    assert_eq!(arr.value_type().string(&cat), "[]bool");
    assert!(Value::NativeFunction(NativeFn("f".to_string())).value_type().same(&Type::Function));
    let assigned = Value::Assignment(Box::new(Value::String("s".to_string())));
    assert!(assigned.value_type().same(&Type::String));
    assert!(Value::Empty.value_type().same(&Type::Empty));
}

#[test]
fn value_equality() {
    let h = host();
    assert!(Value::Number(n(2.0)).equals(Value::Number(n(2.0)), &h));
    assert!(!Value::Number(n(2.0)).equals(Value::Number(n(3.0)), &h));
    assert!(!Value::Number(n(f64::NAN)).equals(Value::Number(n(f64::NAN)), &h));
    assert!(Value::Bool(false).equals(Value::Bool(false), &h));
    assert!(Value::String("a".to_string()).equals(Value::String("a".to_string()), &h));
    assert!(Value::Empty.equals(Value::Empty, &h));
    assert!(!Value::Number(n(1.0)).equals(Value::String("1".to_string()), &h));
    let obj = || Value::Object { name: "p".to_string(), body: vec![] };
    assert!(!obj().equals(obj(), &h));
}

#[test]
fn value_texts() {
    let h = host();
    assert_eq!(Value::Number(n(2.5)).string(&h), "2.5");
    assert_eq!(Value::Number(n(3.0)).string(&h), "3");
    assert_eq!(Value::Bool(true).string(&h), "true");
    assert_eq!(Value::String("s".to_string()).string(&h), "s");
    assert_eq!(Value::Empty.string(&h), "");
    let arr = Value::Array(Type::Number, vec![Value::Number(n(1.0)), Value::Number(n(2.0))]);
    assert_eq!(arr.string(&h), "array ([]number): [1, 2]");
    assert_eq!(Value::NativeFunction(NativeFn("len".to_string())).string(&h), "native function (len)");
    let assigned = Value::Assignment(Box::new(Value::Bool(false)));
    assert_eq!(assigned.string(&h), "false");
    let f = Function {
        defn: Node::FunctionLiteral {
            sign: (Box::new(ident("id")), vec![], Box::new(ident("number"))),
            body: vec![num(1.0)],
            position: pos(1, 1),
        },
    };
    let thunk = Value::FunctionCallThunk { vt: VTable(vec![]), func: f };
    assert_eq!(thunk.string(&h), "Thunk of (id() number { 1 })");
}

#[test]
fn node_texts() {
    let h = host();
    let node = binary(Kind::AddOp, ident("a"), num(2.0));
    assert_eq!(node.string(&h), "(a + 2)");
    let idx = Node::IndexingOp { operand: Box::new(ident("a")), index: Box::new(num(0.0)), position: pos(1, 1) };
    assert_eq!(idx.string(&h), "a[0]");
    assert_eq!(Position { line: 4, column: 12 }.string(), "4:12");
    assert_eq!(Kind::EqualOp.string(), "==");
}

#[test]
fn stack_reads_and_writes() {
    let mut stack = StackFrame::new();
    assert!(stack.get(&"x".to_string()).is_none());
    stack.set("x".to_string(), Value::Bool(true));
    stack.set("y".to_string(), Value::Bool(false));
    stack.set("x".to_string(), Value::Bool(false));
    assert!(matches!(stack.get(&"x".to_string()), Some(Value::Bool(false))));
    assert!(matches!(stack.get(&"y".to_string()), Some(Value::Bool(false))));
    assert_eq!(stack.frames[0].0.len(), 2);
}

#[test]
fn inner_frames_hide_outer_ones() {
    let mut stack = StackFrame::new();
    stack.set("x".to_string(), Value::Bool(true));
    stack.push_frame(VTable(vec![("x".to_string(), Value::Bool(false))]));
    assert!(matches!(stack.get(&"x".to_string()), Some(Value::Bool(false))));
    assert!(stack.pop_frame());
    assert!(matches!(stack.get(&"x".to_string()), Some(Value::Bool(true))));
    assert!(stack.pop_frame());
    assert!(!stack.pop_frame());
    assert_eq!(stack.frames.len(), 0);
}

#[test]
fn updates_reach_the_frame_that_has_the_name() {
    let mut stack = StackFrame::new();
    stack.set("x".to_string(), Value::Bool(true));
    stack.push_frame(VTable(vec![]));
    assert!(stack.up(&"x".to_string(), &Value::Bool(false)));
    assert_eq!(stack.frames[1].0.len(), 0);
    assert!(matches!(stack.get(&"x".to_string()), Some(Value::Bool(false))));
    assert!(!stack.up(&"nope".to_string(), &Value::Empty));
}

#[test]
fn catalog_lookups() {
    let mut cat = Catalog::new("en");
    assert_eq!(cat.tr("greeting"), "greeting");
    cat.add_translations("en", &vec![("greeting".to_string(), "Hello, %{a}!".to_string())]);
    cat.add_translations("de", &vec![("greeting".to_string(), "Hallo".to_string())]);
    assert_eq!(cat.tr("greeting"), "Hello, %{a}!");
    let filled = cat.tr_with("greeting", &vec!["a".to_string()], &vec!["World".to_string()]);
    assert_eq!(filled, Some("Hello, World!".to_string()));
    let unknown = cat.tr_with("missing %{a}", &vec!["a".to_string()], &vec!["x".to_string()]);
    assert_eq!(unknown, Some("missing x".to_string()));
    cat.add_translations("en", &vec![("greeting".to_string(), "Hi".to_string())]);
    assert_eq!(cat.tr("greeting"), "Hi");
}

#[test]
fn errors_carry_their_reason() {
    let e = Error { message: "m".to_string(), reason: ErrorReason::Assert };
    let c = e.clone();
    assert_eq!(c.message, "m");
    assert_eq!(c.reason, ErrorReason::Assert);
}

#[test]
fn types_compare_by_content() {
    assert_eq!(Type::Array(Box::new(Type::Object("p".to_string()))), Type::Array(Box::new(Type::Object("p".to_string()))));
    assert_ne!(Type::Object("p".to_string()), Type::Object("q".to_string()));
    assert_ne!(Type::Number, Type::Bool);
    assert_eq!(Value::Bool(true).value_type(), Type::Bool);
}

#[test]
fn string_order_is_strict() {
    let mut stack = StackFrame::new();
    let h = host();
    let mut less = |a: &str, b: &str| {
        let mut node = binary(Kind::LessThanOp, text(a), text(b));
        matches!(node.eval(&mut stack, false, &h, 10).unwrap(), Value::Bool(true))
    };
    assert!(!less("abc", "abc"));
    assert!(less("abc", "abd"));
    assert!(!less("abd", "abc"));
    assert!(less("", "a"));
    assert!(!less("a", ""));
    assert!(less("Z", "a"));
}

#[test]
fn lookups_fall_back_to_parent_and_fallback_locales() {
    let mut cat = Catalog::new("zh-Hant-CN");
    cat.add_translations("zh", &vec![("hi".to_string(), "ni hao".to_string())]);
    cat.add_translations("en", &vec![("bye".to_string(), "goodbye".to_string())]);
    assert_eq!(cat.tr("hi"), "ni hao");
    assert_eq!(cat.tr("bye"), "bye");
    cat.set_fallback(vec!["fr".to_string(), "en".to_string()]);
    assert_eq!(cat.tr("bye"), "goodbye");
    cat.add_translations("zh-Hant", &vec![("hi".to_string(), "nei hou".to_string())]);
    assert_eq!(cat.tr("hi"), "nei hou");
    let mut private = Catalog::new("de-x-a");
    private.add_translations("de", &vec![("k".to_string(), "v".to_string())]);
    assert_eq!(private.tr("k"), "v");
}

#[test]
fn templates_that_filling_would_cut_are_not_filled() {
    let mut cat = Catalog::new("en");
    cat.add_translations("en", &vec![("cut".to_string(), "%\u{e9}{a}".to_string())]);
    let names = vec!["a".to_string()];
    let values = vec!["x".to_string()];
    assert_eq!(cat.tr_with("cut", &names, &values), None);
    assert_eq!(cat.tr_with("caf\u{e9} %{a}", &names, &values), Some("caf\u{e9} x".to_string()));
    assert_eq!(cat.tr_with("\u{e9}{a} %{a}", &names, &values), Some("\u{e9}{a} x".to_string()));
}

#[test]
fn an_error_text_that_cannot_be_filled_is_given_unfilled() {
    let mut h = host();
    h.cat.add_translations("en", &vec![("errors.eval_e2".to_string(), "%\u{e9}{a}".to_string())]);
    let mut stack = StackFrame::new();
    let mut node = ident("nope");
    let e = node.eval(&mut stack, false, &h, 10).unwrap_err();
    assert_eq!(e.message, "%\u{e9}{a}");
}
