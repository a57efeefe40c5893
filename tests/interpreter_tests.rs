use elium::ast::{ASTNode, Expr, Value};
use elium::error::Error;
use elium::interpreter::{apply_binary, input_line_value, Flow, Interpreter};
use elium::lexer::{Lexer, Token};
use elium::parser::Parser;
use elium::scope::Scope;

fn num(n: i64) -> Expr {
    Expr::Literal(Value::Number(n))
}

fn text(s: &str) -> Expr {
    Expr::Literal(Value::Text(s.to_string()))
}

fn var(s: &str) -> Expr {
    Expr::Variable(s.to_string())
}

fn assign(name: &str, e: Expr) -> ASTNode {
    ASTNode::Variable(name.to_string(), Box::new(e))
}

fn msg(s: &str) -> ASTNode {
    ASTNode::Msg(s.to_string())
}

fn op(l: Expr, o: &str, r: Expr) -> Expr {
    Expr::BinaryOp(Box::new(l), o.to_string(), Box::new(r))
}

fn runtime(m: &str) -> Error {
    Error::Runtime(m.to_string())
}

fn program(src: &str) -> Vec<ASTNode> {
    let mut lexer = Lexer::new(src);
    let mut tokens: Vec<Token> = Vec::new();
    while let Some(t) = lexer.next_token() {
        tokens.push(t.unwrap());
    }
    match Parser::new(tokens).parse() {
        Ok(ASTNode::Program(s)) => s,
        other => panic!("not a program: {:?}", other),
    }
}

fn lines(i: &Interpreter) -> Vec<String> {
    i.output().clone()
}

#[test]
fn test_boolean_expression() {
    let mut interpreter = Interpreter::new();
    let stmts = vec![
        assign("x", Expr::Literal(Value::Boolean(true))),
        ASTNode::If(var("x"), vec![msg("Condition met")], vec![msg("Condition not met")]),
    ];
    interpreter.interpret(stmts).unwrap();
    assert_eq!(lines(&interpreter), vec!["Condition met".to_string()]);
}

#[test]
fn literal_evaluates_to_its_number() {
    for n in [0i64, 7, 42, i64::MAX] {
        let mut i = Interpreter::new();
        let src = format!("x = {}", n);
        assert_eq!(i.interpret(program(&src)), Ok(Flow::Completed));
        assert_eq!(i.scope.get("x"), Some(Value::Number(n)));
    }
}

#[test]
fn assignment_then_reassignment() {
    let mut i = Interpreter::new();
    i.interpret(program("x = 5")).unwrap();
    assert_eq!(i.scope.get("x"), Some(Value::Number(5)));
    i.interpret(program("x = 7")).unwrap();
    assert_eq!(i.scope.get("x"), Some(Value::Number(7)));
}

#[test]
fn parameter_shadows_caller_variable() {
    let mut i = Interpreter::new();
    let r = i.interpret(program(
        "a = 1 function (name=f, a) { a = a + 100 b = a } f(5) c = a",
    ));
    assert_eq!(r, Ok(Flow::Completed));
    assert_eq!(i.scope.get("a"), Some(Value::Number(1)));
    assert_eq!(i.scope.get("c"), Some(Value::Number(1)));
    assert_eq!(i.scope.get("b"), None);
}

#[test]
fn callee_sees_caller_variables() {
    let mut i = Interpreter::new();
    let stmts = program("g = 10 function (name=f, a) { msg \"in\" h = a + g } f(1)");
    assert_eq!(i.interpret(stmts), Ok(Flow::Completed));
    assert_eq!(lines(&i), vec!["in".to_string()]);
    assert_eq!(i.scope.get("h"), None);
}

#[test]
fn division_by_zero_is_a_runtime_error() {
    let mut i = Interpreter::new();
    let r = i.interpret(vec![assign("q", op(num(10), "/", num(0)))]);
    assert_eq!(r, Err(runtime("Division by zero")));
    assert_eq!(i.scope.get("q"), None);
}

#[test]
fn division_truncates_toward_zero() {
    let mut i = Interpreter::new();
    let r = i.interpret(vec![
        assign("q", op(num(10), "/", num(3))),
        assign("n", op(num(-7), "/", num(2))),
        assign("m", op(num(7), "/", num(-2))),
    ]);
    assert_eq!(r, Ok(Flow::Completed));
    assert_eq!(i.scope.get("q"), Some(Value::Number(3)));
    assert_eq!(i.scope.get("n"), Some(Value::Number(-3)));
    assert_eq!(i.scope.get("m"), Some(Value::Number(-3)));
}

#[test]
fn arity_mismatch_names_function_and_counts() {
    let def = "function (name=add, a, b) { s = a + b } ";
    let mut one = Interpreter::new();
    assert_eq!(
        one.interpret(program(&format!("{}add(1)", def))),
        Err(runtime("Function add expected 2 arguments, but got 1"))
    );
    let mut three = Interpreter::new();
    assert_eq!(
        three.interpret(program(&format!("{}add(1, 2, 3)", def))),
        Err(runtime("Function add expected 2 arguments, but got 3"))
    );
    let mut two = Interpreter::new();
    assert_eq!(two.interpret(program(&format!("{}add(1, 2)", def))), Ok(Flow::Completed));
}

#[test]
fn if_true_runs_only_then_branch() {
    let mut i = Interpreter::new();
    let stmt = ASTNode::If(Expr::Literal(Value::Boolean(true)), vec![msg("A")], vec![msg("B")]);
    assert_eq!(i.interpret(vec![stmt]), Ok(Flow::Completed));
    assert_eq!(lines(&i), vec!["A".to_string()]);
}

#[test]
fn if_false_runs_else_branch() {
    let mut i = Interpreter::new();
    let stmt = ASTNode::If(Expr::Literal(Value::Boolean(false)), vec![msg("A")], vec![msg("B")]);
    assert_eq!(i.interpret(vec![stmt]), Ok(Flow::Completed));
    assert_eq!(lines(&i), vec!["B".to_string()]);
}

#[test]
fn if_on_a_non_boolean_runs_else_branch() {
    let mut i = Interpreter::new();
    assert_eq!(i.interpret(program("if (1) { msg \"A\" } else { msg \"B\" }")), Ok(Flow::Completed));
    assert_eq!(lines(&i), vec!["B".to_string()]);
}

#[test]
fn example_program_prints_done_and_exits() {
    let stmts = program("package demo\nx = 1 + 2\nmsg \"done\"\nexit\nmsg \"after\"\ny = 1");
    assert_eq!(stmts.len(), 6);
    let mut i = Interpreter::new();
    assert_eq!(i.interpret(stmts), Ok(Flow::Exited));
    assert_eq!(lines(&i), vec!["done".to_string(), "Exiting program.".to_string()]);
    assert_eq!(i.scope.get("x"), Some(Value::Number(3)));
    assert_eq!(i.scope.get("y"), None);
}

#[test]
fn exit_inside_a_function_stops_everything() {
    let mut i = Interpreter::new();
    let def = ASTNode::Function("f".to_string(), vec![], vec![ASTNode::Exit, msg("no")]);
    let call = ASTNode::FunctionCall("f".to_string(), vec![]);
    assert_eq!(i.interpret(vec![def, call, msg("never")]), Ok(Flow::Exited));
    assert_eq!(lines(&i), vec!["Exiting program.".to_string()]);
}

#[test]
fn undefined_variable_stops_the_run() {
    let mut i = Interpreter::new();
    let r = i.interpret(program("msg \"a\" x = y msg \"b\""));
    assert_eq!(r, Err(runtime("Undefined variable: y")));
    assert_eq!(lines(&i), vec!["a".to_string()]);
}

#[test]
fn undefined_function_stops_the_run() {
    let mut i = Interpreter::new();
    let r = i.interpret(program("f(1) msg \"b\""));
    assert_eq!(r, Err(runtime("Function f not found")));
    assert!(lines(&i).is_empty());
}

#[test]
fn functions_are_not_hoisted() {
    let mut i = Interpreter::new();
    let r = i.interpret(program("f() function (name=f) { msg \"x\" }"));
    assert_eq!(r, Err(runtime("Function f not found")));
}

#[test]
fn redefinition_replaces_a_function() {
    let mut i = Interpreter::new();
    let r = i.interpret(program(
        "function (name=f) { msg \"one\" } function (name=f) { msg \"two\" } f()",
    ));
    assert_eq!(r, Ok(Flow::Completed));
    assert_eq!(lines(&i), vec!["two".to_string()]);
}

#[test]
fn call_in_an_expression_yields_nil() {
    let mut i = Interpreter::new();
    let r = i.interpret(program("function (name=f) { msg \"ran\" } v = f()"));
    assert_eq!(r, Ok(Flow::Completed));
    assert_eq!(i.scope.get("v"), Some(Value::Nil));
    assert_eq!(lines(&i), vec!["ran".to_string()]);
}

#[test]
fn unbounded_recursion_is_reported() {
    let mut i = Interpreter::new();
    let r = i.interpret(program("function (name=f) { f() } f()"));
    assert_eq!(r, Err(runtime("Maximum call depth exceeded")));
}

#[test]
fn text_concatenation() {
    let mut i = Interpreter::new();
    i.interpret(program("s = \"ab\" + \"cd\"")).unwrap();
    assert_eq!(i.scope.get("s"), Some(Value::Text("abcd".to_string())));
}

#[test]
fn number_arithmetic_and_comparisons() {
    let n = |x: i64| Value::Number(x);
    let o = |s: &str| s.to_string();
    assert_eq!(apply_binary(&n(2), &o("+"), &n(3)), Ok(n(5)));
    assert_eq!(apply_binary(&n(2), &o("-"), &n(3)), Ok(n(-1)));
    assert_eq!(apply_binary(&n(4), &o("*"), &n(-3)), Ok(n(-12)));
    assert_eq!(apply_binary(&n(4), &o(">"), &n(3)), Ok(Value::Boolean(true)));
    assert_eq!(apply_binary(&n(4), &o("<"), &n(3)), Ok(Value::Boolean(false)));
    assert_eq!(apply_binary(&n(4), &o("=="), &n(4)), Ok(Value::Boolean(true)));
}

#[test]
fn arithmetic_overflow_is_a_runtime_error() {
    let m = Value::Number(i64::MAX);
    let r = apply_binary(&m, &"+".to_string(), &Value::Number(1));
    assert!(matches!(r, Err(elium::interpreter::Halt::Fail(Error::Runtime(ref s))) if s == "Arithmetic overflow"));
    let r = apply_binary(&Value::Number(i64::MIN), &"/".to_string(), &Value::Number(-1));
    assert!(matches!(r, Err(elium::interpreter::Halt::Fail(Error::Runtime(ref s))) if s == "Arithmetic overflow"));
}

#[test]
fn invalid_operation_names_values_and_operator() {
    let mut i = Interpreter::new();
    let r = i.interpret(vec![assign("z", op(num(1), "+", text("a")))]);
    assert_eq!(r, Err(runtime("Invalid operation for 1 and a with operator +")));
    let mut j = Interpreter::new();
    let r = j.interpret(vec![assign("z", op(text("a"), "-", text("b")))]);
    assert_eq!(r, Err(runtime("Invalid operation for a and b with operator -")));
}

#[test]
fn values_render_as_text() {
    let arr = Value::Array(vec![Value::Number(1), Value::Text("x".to_string()), Value::Nil]);
    assert_eq!(arr.render(), "[1, x, None]");
    let dict = Value::Dict(vec![
        ("a".to_string(), Value::Boolean(true)),
        ("b".to_string(), Value::Array(vec![])),
    ]);
    assert_eq!(dict.render(), "{a: true, b: []}");
    assert_eq!(Value::Number(-45).render(), "-45");
    assert_eq!(Value::Number(i64::MIN).render(), "-9223372036854775808");
}

#[test]
fn duplicate_copies_nested_values() {
    let v = Value::Dict(vec![("k".to_string(), Value::Array(vec![Value::Number(3)]))]);
    assert_eq!(v.duplicate(), v);
}

#[test]
fn input_reads_numbers_and_text() {
    let mut i = Interpreter::with_input(vec!["  42 \n".to_string(), " Ann\r\n".to_string()]);
    let r = i.interpret(vec![
        assign("a", Expr::Input("Age?".to_string())),
        assign("b", Expr::Input("Name?".to_string())),
        assign("c", Expr::Input("More?".to_string())),
    ]);
    assert_eq!(r, Ok(Flow::Completed));
    assert_eq!(i.scope.get("a"), Some(Value::Number(42)));
    assert_eq!(i.scope.get("b"), Some(Value::Text("Ann".to_string())));
    assert_eq!(i.scope.get("c"), Some(Value::Text(String::new())));
    assert_eq!(lines(&i), vec!["Age?".to_string(), "Name?".to_string(), "More?".to_string()]);
}

#[test]
fn input_line_values() {
    assert_eq!(input_line_value("-17"), Value::Number(-17));
    assert_eq!(input_line_value("+5"), Value::Number(5));
    assert_eq!(input_line_value("-9223372036854775808"), Value::Number(i64::MIN));
    assert_eq!(
        input_line_value("9223372036854775808"),
        Value::Text("9223372036854775808".to_string())
    );
    assert_eq!(input_line_value("-"), Value::Text("-".to_string()));
    assert_eq!(input_line_value("12a"), Value::Text("12a".to_string()));
}

#[test]
fn package_and_import_run_without_effect() {
    let mut i = Interpreter::new();
    assert_eq!(i.interpret(program("package p import from a to b")), Ok(Flow::Completed));
    assert!(lines(&i).is_empty());
}

#[test]
fn scope_lookup_walks_outward_and_set_writes_innermost() {
    let mut outer = Scope::new(None);
    outer.set("x".to_string(), Value::Number(1));
    outer.set("y".to_string(), Value::Number(2));
    let mut inner = Scope::new(Some(outer));
    assert_eq!(inner.get("x"), Some(Value::Number(1)));
    inner.set("x".to_string(), Value::Number(9));
    assert_eq!(inner.get("x"), Some(Value::Number(9)));
    assert_eq!(inner.get("y"), Some(Value::Number(2)));
    assert_eq!(inner.get("z"), None);
}

#[test]
fn error_text_names_its_kind() {
    assert_eq!(runtime("boom").render(), "Runtime Error: boom");
    assert_eq!(Error::Syntax("bad".to_string()).render(), "Syntax Error: bad");
    assert_eq!(Error::Type("t".to_string()).render(), "Type Error: t");
    assert_eq!(Error::UnexpectedEOF.render(), "Unexpected end of input");
}
