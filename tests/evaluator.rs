use std::rc::Rc;

use sljs::heap::{GLOBAL, OBJECT_PROTO};
use sljs::object::Access;

use sljs::ast::{
    BoolOp, BreakStatement, ContinueStatement, LabelStatement, LogicalExpression, SwitchCase,
    SwitchStatement, UnOp, UnaryExpression,
    AssignOp, AssignmentExpression, BinOp, BinaryExpression, BlockStatement, CallExpression,
    CatchClause, Expr, Expression, ExpressionStatement, ForInStatement, ForInTarget, ForStatement,
    Function, FunctionDeclaration, FunctionExpression, Identifier, IfStatement, MemberExpression,
    NewExpression, ObjectExpression, ObjectKey, ReturnStatement, Statement, Stmt,
    ThrowStatement, TryStatement, UpdOp, UpdateExpression, VariableDeclaration, ArrayExpression,
    DeclarationKind, VariableDeclarator,
};
use sljs::{Exception, Heap, JSValue, Num, Program, JSON};

fn num(n: i64) -> Expression {
    sljs::ast::lit(JSON::Number(Num::Int(n)))
}

fn text(s: &str) -> Expression {
    sljs::ast::lit(JSON::String(s.to_string()))
}

fn ident(name: &str) -> Identifier {
    Identifier(name.to_string())
}

fn var_ref(name: &str) -> Expression {
    sljs::ast::id(name)
}

fn bin(l: Expression, op: BinOp, r: Expression) -> Expression {
    Expression::new(Expr::BinaryOp(Box::new(BinaryExpression(l, op, r))))
}

fn dot(obj: Expression, name: &str) -> Expression {
    Expression::new(Expr::Member(Box::new(MemberExpression(obj, var_ref(name), false))))
}

fn index(obj: Expression, i: Expression) -> Expression {
    Expression::new(Expr::Member(Box::new(MemberExpression(obj, i, true))))
}

fn call(callee: Expression, args: Vec<Expression>) -> Expression {
    Expression::new(Expr::Call(Box::new(CallExpression(callee, args))))
}

fn assign(target: Expression, op: Option<BinOp>, value: Expression) -> Expression {
    Expression::new(Expr::Assign(Box::new(AssignmentExpression(target, AssignOp(op), value))))
}

fn stmt(e: Expression) -> Statement {
    Statement::new(Stmt::Expr(ExpressionStatement { expression: e }))
}

fn var1(name: &str, init: Expression) -> VariableDeclaration {
    sljs::ast::var(vec![(name.to_string(), init)])
}

fn var_stmt(name: &str, init: Expression) -> Statement {
    Statement::new(Stmt::Variable(var1(name, init)))
}

fn block(body: Vec<Statement>) -> BlockStatement {
    sljs::ast::block(body)
}

fn function(params: &[&str], body: Vec<Statement>, variables: &[&str]) -> FunctionExpression {
    FunctionExpression {
        func: Rc::new(Function {
            id: None,
            params: params.iter().map(|p| ident(p)).collect(),
            variables: variables.iter().map(|v| ident(v)).collect(),
            functions: vec![],
            free_variables: vec![],
            body: block(body),
            is_generator: false,
            is_expression: false,
            is_async: false,
        }),
    }
}

fn program(body: Vec<Statement>, variables: &[&str], functions: Vec<FunctionDeclaration>) -> Program {
    Program::new(body, variables.iter().map(|v| ident(v)).collect(), functions)
}

fn run(heap: &mut Heap, p: &Program) -> JSValue {
    heap.evaluate(p).expect("evaluation failed")
}

fn as_number(v: &JSValue) -> Num {
    match v {
        JSValue::Number(n) => *n,
        other => panic!("not a number: {:?}", other),
    }
}

fn as_text(v: &JSValue) -> String {
    match v {
        JSValue::String(s) => s.clone(),
        other => panic!("not a string: {:?}", other),
    }
}


fn eval_one(heap: &mut Heap, e: Expression) -> JSValue {
    run(heap, &program(vec![stmt(e)], &[], vec![]))
}

fn boolean(b: bool) -> Expression {
    sljs::ast::lit(JSON::Bool(b))
}

fn unary(op: UnOp, e: Expression) -> Expression {
    Expression::new(Expr::Unary(UnaryExpression(op, Box::new(e))))
}

fn logical(l: Expression, op: BoolOp, r: Expression) -> Expression {
    Expression::new(Expr::LogicalOp(Box::new(LogicalExpression(l, op, r))))
}

#[test]
fn switch_falls_through_until_break() {
    // var r = ""; switch (2) { case 1: r += "a"; case 2: r += "b"; case 3: r += "c"; break; default: r += "d" } r
    let case = |test: Option<Expression>, body: Vec<Statement>| SwitchCase { test, consequent: body };
    let add_r = |t: &str| stmt(assign(var_ref("r"), Some(BinOp::Plus), text(t)));
    let sw = SwitchStatement {
        discriminant: num(2),
        cases: vec![
            case(Some(num(1)), vec![add_r("a")]),
            case(Some(num(2)), vec![add_r("b")]),
            case(Some(num(3)), vec![add_r("c"), Statement::new(Stmt::Break(BreakStatement(None)))]),
            case(None, vec![add_r("d")]),
        ],
    };
    let p = program(
        vec![var_stmt("r", text("")), Statement::new(Stmt::Switch(sw)), stmt(var_ref("r"))],
        &["r"],
        vec![],
    );
    let mut heap = Heap::new();
    assert_eq!(as_text(&run(&mut heap, &p)), "bc");
}

#[test]
fn switch_takes_default() {
    let sw = SwitchStatement {
        discriminant: text("zz"),
        cases: vec![
            SwitchCase {
                test: None,
                consequent: vec![
                    stmt(assign(var_ref("r"), None, num(9))),
                    Statement::new(Stmt::Break(BreakStatement(None))),
                ],
            },
            SwitchCase { test: Some(text("a")), consequent: vec![stmt(assign(var_ref("r"), None, num(1)))] },
        ],
    };
    let p = program(
        vec![var_stmt("r", num(0)), Statement::new(Stmt::Switch(sw)), stmt(var_ref("r"))],
        &["r"],
        vec![],
    );
    let mut heap = Heap::new();
    assert_eq!(as_number(&run(&mut heap, &p)), Num::Int(9));
}

fn counting_loop(body: Statement) -> ForStatement {
    ForStatement {
        init: var_stmt("i", num(0)),
        test: Some(bin(var_ref("i"), BinOp::Less, num(5))),
        update: Some(assign(var_ref("i"), Some(BinOp::Plus), num(1))),
        body,
    }
}

#[test]
fn labelled_continue_and_break() {
    // var n = 0; outer: for (i...) { for (j...) { if (j == 1) continue outer; if (i == 3) break outer; n++ } }
    let inner = ForStatement {
        init: var_stmt("j", num(0)),
        test: Some(bin(var_ref("j"), BinOp::Less, num(5))),
        update: Some(assign(var_ref("j"), Some(BinOp::Plus), num(1))),
        body: Statement::new(Stmt::Block(block(vec![
            Statement::new(Stmt::If(Box::new(IfStatement {
                test: bin(var_ref("j"), BinOp::EqEq, num(1)),
                consequent: Statement::new(Stmt::Continue(ContinueStatement(Some(ident("outer"))))),
                alternate: None,
            }))),
            Statement::new(Stmt::If(Box::new(IfStatement {
                test: bin(var_ref("i"), BinOp::EqEq, num(3)),
                consequent: Statement::new(Stmt::Break(BreakStatement(Some(ident("outer"))))),
                alternate: None,
            }))),
            stmt(assign(var_ref("n"), Some(BinOp::Plus), num(1))),
        ]))),
    };
    let outer = counting_loop(Statement::new(Stmt::For(Box::new(inner))));
    let labelled = LabelStatement(ident("outer"), Statement::new(Stmt::For(Box::new(outer))));
    let p = program(
        vec![var_stmt("n", num(0)), Statement::new(Stmt::Label(Box::new(labelled))), stmt(var_ref("n"))],
        &["n", "i", "j"],
        vec![],
    );
    let mut heap = Heap::new();
    // i = 0, 1, 2 each count j = 0 once; i = 3 breaks out
    assert_eq!(as_number(&run(&mut heap, &p)), Num::Int(3));
}

#[test]
fn break_outside_loop_is_an_error() {
    let p = program(vec![Statement::new(Stmt::Break(BreakStatement(None)))], &[], vec![]);
    let mut heap = Heap::new();
    assert!(matches!(heap.evaluate(&p), Err(Exception::SyntaxTreeError(_))));
}

#[test]
fn typeof_and_reference_errors() {
    let mut heap = Heap::new();
    let t = eval_one(&mut heap, unary(UnOp::Typeof, var_ref("nowhere")));
    assert_eq!(as_text(&t), "undefined");
    let p = program(vec![stmt(var_ref("nowhere"))], &[], vec![]);
    assert!(matches!(heap.evaluate(&p), Err(Exception::ReferenceError(_))));
    assert_eq!(as_text(&eval_one(&mut heap, unary(UnOp::Typeof, num(1)))), "number");
    assert_eq!(as_text(&eval_one(&mut heap, unary(UnOp::Typeof, text("s")))), "string");
    let f = Expression::new(Expr::Function(function(&[], vec![], &[])));
    assert_eq!(as_text(&eval_one(&mut heap, unary(UnOp::Typeof, f))), "function");
    assert_eq!(as_text(&eval_one(&mut heap, unary(UnOp::Typeof, sljs::ast::lit(JSON::Null)))), "object");
}

#[test]
fn member_of_undefined_is_a_type_error() {
    let mut heap = Heap::new();
    let p = program(vec![stmt(dot(var_ref("undefined"), "x"))], &[], vec![]);
    assert!(matches!(heap.evaluate(&p), Err(Exception::TypeError(_))));
}

#[test]
fn catch_receives_diagnostics_as_errors() {
    // try { undefined.x } catch (e) { e.name }
    let try_stmt = TryStatement {
        block: block(vec![stmt(dot(var_ref("undefined"), "x"))]),
        handler: Some(CatchClause { param: ident("e"), body: block(vec![stmt(dot(var_ref("e"), "name"))]) }),
        finalizer: None,
    };
    let mut heap = Heap::new();
    let v = run(&mut heap, &program(vec![Statement::new(Stmt::Try(try_stmt))], &[], vec![]));
    assert_eq!(as_text(&v), "TypeError");
}

#[test]
fn catch_does_not_take_jumps() {
    // for (;;) { try { break } catch (e) { n = 1 } } n
    let body = Statement::new(Stmt::Try(TryStatement {
        block: block(vec![Statement::new(Stmt::Break(BreakStatement(None)))]),
        handler: Some(CatchClause { param: ident("e"), body: block(vec![stmt(assign(var_ref("n"), None, num(1)))]) }),
        finalizer: None,
    }));
    let looped = ForStatement { init: Statement::new(Stmt::Empty), test: None, update: None, body };
    let p = program(
        vec![var_stmt("n", num(0)), Statement::new(Stmt::For(Box::new(looped))), stmt(var_ref("n"))],
        &["n"],
        vec![],
    );
    let mut heap = Heap::new();
    assert_eq!(as_number(&run(&mut heap, &p)), Num::Int(0));
}

#[test]
fn finalizer_exception_supersedes() {
    let try_stmt = TryStatement {
        block: block(vec![Statement::new(Stmt::Throw(ThrowStatement(text("first"))))]),
        handler: None,
        finalizer: Some(block(vec![Statement::new(Stmt::Throw(ThrowStatement(text("second"))))])),
    };
    let mut heap = Heap::new();
    match heap.evaluate(&program(vec![Statement::new(Stmt::Try(try_stmt))], &[], vec![])) {
        Err(Exception::UserThrown(JSValue::String(s))) => assert_eq!(s, "second"),
        other => panic!("unexpected {:?}", other),
    }
}

#[test]
fn error_constructor_and_display() {
    let mut heap = Heap::new();
    let e = eval_one(
        &mut heap,
        Expression::new(Expr::New(Box::new(NewExpression(var_ref("Error"), vec![text("bad")])))),
    );
    assert_eq!(heap.display(&e), "Error: bad");
}

#[test]
fn closures_keep_their_scope() {
    // function counter() { var c = 0; return function () { c = c + 1; return c; }; }
    // var next = counter(); next(); next()
    let inner = function(
        &[],
        vec![
            stmt(assign(var_ref("c"), None, bin(var_ref("c"), BinOp::Plus, num(1)))),
            Statement::new(Stmt::Return(ReturnStatement(Some(var_ref("c"))))),
        ],
        &[],
    );
    let outer = function(
        &[],
        vec![
            var_stmt("c", num(0)),
            Statement::new(Stmt::Return(ReturnStatement(Some(Expression::new(Expr::Function(inner)))))),
        ],
        &["c"],
    );
    let decl = FunctionDeclaration { id: ident("counter"), function: outer };
    let p = program(
        vec![
            var_stmt("next", call(var_ref("counter"), vec![])),
            stmt(call(var_ref("next"), vec![])),
            stmt(call(var_ref("next"), vec![])),
        ],
        &["next"],
        vec![decl],
    );
    let mut heap = Heap::new();
    assert_eq!(as_number(&run(&mut heap, &p)), Num::Int(2));
}

#[test]
fn method_call_passes_receiver() {
    // var o = {v: 5, get: function () { return this.v }}; o.get()
    let getter = function(&[], vec![Statement::new(Stmt::Return(ReturnStatement(Some(dot(Expression::new(Expr::This), "v")))))], &[]);
    let object = Expression::new(Expr::Object(ObjectExpression(vec![
        (ObjectKey::Identifier("v".to_string()), num(5)),
        (ObjectKey::Identifier("get".to_string()), Expression::new(Expr::Function(getter))),
    ])));
    let p = program(
        vec![var_stmt("o", object), stmt(call(dot(var_ref("o"), "get"), vec![]))],
        &["o"],
        vec![],
    );
    let mut heap = Heap::new();
    assert_eq!(as_number(&run(&mut heap, &p)), Num::Int(5));
}

#[test]
fn missing_arguments_are_undefined() {
    let f = function(&["a", "b"], vec![Statement::new(Stmt::Return(ReturnStatement(Some(unary(UnOp::Typeof, var_ref("b"))))))], &[]);
    let decl = FunctionDeclaration { id: ident("f"), function: f };
    let p = program(vec![stmt(call(var_ref("f"), vec![num(1)]))], &[], vec![decl]);
    let mut heap = Heap::new();
    assert_eq!(as_text(&run(&mut heap, &p)), "undefined");
}

#[test]
fn logical_operators_give_an_operand() {
    let mut heap = Heap::new();
    assert_eq!(as_number(&eval_one(&mut heap, logical(num(0), BoolOp::Or, num(7)))), Num::Int(7));
    assert_eq!(as_number(&eval_one(&mut heap, logical(num(0), BoolOp::And, num(7)))), Num::Int(0));
    assert_eq!(as_text(&eval_one(&mut heap, logical(text("x"), BoolOp::And, text("y")))), "y");
    // the right side is not evaluated when the left decides
    let v = eval_one(&mut heap, logical(boolean(false), BoolOp::And, var_ref("nowhere")));
    assert!(matches!(v, JSValue::Bool(false)));
}

#[test]
fn update_prefix_and_postfix() {
    let mut heap = Heap::new();
    run(&mut heap, &program(vec![var_stmt("k", num(5))], &["k"], vec![]));
    let post = Expression::new(Expr::Update(Box::new(UpdateExpression(UpdOp::Increment, false, var_ref("k")))));
    assert_eq!(as_number(&eval_one(&mut heap, post)), Num::Int(5));
    let pre = Expression::new(Expr::Update(Box::new(UpdateExpression(UpdOp::Decrement, true, var_ref("k")))));
    assert_eq!(as_number(&eval_one(&mut heap, pre)), Num::Int(5));
    assert_eq!(as_number(&eval_one(&mut heap, var_ref("k"))), Num::Int(5));
}

#[test]
fn operators_on_numbers() {
    let mut heap = Heap::new();
    let cases: Vec<(i64, BinOp, i64, Num)> = vec![
        (7, BinOp::Minus, 10, Num::Int(-3)),
        (6, BinOp::Star, 7, Num::Int(42)),
        (9, BinOp::Slash, 3, Num::Int(3)),
        (9, BinOp::Slash, 2, Num::NaN),
        (-7, BinOp::Percent, 2, Num::Int(-1)),
        (12, BinOp::Pipe, 3, Num::Int(15)),
        (12, BinOp::Hat, 10, Num::Int(6)),
        (12, BinOp::Ampersand, 10, Num::Int(8)),
        (1, BinOp::LtLt, 33, Num::Int(2)),
        (1, BinOp::LtLt, 31, Num::Int(-2147483648)),
        (-16, BinOp::GtGt, 2, Num::Int(-4)),
        (-1, BinOp::GtGtGt, 28, Num::Int(15)),
    ];
    for (a, op, b, expected) in cases {
        let v = eval_one(&mut heap, bin(num(a), op, num(b)));
        assert_eq!(as_number(&v), expected, "{} {:?} {}", a, op, b);
    }
    assert_eq!(as_number(&eval_one(&mut heap, unary(UnOp::Tilde, num(5)))), Num::Int(-6));
    assert_eq!(as_number(&eval_one(&mut heap, unary(UnOp::Minus, text("4")))), Num::Int(-4));
    assert!(matches!(eval_one(&mut heap, unary(UnOp::Exclamation, text(""))), JSValue::Bool(true)));
    assert!(matches!(eval_one(&mut heap, unary(UnOp::Void, num(1))), JSValue::Undefined));
}

#[test]
fn comparisons_and_equality() {
    let mut heap = Heap::new();
    let is_true = |v: JSValue| matches!(v, JSValue::Bool(true));
    assert!(is_true(eval_one(&mut heap, bin(text("a"), BinOp::Less, text("b")))));
    assert!(is_true(eval_one(&mut heap, bin(text("10"), BinOp::Less, text("9")))));
    assert!(is_true(eval_one(&mut heap, bin(num(10), BinOp::Greater, text("9")))));
    assert!(is_true(eval_one(&mut heap, bin(num(3), BinOp::LtEq, num(3)))));
    assert!(!is_true(eval_one(&mut heap, bin(sljs::ast::lit(JSON::Number(Num::NaN)), BinOp::GtEq, num(3)))));
    assert!(is_true(eval_one(&mut heap, bin(text("5"), BinOp::EqEq, num(5)))));
    assert!(!is_true(eval_one(&mut heap, bin(text("5"), BinOp::EqEqEq, num(5)))));
    assert!(is_true(eval_one(&mut heap, bin(text("5"), BinOp::NotEqEq, num(5)))));
    assert_eq!(as_text(&eval_one(&mut heap, bin(text("n="), BinOp::Plus, num(4)))), "n=4");
}

#[test]
fn in_and_delete() {
    let object = Expression::new(Expr::Object(ObjectExpression(vec![
        (ObjectKey::Identifier("x".to_string()), num(1)),
    ])));
    let mut heap = Heap::new();
    run(&mut heap, &program(vec![var_stmt("o", object)], &["o"], vec![]));
    let is_true = |v: JSValue| matches!(v, JSValue::Bool(true));
    assert!(is_true(eval_one(&mut heap, bin(text("x"), BinOp::In, var_ref("o")))));
    assert!(is_true(eval_one(&mut heap, unary(UnOp::Delete, dot(var_ref("o"), "x")))));
    assert!(!is_true(eval_one(&mut heap, bin(text("x"), BinOp::In, var_ref("o")))));
    // a declared variable is not configurable
    assert!(!is_true(eval_one(&mut heap, unary(UnOp::Delete, var_ref("o")))));
    let p = program(vec![stmt(bin(text("x"), BinOp::In, num(1)))], &[], vec![]);
    assert!(matches!(heap.evaluate(&p), Err(Exception::TypeError(_))));
}

#[test]
fn proto_reads_the_prototype() {
    let mut heap = Heap::new();
    let v = eval_one(&mut heap, dot(Expression::new(Expr::Array(ArrayExpression(vec![]))), "__proto__"));
    assert!(matches!(v, JSValue::Ref(sljs::heap::ARRAY_PROTO)));
    let top = eval_one(&mut heap, dot(dot(var_ref("Error"), "prototype"), "__proto__"));
    assert!(matches!(top, JSValue::Ref(sljs::heap::OBJECT_PROTO)));
}

#[test]
fn arrays_display_and_index() {
    let mut heap = Heap::new();
    let arr = Expression::new(Expr::Array(ArrayExpression(vec![num(1), text("b"), sljs::ast::lit(JSON::Null)])));
    let v = eval_one(&mut heap, arr);
    assert_eq!(heap.display(&v), "1,b,");
    run(&mut heap, &program(vec![var_stmt("a", Expression::new(Expr::Array(ArrayExpression(vec![num(4)]))))], &["a"], vec![]));
    run(&mut heap, &program(vec![stmt(assign(index(var_ref("a"), num(2)), None, num(6)))], &[], vec![]));
    assert_eq!(as_number(&eval_one(&mut heap, dot(var_ref("a"), "length"))), Num::Int(3));
    assert!(matches!(eval_one(&mut heap, index(var_ref("a"), num(1))), JSValue::Undefined));
    assert_eq!(as_number(&eval_one(&mut heap, index(var_ref("a"), text("2")))), Num::Int(6));
}

#[test]
fn for_in_walks_the_prototype_chain_once_per_name() {
    // function P(){ this.own = 1 } P.prototype.shared = 2; P.prototype.own = 3;
    // var s = ""; for (var k in new P()) s += k; s
    let ctor = function(&[], vec![stmt(assign(dot(Expression::new(Expr::This), "own"), None, num(1)))], &[]);
    let decl = FunctionDeclaration { id: ident("P"), function: ctor };
    let for_in = ForInStatement {
        left: ForInTarget::Var(VariableDeclaration {
            kind: DeclarationKind::Var,
            declarations: vec![VariableDeclarator { name: ident("k"), init: None }],
        }),
        right: Expression::new(Expr::New(Box::new(NewExpression(var_ref("P"), vec![])))),
        body: stmt(assign(var_ref("s"), Some(BinOp::Plus), var_ref("k"))),
    };
    let p = program(
        vec![
            stmt(assign(dot(dot(var_ref("P"), "prototype"), "shared"), None, num(2))),
            stmt(assign(dot(dot(var_ref("P"), "prototype"), "own"), None, num(3))),
            var_stmt("s", text("")),
            Statement::new(Stmt::ForIn(Box::new(for_in))),
            stmt(var_ref("s")),
        ],
        &["s", "k"],
        vec![decl],
    );
    let mut heap = Heap::new();
    assert_eq!(as_text(&run(&mut heap, &p)), "ownshared");
}

#[test]
fn endless_loop_stops_with_range_error() {
    let looped = ForStatement { init: Statement::new(Stmt::Empty), test: None, update: None, body: Statement::new(Stmt::Empty) };
    let p = program(vec![Statement::new(Stmt::For(Box::new(looped)))], &[], vec![]);
    let mut heap = Heap::new();
    assert!(matches!(heap.evaluate(&p), Err(Exception::RangeError(_))));
}

#[test]
fn deep_recursion_stops_with_range_error() {
    // function f(){ return f() } f()
    let body = vec![Statement::new(Stmt::Return(ReturnStatement(Some(call(var_ref("f"), vec![])))))];
    let decl = FunctionDeclaration { id: ident("f"), function: function(&[], body, &[]) };
    let p = program(vec![stmt(call(var_ref("f"), vec![]))], &[], vec![decl]);
    let mut heap = Heap::new();
    assert!(matches!(heap.evaluate(&p), Err(Exception::RangeError(_))));
}

#[test]
fn push_gives_the_new_length() {
    let mut heap = Heap::new();
    run(&mut heap, &program(vec![var_stmt("a", Expression::new(Expr::Array(ArrayExpression(vec![num(1)]))))], &["a"], vec![]));
    let pushed = eval_one(&mut heap, call(dot(var_ref("a"), "push"), vec![num(2), num(3)]));
    assert_eq!(as_number(&pushed), Num::Int(3));
    let a = eval_one(&mut heap, var_ref("a"));
    assert_eq!(heap.display(&a), "1,2,3");
    let p = program(vec![stmt(call(dot(dot(var_ref("a"), "push"), "call"), vec![]))], &[], vec![]);
    assert!(heap.evaluate(&p).is_err());
}

#[test]
fn instanceof_on_primitives_and_plain_objects() {
    let mut heap = Heap::new();
    let ctor = function(&[], vec![], &[]);
    let decl = FunctionDeclaration { id: ident("K"), function: ctor };
    run(&mut heap, &program(vec![], &[], vec![decl]));
    assert!(matches!(eval_one(&mut heap, bin(num(1), BinOp::InstanceOf, var_ref("K"))), JSValue::Bool(false)));
    let plain = Expression::new(Expr::Object(ObjectExpression(vec![])));
    assert!(matches!(eval_one(&mut heap, bin(plain, BinOp::InstanceOf, var_ref("K"))), JSValue::Bool(false)));
    let made = Expression::new(Expr::New(Box::new(NewExpression(var_ref("K"), vec![]))));
    assert!(matches!(eval_one(&mut heap, bin(made, BinOp::InstanceOf, var_ref("K"))), JSValue::Bool(true)));
    let p = program(vec![stmt(bin(num(1), BinOp::InstanceOf, num(2)))], &[], vec![]);
    assert!(matches!(heap.evaluate(&p), Err(Exception::TypeError(_))));
}

#[test]
fn calling_a_non_function_is_a_type_error() {
    let mut heap = Heap::new();
    let p = program(vec![stmt(call(num(3), vec![]))], &[], vec![]);
    assert!(matches!(heap.evaluate(&p), Err(Exception::TypeError(_))));
    let q = program(vec![stmt(Expression::new(Expr::New(Box::new(NewExpression(num(3), vec![])))))], &[], vec![]);
    assert!(matches!(heap.evaluate(&q), Err(Exception::TypeError(_))));
}

#[test]
fn string_wrapper_has_length() {
    let mut heap = Heap::new();
    assert_eq!(as_number(&eval_one(&mut heap, dot(text("hello"), "length"))), Num::Int(5));
}

#[test]
fn scope_is_restored_after_failure() {
    // function g(){ { throw "x" } } g() — the failure leaves through a block and a call.
    let body = vec![Statement::new(Stmt::Block(block(vec![Statement::new(Stmt::Throw(ThrowStatement(text("x"))))])))];
    let decl = FunctionDeclaration { id: ident("g"), function: function(&[], body, &[]) };
    let p = program(vec![stmt(call(var_ref("g"), vec![]))], &[], vec![decl]);
    let mut heap = Heap::new();
    let scope = heap.scope;
    let before = heap.objects.len();
    assert!(matches!(heap.evaluate(&p), Err(Exception::UserThrown(_))));
    assert_eq!(heap.scope, scope);
    assert!(heap.objects.len() >= before);
    // the heap is still usable
    assert_eq!(as_number(&eval_one(&mut heap, num(4))), Num::Int(4));
}

#[test]
fn hidden_own_property_hides_inherited_name_in_for_in() {
    let mut heap = Heap::new();
    let parent = heap.new_object(OBJECT_PROTO);
    heap.define(parent, "a".to_string(), JSValue::Number(Num::Int(1)), Access::all());
    heap.define(parent, "b".to_string(), JSValue::Number(Num::Int(2)), Access::all());
    let child = heap.new_object(parent);
    heap.define(child, "a".to_string(), JSValue::Number(Num::Int(3)), Access::hidden());
    heap.define(GLOBAL, "o".to_string(), JSValue::Ref(child), Access::all());
    // var s = ""; for (var k in o) s += k; s
    let for_in = ForInStatement {
        left: ForInTarget::Var(VariableDeclaration {
            kind: DeclarationKind::Var,
            declarations: vec![VariableDeclarator { name: ident("k"), init: None }],
        }),
        right: var_ref("o"),
        body: stmt(assign(var_ref("s"), Some(BinOp::Plus), var_ref("k"))),
    };
    let p = program(
        vec![var_stmt("s", text("")), Statement::new(Stmt::ForIn(Box::new(for_in))), stmt(var_ref("s"))],
        &["s", "k"],
        vec![],
    );
    assert_eq!(as_text(&run(&mut heap, &p)), "b");
}

#[test]
fn delete_on_array_elements_and_length() {
    let mut heap = Heap::new();
    run(&mut heap, &program(vec![var_stmt("a", Expression::new(Expr::Array(ArrayExpression(vec![num(1), num(2)]))))], &["a"], vec![]));
    let is_false = |v: JSValue| matches!(v, JSValue::Bool(false));
    assert!(is_false(eval_one(&mut heap, unary(UnOp::Delete, dot(var_ref("a"), "length")))));
    assert!(is_false(eval_one(&mut heap, unary(UnOp::Delete, index(var_ref("a"), num(0))))));
    assert!(matches!(eval_one(&mut heap, unary(UnOp::Delete, index(var_ref("a"), num(5)))), JSValue::Bool(true)));
    assert_eq!(as_number(&eval_one(&mut heap, dot(var_ref("a"), "length"))), Num::Int(2));
}

#[test]
fn error_constructor_message() {
    let mut heap = Heap::new();
    let p = program(
        vec![
            var_stmt("e", call(var_ref("Error"), vec![num(42)])),
            stmt(dot(var_ref("e"), "message")),
        ],
        &["e"],
        vec![],
    );
    assert_eq!(as_text(&run(&mut heap, &p)), "42");
    let q = program(vec![stmt(dot(var_ref("e"), "name"))], &[], vec![]);
    assert_eq!(as_text(&run(&mut heap, &q)), "Error");
}
