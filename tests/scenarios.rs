use std::rc::Rc;

use sljs::ast::{
    AssignOp, AssignmentExpression, BinOp, BinaryExpression, BlockStatement, CallExpression,
    CatchClause, Expr, Expression, ExpressionStatement, ForInStatement, ForInTarget, ForStatement,
    Function, FunctionDeclaration, FunctionExpression, Identifier, IfStatement, MemberExpression,
    NewExpression, ObjectExpression, ObjectKey, ReturnStatement, Statement, Stmt,
    ThrowStatement, TryStatement, UpdOp, UpdateExpression, VariableDeclaration, ArrayExpression,
    DeclarationKind, VariableDeclarator,
};
use sljs::{Heap, Interpretable, JSValue, Num, Program, JSON};

fn num(n: i64) -> Expression {
    sljs::ast::lit(JSON::Number(Num::Int(n)))
}

fn text(s: &str) -> Expression {
    sljs::ast::lit(JSON::String(s.to_string()))
}

fn ident(name: &str) -> Identifier {
    Identifier(name.to_string())
}

fn var_ref(name: &str) -> Expression {
    sljs::ast::id(name)
}

fn bin(l: Expression, op: BinOp, r: Expression) -> Expression {
    Expression::new(Expr::BinaryOp(Box::new(BinaryExpression(l, op, r))))
}

fn dot(obj: Expression, name: &str) -> Expression {
    Expression::new(Expr::Member(Box::new(MemberExpression(obj, var_ref(name), false))))
}

fn index(obj: Expression, i: Expression) -> Expression {
    Expression::new(Expr::Member(Box::new(MemberExpression(obj, i, true))))
}

fn call(callee: Expression, args: Vec<Expression>) -> Expression {
    Expression::new(Expr::Call(Box::new(CallExpression(callee, args))))
}

fn assign(target: Expression, op: Option<BinOp>, value: Expression) -> Expression {
    Expression::new(Expr::Assign(Box::new(AssignmentExpression(target, AssignOp(op), value))))
}

fn stmt(e: Expression) -> Statement {
    Statement::new(Stmt::Expr(ExpressionStatement { expression: e }))
}

fn var1(name: &str, init: Expression) -> VariableDeclaration {
    sljs::ast::var(vec![(name.to_string(), init)])
}

fn var_stmt(name: &str, init: Expression) -> Statement {
    Statement::new(Stmt::Variable(var1(name, init)))
}

fn block(body: Vec<Statement>) -> BlockStatement {
    sljs::ast::block(body)
}

fn function(params: &[&str], body: Vec<Statement>, variables: &[&str]) -> FunctionExpression {
    FunctionExpression {
        func: Rc::new(Function {
            id: None,
            params: params.iter().map(|p| ident(p)).collect(),
            variables: variables.iter().map(|v| ident(v)).collect(),
            functions: vec![],
            free_variables: vec![],
            body: block(body),
            is_generator: false,
            is_expression: false,
            is_async: false,
        }),
    }
}

fn program(body: Vec<Statement>, variables: &[&str], functions: Vec<FunctionDeclaration>) -> Program {
    Program::new(body, variables.iter().map(|v| ident(v)).collect(), functions)
}

fn run(heap: &mut Heap, p: &Program) -> JSValue {
    heap.evaluate(p).expect("evaluation failed")
}

fn as_number(v: &JSValue) -> Num {
    match v {
        JSValue::Number(n) => *n,
        other => panic!("not a number: {:?}", other),
    }
}

fn as_text(v: &JSValue) -> String {
    match v {
        JSValue::String(s) => s.clone(),
        other => panic!("not a string: {:?}", other),
    }
}

#[test]
fn var_then_add() {
    let mut heap = Heap::new();
    let first = program(vec![var_stmt("x", num(12))], &["x"], vec![]);
    run(&mut heap, &first);
    let second = program(vec![stmt(sljs::ast::add(var_ref("x"), num(8)))], &[], vec![]);
    let v = run(&mut heap, &second);
    assert_eq!(as_number(&v), Num::Int(20));
    assert_eq!(heap.display(&v), "20");
}

#[test]
fn recursive_factorial() {
    // function f(n){ if (n<=1) return 1; return n*f(n-1); } f(5)
    let body = vec![
        Statement::new(Stmt::If(Box::new(IfStatement {
            test: bin(var_ref("n"), BinOp::LtEq, num(1)),
            consequent: Statement::new(Stmt::Return(ReturnStatement(Some(num(1))))),
            alternate: None,
        }))),
        Statement::new(Stmt::Return(ReturnStatement(Some(bin(
            var_ref("n"),
            BinOp::Star,
            call(var_ref("f"), vec![bin(var_ref("n"), BinOp::Minus, num(1))]),
        ))))),
    ];
    let decl = FunctionDeclaration { id: ident("f"), function: function(&["n"], body, &[]) };
    let p = program(vec![stmt(call(var_ref("f"), vec![num(5)]))], &[], vec![decl]);
    let mut heap = Heap::new();
    assert_eq!(as_number(&run(&mut heap, &p)), Num::Int(120));
}

fn push_loop_program() -> Program {
    // var a = []; for (var i=0; i<3; i++) a.push(i); a.length
    let for_stmt = ForStatement {
        init: var_stmt("i", num(0)),
        test: Some(bin(var_ref("i"), BinOp::Less, num(3))),
        update: Some(Expression::new(Expr::Update(Box::new(UpdateExpression(
            UpdOp::Increment,
            false,
            var_ref("i"),
        ))))),
        body: stmt(call(dot(var_ref("a"), "push"), vec![var_ref("i")])),
    };
    program(
        vec![
            var_stmt("a", Expression::new(Expr::Array(ArrayExpression(vec![])))),
            Statement::new(Stmt::For(Box::new(for_stmt))),
            stmt(dot(var_ref("a"), "length")),
        ],
        &["a", "i"],
        vec![],
    )
}

#[test]
fn array_push_loop() {
    let mut heap = Heap::new();
    assert_eq!(as_number(&run(&mut heap, &push_loop_program())), Num::Int(3));
    let element = program(vec![stmt(index(var_ref("a"), num(2)))], &[], vec![]);
    assert_eq!(as_number(&run(&mut heap, &element)), Num::Int(2));
}

#[test]
fn for_in_concatenates_keys() {
    // var o = {x:1,y:2}; var s = ""; for (var k in o) s += k; s
    let object = Expression::new(Expr::Object(ObjectExpression(vec![
        (ObjectKey::Identifier("x".to_string()), num(1)),
        (ObjectKey::Identifier("y".to_string()), num(2)),
    ])));
    let for_in = ForInStatement {
        left: ForInTarget::Var(VariableDeclaration {
            kind: DeclarationKind::Var,
            declarations: vec![VariableDeclarator { name: ident("k"), init: None }],
        }),
        right: var_ref("o"),
        body: stmt(assign(var_ref("s"), Some(BinOp::Plus), var_ref("k"))),
    };
    let p = program(
        vec![
            var_stmt("o", object),
            var_stmt("s", text("")),
            Statement::new(Stmt::ForIn(Box::new(for_in))),
            stmt(var_ref("s")),
        ],
        &["o", "s", "k"],
        vec![],
    );
    let mut heap = Heap::new();
    assert_eq!(as_text(&run(&mut heap, &p)), "xy");
}

#[test]
fn try_catch_finally() {
    // var ran = false; try { throw "e" } catch (x) { x + "!" } finally { ran = true }
    let try_stmt = TryStatement {
        block: block(vec![Statement::new(Stmt::Throw(ThrowStatement(text("e"))))]),
        handler: Some(CatchClause {
            param: ident("x"),
            body: block(vec![stmt(bin(var_ref("x"), BinOp::Plus, text("!")))]),
        }),
        finalizer: Some(block(vec![stmt(assign(var_ref("ran"), None, sljs::ast::lit(JSON::Bool(true))))])),
    };
    let p = program(
        vec![
            var_stmt("ran", sljs::ast::lit(JSON::Bool(false))),
            Statement::new(Stmt::Try(try_stmt)),
        ],
        &["ran"],
        vec![],
    );
    let mut heap = Heap::new();
    assert_eq!(as_text(&run(&mut heap, &p)), "e!");
    let check = program(vec![stmt(var_ref("ran"))], &[], vec![]);
    assert!(matches!(run(&mut heap, &check), JSValue::Bool(true)));
}

#[test]
fn constructor_and_prototype() {
    // function C(){ this.x = 1 } C.prototype.y = 2; var c = new C(); c.x + c.y
    let ctor_body = vec![stmt(assign(dot(Expression::new(Expr::This), "x"), None, num(1)))];
    let decl = FunctionDeclaration { id: ident("C"), function: function(&[], ctor_body, &[]) };
    let p = program(
        vec![
            stmt(assign(dot(dot(var_ref("C"), "prototype"), "y"), None, num(2))),
            var_stmt("c", Expression::new(Expr::New(Box::new(NewExpression(var_ref("C"), vec![]))))),
            stmt(bin(dot(var_ref("c"), "x"), BinOp::Plus, dot(var_ref("c"), "y"))),
        ],
        &["c"],
        vec![decl],
    );
    let mut heap = Heap::new();
    assert_eq!(as_number(&run(&mut heap, &p)), Num::Int(3));
    let check = program(vec![stmt(bin(var_ref("c"), BinOp::InstanceOf, var_ref("C")))], &[], vec![]);
    assert!(matches!(run(&mut heap, &check), JSValue::Bool(true)));
}

#[test]
fn finally_runs_once_on_each_path() {
    // var n = 0; try { s } finally { n++ }, for s normal, throwing and breaking.
    let mut heap = Heap::new();
    let decl = program(vec![var_stmt("n", num(0))], &["n"], vec![]);
    run(&mut heap, &decl);
    let bump = || {
        Some(block(vec![stmt(Expression::new(Expr::Update(Box::new(UpdateExpression(
            UpdOp::Increment,
            true,
            var_ref("n"),
        )))))]))
    };
    // normal completion
    let normal = program(
        vec![Statement::new(Stmt::Try(TryStatement { block: block(vec![stmt(num(1))]), handler: None, finalizer: bump() }))],
        &[],
        vec![],
    );
    run(&mut heap, &normal);
    // a throw that nothing catches
    let throwing = program(
        vec![Statement::new(Stmt::Try(TryStatement {
            block: block(vec![Statement::new(Stmt::Throw(ThrowStatement(text("boom"))))]),
            handler: None,
            finalizer: bump(),
        }))],
        &[],
        vec![],
    );
    assert!(matches!(heap.evaluate(&throwing), Err(sljs::Exception::UserThrown(_))));
    // a break out of a loop
    let breaking = ForStatement {
        init: Statement::new(Stmt::Empty),
        test: None,
        update: None,
        body: Statement::new(Stmt::Try(TryStatement {
            block: block(vec![Statement::new(Stmt::Break(sljs::ast::BreakStatement(None)))]),
            handler: None,
            finalizer: bump(),
        })),
    };
    run(&mut heap, &program(vec![Statement::new(Stmt::For(Box::new(breaking)))], &[], vec![]));
    let check = program(vec![stmt(var_ref("n"))], &[], vec![]);
    assert_eq!(as_number(&run(&mut heap, &check)), Num::Int(3));
}
