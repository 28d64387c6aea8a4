use nox::expr::BinaryOp;
use nox::expr::Expr;
use nox::expr::Fun;
use nox::expr::LiteralValue;
use nox::expr::NativeFn;
use nox::expr::ValueType;
use nox::interpreter::ControllFlow;
use nox::interpreter::EvalError;
use nox::interpreter::Interpreter;
use nox::semantics::CfKind;
use nox::semantics::OpKind;
use nox::semantics::check_program;
use nox::stmt::Stmt;

fn num(n: i64) -> Expr {
    Expr::Literal { value: LiteralValue::Number(n) }
}

fn boolean(b: bool) -> Expr {
    Expr::Literal { value: if b { LiteralValue::True } else { LiteralValue::False } }
}

fn var(name: &str) -> Expr {
    Expr::Variable { name: String::from(name) }
}

fn bin(l: Expr, op: BinaryOp, r: Expr) -> Expr {
    Expr::Binary { left: Box::new(l), operator: op, right: Box::new(r) }
}

fn declare(name: &str, init: Expr) -> Stmt {
    Stmt::Var { name: String::from(name), initializer: init }
}

fn assign(name: &str, value: Expr) -> Stmt {
    Stmt::Expression {
        expression: Expr::Assign { name: String::from(name), value: Box::new(value) },
    }
}

fn block(stmts: Vec<Stmt>) -> Stmt {
    Stmt::Block { stmts }
}

fn read_back(interp: &mut Interpreter, name: &str) -> Result<LiteralValue, EvalError> {
    interp.interpret(var(name), 10_000)
}

fn run(interp: &mut Interpreter, prog: Vec<Stmt>) -> Result<(), EvalError> {
    interp.interpret_program(&prog, 100_000)
}

#[test]
fn shadowing_does_not_leak_out_of_a_block() {
    let mut interp = Interpreter::new();
    let prog = vec![
        declare("x", num(1)),
        block(vec![declare("x", num(2))]),
    ];
    assert_eq!(run(&mut interp, prog), Ok(()));
    assert_eq!(read_back(&mut interp, "x"), Ok(LiteralValue::Number(1)));
}

#[test]
fn assignment_mutates_the_enclosing_binding() {
    let mut interp = Interpreter::new();
    let prog = vec![
        declare("x", num(1)),
        block(vec![assign("x", num(2))]),
    ];
    assert_eq!(run(&mut interp, prog), Ok(()));
    assert_eq!(read_back(&mut interp, "x"), Ok(LiteralValue::Number(2)));
}

#[test]
fn shadow_inside_a_block_reads_the_inner_binding() {
    let mut interp = Interpreter::new();
    let prog = vec![
        declare("x", num(1)),
        declare("seen", num(0)),
        block(vec![declare("x", num(2)), assign("seen", var("x"))]),
    ];
    assert_eq!(run(&mut interp, prog), Ok(()));
    assert_eq!(read_back(&mut interp, "seen"), Ok(LiteralValue::Number(2)));
    assert_eq!(read_back(&mut interp, "x"), Ok(LiteralValue::Number(1)));
}

#[test]
fn redeclaring_in_the_same_scope_overwrites() {
    let mut interp = Interpreter::new();
    let prog = vec![declare("x", num(1)), declare("x", num(9))];
    assert_eq!(run(&mut interp, prog), Ok(()));
    assert_eq!(read_back(&mut interp, "x"), Ok(LiteralValue::Number(9)));
}

#[test]
fn if_branches_on_strict_equality_to_true() {
    // A bare number is not `True`, so the else branch runs: branching
    // deliberately uses strict equality, not general truthiness.
    let mut interp = Interpreter::new();
    let prog = vec![
        declare("x", num(0)),
        Stmt::IfElse {
            condition: num(1),
            then_branch: Box::new(block(vec![assign("x", num(2))])),
            els: Some(Box::new(block(vec![assign("x", num(3))]))),
        },
    ];
    assert_eq!(run(&mut interp, prog), Ok(()));
    assert_eq!(read_back(&mut interp, "x"), Ok(LiteralValue::Number(3)));
}

#[test]
fn if_true_runs_the_then_branch() {
    let mut interp = Interpreter::new();
    let prog = vec![
        declare("x", num(0)),
        Stmt::IfElse {
            condition: bin(num(2), BinaryOp::EqualEqual, num(2)),
            then_branch: Box::new(block(vec![assign("x", num(2))])),
            els: Some(Box::new(block(vec![assign("x", num(3))]))),
        },
    ];
    assert_eq!(run(&mut interp, prog), Ok(()));
    assert_eq!(read_back(&mut interp, "x"), Ok(LiteralValue::Number(2)));
}

#[test]
fn while_loop_sums() {
    let mut interp = Interpreter::new();
    let prog = vec![
        declare("i", num(0)),
        declare("sum", num(0)),
        Stmt::While {
            condition: bin(var("i"), BinaryOp::Less, num(5)),
            block: Box::new(block(vec![
                assign("sum", bin(var("sum"), BinaryOp::Plus, var("i"))),
                assign("i", bin(var("i"), BinaryOp::Plus, num(1))),
            ])),
        },
    ];
    assert_eq!(run(&mut interp, prog), Ok(()));
    assert_eq!(read_back(&mut interp, "sum"), Ok(LiteralValue::Number(10)));
}

#[test]
fn break_inside_nested_if_ends_the_loop_and_later_statements_run() {
    let mut interp = Interpreter::new();
    let prog = vec![
        declare("i", num(0)),
        declare("after", num(0)),
        Stmt::While {
            condition: boolean(true),
            block: Box::new(block(vec![
                assign("i", bin(var("i"), BinaryOp::Plus, num(1))),
                Stmt::IfElse {
                    condition: bin(var("i"), BinaryOp::EqualEqual, num(3)),
                    then_branch: Box::new(block(vec![Stmt::Break])),
                    els: None,
                },
            ])),
        },
        assign("after", num(7)),
    ];
    assert_eq!(run(&mut interp, prog), Ok(()));
    assert_eq!(read_back(&mut interp, "i"), Ok(LiteralValue::Number(3)));
    assert_eq!(read_back(&mut interp, "after"), Ok(LiteralValue::Number(7)));
}

#[test]
fn continue_skips_to_the_condition_test() {
    // Conventional `continue` semantics: the rest of the body is skipped
    // and the condition is re-tested.
    let mut interp = Interpreter::new();
    let prog = vec![
        declare("i", num(0)),
        declare("sum", num(0)),
        Stmt::While {
            condition: bin(var("i"), BinaryOp::Less, num(4)),
            block: Box::new(block(vec![
                assign("i", bin(var("i"), BinaryOp::Plus, num(1))),
                Stmt::IfElse {
                    condition: bin(var("i"), BinaryOp::EqualEqual, num(2)),
                    then_branch: Box::new(block(vec![Stmt::Continue])),
                    els: None,
                },
                assign("sum", bin(var("sum"), BinaryOp::Plus, var("i"))),
            ])),
        },
    ];
    assert_eq!(run(&mut interp, prog), Ok(()));
    // 1 + 3 + 4: the iteration with i == 2 skips the summing statement.
    assert_eq!(read_back(&mut interp, "sum"), Ok(LiteralValue::Number(8)));
}

#[test]
fn while_loop_keeps_one_scope_for_all_iterations() {
    // A variable assigned in one iteration is visible to the next.
    let mut interp = Interpreter::new();
    let prog = vec![
        declare("i", num(0)),
        declare("probe", num(0)),
        Stmt::While {
            condition: bin(var("i"), BinaryOp::Less, num(3)),
            block: Box::new(block(vec![
                assign("i", bin(var("i"), BinaryOp::Plus, num(1))),
                assign("probe", bin(var("probe"), BinaryOp::Plus, num(10))),
            ])),
        },
    ];
    assert_eq!(run(&mut interp, prog), Ok(()));
    assert_eq!(read_back(&mut interp, "probe"), Ok(LiteralValue::Number(30)));
}

#[test]
fn while_body_must_be_a_block() {
    let mut interp = Interpreter::new();
    let prog = vec![Stmt::While { condition: boolean(false), block: Box::new(Stmt::Break) }];
    assert_eq!(run(&mut interp, prog), Err(EvalError::MalformedLoopBody));
}

#[test]
fn endless_loop_exhausts_the_fuel() {
    let mut interp = Interpreter::new();
    let prog = vec![Stmt::While {
        condition: boolean(true),
        block: Box::new(block(vec![])),
    }];
    assert_eq!(interp.interpret_program(&prog, 1_000), Err(EvalError::RecursionLimit));
}

#[test]
fn top_level_break_is_invalid_control_flow() {
    let mut interp = Interpreter::new();
    assert_eq!(
        run(&mut interp, vec![Stmt::Break]),
        Err(EvalError::InvalidControlFlow { kind: CfKind::Break })
    );
    assert_eq!(
        run(&mut interp, vec![Stmt::Continue]),
        Err(EvalError::InvalidControlFlow { kind: CfKind::Continue })
    );
    assert_eq!(
        run(&mut interp, vec![Stmt::Return { expr: None }]),
        Err(EvalError::InvalidControlFlow { kind: CfKind::Return })
    );
}

#[test]
fn interpret_stmt_surfaces_the_signal() {
    let mut interp = Interpreter::new();
    let prog = vec![Stmt::Return { expr: Some(num(4)) }];
    assert_eq!(
        interp.interpret_stmt(&prog, 10_000),
        Ok(ControllFlow::ReturnVal(LiteralValue::Number(4)))
    );
}

fn add_function(name: &str) -> Stmt {
    Stmt::Function {
        name: String::from(name),
        params: vec![String::from("a"), String::from("b")],
        body: vec![Stmt::Return {
            expr: Some(bin(var("a"), BinaryOp::Plus, var("b"))),
        }],
    }
}

#[test]
fn function_round_trip() {
    let mut interp = Interpreter::new();
    let prog = vec![
        add_function("add"),
        declare("r", Expr::Call {
            callee: Box::new(var("add")),
            args: vec![num(2), num(3)],
        }),
    ];
    assert_eq!(run(&mut interp, prog), Ok(()));
    assert_eq!(read_back(&mut interp, "r"), Ok(LiteralValue::Number(5)));
}

#[test]
fn wrong_argument_count_is_an_arity_error() {
    let mut interp = Interpreter::new();
    let prog = vec![
        add_function("add"),
        Stmt::Expression {
            expression: Expr::Call { callee: Box::new(var("add")), args: vec![num(2)] },
        },
    ];
    assert_eq!(
        run(&mut interp, prog),
        Err(EvalError::ArityError { expected: 2, actual: 1 })
    );
}

#[test]
fn function_without_return_yields_nil() {
    let mut interp = Interpreter::new();
    let prog = vec![
        Stmt::Function {
            name: String::from("noop"),
            params: vec![],
            body: vec![],
        },
        declare("r", Expr::Call { callee: Box::new(var("noop")), args: vec![] }),
    ];
    assert_eq!(run(&mut interp, prog), Ok(()));
    assert_eq!(read_back(&mut interp, "r"), Ok(LiteralValue::Nil));
}

#[test]
fn functions_capture_their_definition_scope() {
    // Lexical closures: the free variable resolves in the scope the
    // function was declared in, not in the caller's scope.
    let mut interp = Interpreter::new();
    let prog = vec![
        declare("x", num(1)),
        Stmt::Function {
            name: String::from("readx"),
            params: vec![],
            body: vec![Stmt::Return { expr: Some(var("x")) }],
        },
        declare("r", num(0)),
        block(vec![
            declare("x", num(99)),
            assign("r", Expr::Call { callee: Box::new(var("readx")), args: vec![] }),
        ]),
    ];
    assert_eq!(run(&mut interp, prog), Ok(()));
    assert_eq!(read_back(&mut interp, "r"), Ok(LiteralValue::Number(1)));
}

#[test]
fn function_can_mutate_its_captured_scope() {
    let mut interp = Interpreter::new();
    let prog = vec![
        declare("count", num(0)),
        Stmt::Function {
            name: String::from("bump"),
            params: vec![],
            body: vec![assign("count", bin(var("count"), BinaryOp::Plus, num(1)))],
        },
        Stmt::Expression {
            expression: Expr::Call { callee: Box::new(var("bump")), args: vec![] },
        },
        Stmt::Expression {
            expression: Expr::Call { callee: Box::new(var("bump")), args: vec![] },
        },
    ];
    assert_eq!(run(&mut interp, prog), Ok(()));
    assert_eq!(read_back(&mut interp, "count"), Ok(LiteralValue::Number(2)));
}

#[test]
fn break_escaping_a_function_body_is_an_error() {
    let mut interp = Interpreter::new();
    let prog = vec![
        Stmt::Function {
            name: String::from("bad"),
            params: vec![],
            body: vec![Stmt::Break],
        },
        Stmt::Expression {
            expression: Expr::Call { callee: Box::new(var("bad")), args: vec![] },
        },
    ];
    assert_eq!(
        run(&mut interp, prog),
        Err(EvalError::InvalidControlFlow { kind: CfKind::Break })
    );
}

#[test]
fn runaway_recursion_exhausts_the_fuel() {
    let mut interp = Interpreter::new();
    let prog = vec![
        Stmt::Function {
            name: String::from("loops"),
            params: vec![],
            body: vec![Stmt::Return {
                expr: Some(Expr::Call { callee: Box::new(var("loops")), args: vec![] }),
            }],
        },
        Stmt::Expression {
            expression: Expr::Call { callee: Box::new(var("loops")), args: vec![] },
        },
    ];
    assert_eq!(interp.interpret_program(&prog, 5_000), Err(EvalError::RecursionLimit));
}

#[test]
fn print_writes_to_the_output_buffer() {
    let mut interp = Interpreter::new();
    let prog = vec![
        Stmt::Print { expression: num(-5) },
        Stmt::Print {
            expression: Expr::Literal { value: LiteralValue::StringValue(String::from("hey")) },
        },
        Stmt::Print { expression: boolean(true) },
        Stmt::Print { expression: Expr::Literal { value: LiteralValue::Nil } },
    ];
    assert_eq!(run(&mut interp, prog), Ok(()));
    let out = interp.take_output();
    assert_eq!(out, vec![
        String::from("-5"),
        String::from("hey"),
        String::from("true"),
        String::from("nil"),
    ]);
    assert!(interp.take_output().is_empty());
}

#[test]
fn floor_native_on_integers() {
    let mut interp = Interpreter::new();
    let prog = vec![declare("r", Expr::Call {
        callee: Box::new(var("floor")),
        args: vec![num(41)],
    })];
    assert_eq!(run(&mut interp, prog), Ok(()));
    assert_eq!(read_back(&mut interp, "r"), Ok(LiteralValue::Number(41)));
}

#[test]
fn floor_native_rejects_non_numbers() {
    let mut interp = Interpreter::new();
    let prog = vec![Stmt::Expression {
        expression: Expr::Call {
            callee: Box::new(var("floor")),
            args: vec![Expr::Literal { value: LiteralValue::Nil }],
        },
    }];
    assert_eq!(
        run(&mut interp, prog),
        Err(EvalError::TypeMismatch {
            op: OpKind::Native(NativeFn::Floor),
            left: ValueType::Nil,
            right: None,
        })
    );
}

#[test]
fn time_native_returns_a_nonnegative_number() {
    let mut interp = Interpreter::new();
    let prog = vec![declare("t", Expr::Call {
        callee: Box::new(var("time")),
        args: vec![],
    })];
    assert_eq!(run(&mut interp, prog), Ok(()));
    match read_back(&mut interp, "t") {
        Ok(LiteralValue::Number(n)) => assert!(n >= 0),
        other => panic!("time() gave {:?}", other),
    }
}

#[test]
fn callables_compare_by_name_and_arity() {
    let mut interp = Interpreter::new();
    let prog = vec![
        add_function("add"),
        Stmt::Function {
            name: String::from("other"),
            params: vec![String::from("a"), String::from("b")],
            body: vec![],
        },
        declare("same", bin(var("add"), BinaryOp::EqualEqual, var("add"))),
        declare("diff", bin(var("add"), BinaryOp::EqualEqual, var("other"))),
    ];
    assert_eq!(run(&mut interp, prog), Ok(()));
    assert_eq!(read_back(&mut interp, "same"), Ok(LiteralValue::True));
    assert_eq!(read_back(&mut interp, "diff"), Ok(LiteralValue::False));
}

#[test]
fn check_program_accepts_ordinary_trees() {
    let prog = vec![
        declare("x", num(1)),
        add_function("add"),
        Stmt::Print { expression: var("x") },
    ];
    assert!(check_program(&prog));
}

#[test]
fn check_program_rejects_callable_literals() {
    let prog = vec![Stmt::Expression {
        expression: Expr::Literal {
            value: LiteralValue::Callable {
                name: String::from("forged"),
                arity: 0,
                fun: Fun::Native(NativeFn::Time),
            },
        },
    }];
    assert!(!check_program(&prog));
}

#[test]
fn display_strings() {
    assert_eq!(LiteralValue::Number(1234).to_display_string(), String::from("1234"));
    assert_eq!(LiteralValue::Number(i64::MIN).to_display_string(), String::from("-9223372036854775808"));
    assert_eq!(LiteralValue::Number(0).to_display_string(), String::from("0"));
    assert_eq!(LiteralValue::False.to_display_string(), String::from("false"));
    assert_eq!(LiteralValue::Nil.to_display_string(), String::from("nil"));
}

#[test]
fn type_labels() {
    assert_eq!(LiteralValue::Number(1).to_type(), String::from("Number"));
    assert_eq!(LiteralValue::StringValue(String::from("x")).to_type(), String::from("String"));
    assert_eq!(LiteralValue::True.to_type(), String::from("true"));
    assert_eq!(LiteralValue::False.to_type(), String::from("false"));
    assert_eq!(LiteralValue::Nil.to_type(), String::from("nil"));
}

#[test]
fn from_bool_and_equals() {
    assert_eq!(LiteralValue::from_bool(true), LiteralValue::True);
    assert_eq!(LiteralValue::from_bool(false), LiteralValue::False);
    assert!(LiteralValue::Number(3).equals(&LiteralValue::Number(3)));
    assert!(!LiteralValue::Number(3).equals(&LiteralValue::StringValue(String::from("3"))));
}

#[test]
fn refresh_time_keeps_the_rest_of_the_state() {
    let mut interp = Interpreter::new();
    let prog = vec![declare("x", num(5))];
    assert_eq!(run(&mut interp, prog), Ok(()));
    interp.refresh_time();
    assert_eq!(read_back(&mut interp, "x"), Ok(LiteralValue::Number(5)));
}

#[test]
fn assignment_is_an_expression_yielding_its_value() {
    let mut interp = Interpreter::new();
    let prog = vec![
        declare("x", num(1)),
        declare("y", Expr::Assign { name: String::from("x"), value: Box::new(num(5)) }),
    ];
    assert_eq!(run(&mut interp, prog), Ok(()));
    assert_eq!(read_back(&mut interp, "x"), Ok(LiteralValue::Number(5)));
    assert_eq!(read_back(&mut interp, "y"), Ok(LiteralValue::Number(5)));
}

#[test]
fn state_persists_across_interpreter_calls() {
    // The prompt feeds one program after another into one interpreter.
    let mut interp = Interpreter::new();
    assert_eq!(run(&mut interp, vec![declare("x", num(3))]), Ok(()));
    assert_eq!(
        run(&mut interp, vec![assign("x", bin(var("x"), BinaryOp::Plus, num(4)))]),
        Ok(())
    );
    assert_eq!(read_back(&mut interp, "x"), Ok(LiteralValue::Number(7)));
}

#[test]
fn callables_display_with_their_name() {
    let mut interp = Interpreter::new();
    let prog = vec![add_function("add"), Stmt::Print { expression: var("add") }];
    assert_eq!(run(&mut interp, prog), Ok(()));
    assert_eq!(interp.take_output(), vec![String::from("<fn add>")]);
}
