use nox::expr::BinaryOp;
use nox::expr::Expr;
use nox::expr::LiteralValue;
use nox::expr::LogicalOp;
use nox::expr::UnaryOp;

fn num(n: i64) -> Expr {
    Expr::Literal { value: LiteralValue::Number(n) }
}

#[test]
fn prints_a_prefix_tree() {
    let ast = Expr::Binary {
        left: Box::new(Expr::Unary {
            operator: UnaryOp::Minus,
            right: Box::new(num(123)),
        }),
        operator: BinaryOp::Star,
        right: Box::new(Expr::Grouping { expression: Box::new(num(45)) }),
    };
    assert_eq!(ast.to_string(), String::from("(* (- 123) (group 45))"));
}

#[test]
fn prints_addition() {
    let ast = Expr::Binary {
        left: Box::new(num(1)),
        operator: BinaryOp::Plus,
        right: Box::new(num(2)),
    };
    assert_eq!(ast.to_string(), String::from("(+ 1 2)"));
}

#[test]
fn prints_comparisons_and_groups() {
    let ast = Expr::Binary {
        left: Box::new(num(1)),
        operator: BinaryOp::EqualEqual,
        right: Box::new(Expr::Grouping {
            expression: Box::new(Expr::Binary {
                left: Box::new(num(2)),
                operator: BinaryOp::Plus,
                right: Box::new(num(2)),
            }),
        }),
    };
    assert_eq!(ast.to_string(), String::from("(== 1 (group (+ 2 2)))"));
}

#[test]
fn prints_variables_assignments_calls_and_logic() {
    let asg = Expr::Assign {
        name: String::from("x"),
        value: Box::new(Expr::Logical {
            left: Box::new(Expr::Literal { value: LiteralValue::True }),
            operator: LogicalOp::And,
            right: Box::new(Expr::Variable { name: String::from("y") }),
        }),
    };
    assert_eq!(asg.to_string(), String::from("x = (and true (var y))"));
    let call = Expr::Call {
        callee: Box::new(Expr::Variable { name: String::from("f") }),
        args: vec![num(1), Expr::Literal { value: LiteralValue::Nil }],
    };
    assert_eq!(call.to_string(), String::from("(call (var f) 1 nil)"));
}

#[test]
fn prints_negative_numbers_and_strings() {
    let ast = Expr::Unary { operator: UnaryOp::Minus, right: Box::new(num(-8)) };
    assert_eq!(ast.to_string(), String::from("(- -8)"));
    let s = Expr::Literal { value: LiteralValue::StringValue(String::from("hi")) };
    assert_eq!(s.to_string(), String::from("hi"));
}
