use nox::expr::BinaryOp;
use nox::expr::Expr;
use nox::expr::LiteralValue;
use nox::expr::LogicalOp;
use nox::expr::UnaryOp;
use nox::expr::ValueType;
use nox::interpreter::EvalError;
use nox::interpreter::Interpreter;
use nox::semantics::OpKind;

fn num(n: i64) -> Expr {
    Expr::Literal { value: LiteralValue::Number(n) }
}

fn strv(s: &str) -> LiteralValue {
    LiteralValue::StringValue(String::from(s))
}

fn strl(s: &str) -> Expr {
    Expr::Literal { value: strv(s) }
}

fn bin(l: Expr, op: BinaryOp, r: Expr) -> Expr {
    Expr::Binary { left: Box::new(l), operator: op, right: Box::new(r) }
}

fn eval_one(e: Expr) -> Result<LiteralValue, EvalError> {
    let mut interp = Interpreter::new();
    interp.interpret(e, 10_000)
}

#[test]
fn literal_addition() {
    assert_eq!(eval_one(bin(num(2), BinaryOp::Plus, num(3))), Ok(LiteralValue::Number(5)));
}

#[test]
fn literal_subtraction() {
    assert_eq!(eval_one(bin(num(2), BinaryOp::Minus, num(5))), Ok(LiteralValue::Number(-3)));
}

#[test]
fn literal_multiplication() {
    assert_eq!(eval_one(bin(num(7), BinaryOp::Star, num(-6))), Ok(LiteralValue::Number(-42)));
}

#[test]
fn literal_division_truncates() {
    assert_eq!(eval_one(bin(num(7), BinaryOp::Slash, num(2))), Ok(LiteralValue::Number(3)));
    assert_eq!(eval_one(bin(num(-7), BinaryOp::Slash, num(2))), Ok(LiteralValue::Number(-3)));
}

#[test]
fn literal_modulus() {
    assert_eq!(eval_one(bin(num(7), BinaryOp::Percent, num(3))), Ok(LiteralValue::Number(1)));
    assert_eq!(eval_one(bin(num(-7), BinaryOp::Percent, num(2))), Ok(LiteralValue::Number(-1)));
}

#[test]
fn division_by_zero_is_an_error() {
    assert_eq!(eval_one(bin(num(1), BinaryOp::Slash, num(0))), Err(EvalError::DivisionByZero));
    assert_eq!(eval_one(bin(num(1), BinaryOp::Percent, num(0))), Err(EvalError::DivisionByZero));
}

#[test]
fn addition_wraps_at_the_numeric_limit() {
    assert_eq!(
        eval_one(bin(num(i64::MAX), BinaryOp::Plus, num(1))),
        Ok(LiteralValue::Number(i64::MIN))
    );
}

#[test]
fn division_overflow_wraps() {
    assert_eq!(
        eval_one(bin(num(i64::MIN), BinaryOp::Slash, num(-1))),
        Ok(LiteralValue::Number(i64::MIN))
    );
    assert_eq!(
        eval_one(bin(num(i64::MIN), BinaryOp::Percent, num(-1))),
        Ok(LiteralValue::Number(0))
    );
}

#[test]
fn string_concatenation() {
    assert_eq!(eval_one(bin(strl("a"), BinaryOp::Plus, strl("b"))), Ok(strv("ab")));
}

#[test]
fn string_number_concatenation() {
    assert_eq!(eval_one(bin(strl("a"), BinaryOp::Plus, num(1))), Ok(strv("a1")));
    assert_eq!(eval_one(bin(strl("n = "), BinaryOp::Plus, num(-42))), Ok(strv("n = -42")));
}

#[test]
fn number_plus_string_is_a_type_mismatch() {
    assert_eq!(
        eval_one(bin(num(1), BinaryOp::Plus, strl("a"))),
        Err(EvalError::TypeMismatch {
            op: OpKind::Binary(BinaryOp::Plus),
            left: ValueType::Number,
            right: Some(ValueType::StringValue),
        })
    );
}

#[test]
fn numeric_comparisons() {
    assert_eq!(eval_one(bin(num(2), BinaryOp::Less, num(3))), Ok(LiteralValue::True));
    assert_eq!(eval_one(bin(num(3), BinaryOp::LessEqual, num(3))), Ok(LiteralValue::True));
    assert_eq!(eval_one(bin(num(2), BinaryOp::Greater, num(3))), Ok(LiteralValue::False));
    assert_eq!(eval_one(bin(num(3), BinaryOp::GreaterEqual, num(4))), Ok(LiteralValue::False));
}

#[test]
fn string_comparisons_are_lexicographic() {
    assert_eq!(eval_one(bin(strl("abc"), BinaryOp::Less, strl("abd"))), Ok(LiteralValue::True));
    assert_eq!(eval_one(bin(strl("a"), BinaryOp::Less, strl("ab"))), Ok(LiteralValue::True));
    assert_eq!(eval_one(bin(strl("b"), BinaryOp::Greater, strl("ab"))), Ok(LiteralValue::True));
    assert_eq!(eval_one(bin(strl("ab"), BinaryOp::GreaterEqual, strl("ab"))), Ok(LiteralValue::True));
    assert_eq!(eval_one(bin(strl("ab"), BinaryOp::LessEqual, strl("aa"))), Ok(LiteralValue::False));
}

#[test]
fn cross_type_comparison_is_a_type_mismatch() {
    assert_eq!(
        eval_one(bin(num(1), BinaryOp::Less, strl("a"))),
        Err(EvalError::TypeMismatch {
            op: OpKind::Binary(BinaryOp::Less),
            left: ValueType::Number,
            right: Some(ValueType::StringValue),
        })
    );
}

#[test]
fn cross_type_equality_is_false_not_an_error() {
    assert_eq!(
        eval_one(bin(num(1), BinaryOp::EqualEqual, strl("1"))),
        Ok(LiteralValue::False)
    );
    assert_eq!(
        eval_one(bin(num(1), BinaryOp::BangEqual, strl("1"))),
        Ok(LiteralValue::True)
    );
    assert_eq!(
        eval_one(bin(Expr::Literal { value: LiteralValue::Nil }, BinaryOp::EqualEqual, num(0))),
        Ok(LiteralValue::False)
    );
}

#[test]
fn same_type_equality() {
    assert_eq!(eval_one(bin(num(4), BinaryOp::EqualEqual, num(4))), Ok(LiteralValue::True));
    assert_eq!(eval_one(bin(strl("x"), BinaryOp::EqualEqual, strl("x"))), Ok(LiteralValue::True));
    assert_eq!(
        eval_one(bin(
            Expr::Literal { value: LiteralValue::Nil },
            BinaryOp::EqualEqual,
            Expr::Literal { value: LiteralValue::Nil },
        )),
        Ok(LiteralValue::True)
    );
}

#[test]
fn unary_minus_negates_numbers_only() {
    assert_eq!(
        eval_one(Expr::Unary { operator: UnaryOp::Minus, right: Box::new(num(5)) }),
        Ok(LiteralValue::Number(-5))
    );
    assert_eq!(
        eval_one(Expr::Unary { operator: UnaryOp::Minus, right: Box::new(strl("a")) }),
        Err(EvalError::TypeMismatch {
            op: OpKind::Unary(UnaryOp::Minus),
            left: ValueType::StringValue,
            right: None,
        })
    );
}

#[test]
fn bang_follows_the_falsy_rule() {
    assert_eq!(
        eval_one(Expr::Unary { operator: UnaryOp::Bang, right: Box::new(num(0)) }),
        Ok(LiteralValue::True)
    );
    assert_eq!(
        eval_one(Expr::Unary { operator: UnaryOp::Bang, right: Box::new(strl("")) }),
        Ok(LiteralValue::True)
    );
    assert_eq!(
        eval_one(Expr::Unary { operator: UnaryOp::Bang, right: Box::new(num(1)) }),
        Ok(LiteralValue::False)
    );
    assert_eq!(
        eval_one(Expr::Unary {
            operator: UnaryOp::Bang,
            right: Box::new(Expr::Literal { value: LiteralValue::Nil }),
        }),
        Ok(LiteralValue::True)
    );
}

#[test]
fn truthiness_differs_from_the_falsy_rule() {
    // Zero and the empty string are truthy for branching but falsy for `!`.
    assert!(LiteralValue::Number(0).is_truthy());
    assert_eq!(LiteralValue::Number(0).is_falsy(), LiteralValue::True);
    assert!(strv("").is_truthy());
    assert_eq!(strv("").is_falsy(), LiteralValue::True);
    assert!(!LiteralValue::Nil.is_truthy());
    assert!(!LiteralValue::False.is_truthy());
}

#[test]
fn and_short_circuits_on_a_falsy_left() {
    // The right side reads an undeclared name, which must never be reached.
    let e = Expr::Logical {
        left: Box::new(Expr::Literal { value: LiteralValue::False }),
        operator: LogicalOp::And,
        right: Box::new(Expr::Variable { name: String::from("missing") }),
    };
    assert_eq!(eval_one(e), Ok(LiteralValue::False));
}

#[test]
fn or_short_circuits_on_a_truthy_left() {
    let e = Expr::Logical {
        left: Box::new(Expr::Literal { value: LiteralValue::True }),
        operator: LogicalOp::Or,
        right: Box::new(Expr::Variable { name: String::from("missing") }),
    };
    assert_eq!(eval_one(e), Ok(LiteralValue::True));
}

#[test]
fn logical_operators_return_the_deciding_side() {
    // `and` with a truthy left returns the right value; `or` with a falsy
    // left returns the right value.
    let e = Expr::Logical {
        left: Box::new(num(1)),
        operator: LogicalOp::And,
        right: Box::new(num(2)),
    };
    assert_eq!(eval_one(e), Ok(LiteralValue::Number(2)));
    let e2 = Expr::Logical {
        left: Box::new(Expr::Literal { value: LiteralValue::Nil }),
        operator: LogicalOp::Or,
        right: Box::new(num(7)),
    };
    assert_eq!(eval_one(e2), Ok(LiteralValue::Number(7)));
}

#[test]
fn undeclared_variable_read_is_an_error() {
    assert_eq!(
        eval_one(Expr::Variable { name: String::from("ghostly") }),
        Err(EvalError::UndeclaredVariable { name: String::from("ghostly") })
    );
}

#[test]
fn undeclared_variable_assignment_is_an_error() {
    let e = Expr::Assign { name: String::from("nowhere"), value: Box::new(num(1)) };
    assert_eq!(
        eval_one(e),
        Err(EvalError::UndeclaredVariable { name: String::from("nowhere") })
    );
}

#[test]
fn calling_a_non_callable_is_an_error() {
    let e = Expr::Call { callee: Box::new(num(3)), args: vec![] };
    assert_eq!(eval_one(e), Err(EvalError::NotCallable { what: ValueType::Number }));
}

#[test]
fn grouping_is_transparent() {
    let e = Expr::Grouping { expression: Box::new(bin(num(2), BinaryOp::Plus, num(2))) };
    assert_eq!(eval_one(e), Ok(LiteralValue::Number(4)));
}

#[test]
fn evaluation_with_no_fuel_reports_the_limit() {
    assert_eq!(eval_one_with_fuel(num(1), 0), Err(EvalError::RecursionLimit));
}

fn eval_one_with_fuel(e: Expr, fuel: u64) -> Result<LiteralValue, EvalError> {
    let mut interp = Interpreter::new();
    interp.interpret(e, fuel)
}

#[test]
fn read_only_expression_evaluates_identically_twice() {
    let mut interp = Interpreter::new();
    let make = || bin(
        bin(num(2), BinaryOp::Plus, num(3)),
        BinaryOp::Star,
        Expr::Grouping { expression: Box::new(num(4)) },
    );
    let first = interp.interpret(make(), 10_000);
    let second = interp.interpret(make(), 10_000);
    assert_eq!(first, Ok(LiteralValue::Number(20)));
    assert_eq!(first, second);
}

#[test]
fn empty_string_ordering() {
    assert_eq!(eval_one(bin(strl(""), BinaryOp::Less, strl("a"))), Ok(LiteralValue::True));
    assert_eq!(eval_one(bin(strl(""), BinaryOp::Less, strl(""))), Ok(LiteralValue::False));
    assert_eq!(eval_one(bin(strl(""), BinaryOp::LessEqual, strl(""))), Ok(LiteralValue::True));
}

#[test]
fn modulus_keeps_the_sign_of_the_dividend() {
    assert_eq!(eval_one(bin(num(7), BinaryOp::Percent, num(-2))), Ok(LiteralValue::Number(1)));
    assert_eq!(eval_one(bin(num(-7), BinaryOp::Percent, num(-2))), Ok(LiteralValue::Number(-1)));
}
