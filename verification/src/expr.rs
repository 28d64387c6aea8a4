//! The runtime value model and the expression nodes of the syntax tree.
//!
//! `LiteralValue` is both the payload of a literal node and the type of every
//! value the evaluator produces. Its mathematical abstraction is `Val`, over
//! which all contracts are stated; likewise `Expr` abstracts to `ExprV`.
use vstd::prelude::*;
use crate::stmt::Stmt;
use crate::stmt::StmtV;
use crate::stmt::spec_view_stmts;
use crate::stmt::dup_stmts;

verus! {

#[derive(Clone, Copy, Debug, PartialEq, Eq, Structural)]
pub enum UnaryOp {
    Minus,
    Bang,
}

#[derive(Clone, Copy, Debug, PartialEq, Eq, Structural)]
pub enum BinaryOp {
    Plus,
    Minus,
    Star,
    Slash,
    Percent,
    Greater,
    GreaterEqual,
    Less,
    LessEqual,
    EqualEqual,
    BangEqual,
}

#[derive(Clone, Copy, Debug, PartialEq, Eq, Structural)]
pub enum LogicalOp {
    And,
    Or,
}

/// The built-in native functions that the global environment is
/// pre-populated with.
#[derive(Clone, Copy, Debug, PartialEq, Eq, Structural)]
pub enum NativeFn {
    Time,
    Floor,
}

/// The body of a callable value: either a native built-in or a function
/// declared by the program, which keeps its parameter names, its body, and
/// the index of the environment it closed over at its declaration.
#[derive(Debug, PartialEq)]
pub enum Fun {
    Native(NativeFn),
    Declared { params: Vec<String>, body: Vec<Stmt>, closure: usize },
}

/// A runtime value: numbers, strings, the two booleans, nil, and callables.
#[derive(Debug, PartialEq)]
pub enum LiteralValue {
    Number(i64),
    StringValue(String),
    True,
    False,
    Nil,
    Callable { name: String, arity: usize, fun: Fun },
}

/// The mathematical abstraction of a runtime value.
pub ghost enum Val {
    Num(i64),
    Str(Seq<char>),
    True,
    False,
    Nil,
    Callable { name: Seq<char>, arity: nat, fun: FunV },
}

/// The mathematical abstraction of a callable body.
pub ghost enum FunV {
    Native(NativeFn),
    Declared { params: Seq<Seq<char>>, body: Seq<StmtV>, closure: nat },
}

/// The abstraction of a list of names.
pub open spec fn spec_view_strings(v: Seq<String>) -> Seq<Seq<char>> {
    v.map_values(|s: String| s@)
}

impl View for Fun {
    type V = FunV;

    open spec fn view(&self) -> FunV
        decreases self,
    {
        match self {
            Fun::Native(nf) => FunV::Native(*nf),
            Fun::Declared { params, body, closure } => FunV::Declared {
                params: spec_view_strings(params@),
                body: spec_view_stmts(body@),
                closure: *closure as nat,
            },
        }
    }
}

impl View for LiteralValue {
    type V = Val;

    open spec fn view(&self) -> Val
        decreases self,
    {
        match self {
            LiteralValue::Number(n) => Val::Num(*n),
            LiteralValue::StringValue(s) => Val::Str(s@),
            LiteralValue::True => Val::True,
            LiteralValue::False => Val::False,
            LiteralValue::Nil => Val::Nil,
            LiteralValue::Callable { name, arity, fun } => Val::Callable {
                name: name@,
                arity: *arity as nat,
                fun: fun@,
            },
        }
    }
}

/// The label set used in error messages.
#[derive(Clone, Copy, Debug, PartialEq, Eq, Structural)]
pub enum ValueType {
    Number,
    StringValue,
    True,
    False,
    Nil,
    Callable,
}

/// The type label of a value.
pub open spec fn spec_type_of(v: Val) -> ValueType {
    match v {
        Val::Num(_) => ValueType::Number,
        Val::Str(_) => ValueType::StringValue,
        Val::True => ValueType::True,
        Val::False => ValueType::False,
        Val::Nil => ValueType::Nil,
        Val::Callable { .. } => ValueType::Callable,
    }
}

/// Truth of a value when it steers `while`, `and` and `or`: only `False`
/// and `Nil` are false; everything else, including a zero number and an
/// empty string, is true.
pub open spec fn spec_is_truthy(v: Val) -> bool {
    match v {
        Val::False => false,
        Val::Nil => false,
        _ => true,
    }
}

/// The separate rule of explicit logical negation (`!`): a zero number, an
/// empty string, `False` and `Nil` count as falsy. This deliberately
/// differs from `spec_is_truthy`, which treats `0` and `""` as true.
pub open spec fn spec_is_falsy(v: Val) -> bool {
    match v {
        Val::Num(n) => n == 0,
        Val::Str(s) => s.len() == 0,
        Val::False => true,
        Val::Nil => true,
        _ => false,
    }
}

pub open spec fn spec_from_bool(b: bool) -> Val {
    if b {
        Val::True
    } else {
        Val::False
    }
}

/// Language-level equality of two values: structural on numbers, strings,
/// booleans and nil; two callables are equal iff name and arity match;
/// values of different shapes are unequal, never an error.
pub open spec fn spec_val_eq(a: Val, b: Val) -> bool {
    match (a, b) {
        (Val::Num(x), Val::Num(y)) => x == y,
        (Val::Str(x), Val::Str(y)) => x == y,
        (Val::True, Val::True) => true,
        (Val::False, Val::False) => true,
        (Val::Nil, Val::Nil) => true,
        (
            Val::Callable { name: n1, arity: a1, fun: _ },
            Val::Callable { name: n2, arity: a2, fun: _ },
        ) => n1 == n2 && a1 == a2,
        _ => false,
    }
}

impl LiteralValue {
    /// A value abstracts to a callable exactly when it is one.
    pub proof fn lemma_view_is_callable(&self)
        ensures
            (self@ is Callable) == (*self is Callable),
    {
        match self {
            LiteralValue::Number(_) => {},
            LiteralValue::StringValue(_) => {},
            LiteralValue::True => {},
            LiteralValue::False => {},
            LiteralValue::Nil => {},
            LiteralValue::Callable { .. } => {},
        }
    }

    /// Explicit logical negation: yields `True` exactly on the falsy
    /// values (zero, empty string, `False`, `Nil`).
    pub fn is_falsy(&self) -> (r: LiteralValue)
        ensures
            r@ == spec_from_bool(spec_is_falsy(self@)),
    {
        match self {
            LiteralValue::Number(x) => {
                if *x == 0i64 {
                    LiteralValue::True
                } else {
                    LiteralValue::False
                }
            },
            LiteralValue::StringValue(s) => {
                if s.as_str().unicode_len() == 0 {
                    LiteralValue::True
                } else {
                    LiteralValue::False
                }
            },
            LiteralValue::True => LiteralValue::False,
            LiteralValue::False => LiteralValue::True,
            LiteralValue::Nil => LiteralValue::True,
            LiteralValue::Callable { .. } => LiteralValue::False,
        }
    }

    /// Truth of the value in a branching position.
    pub fn is_truthy(&self) -> (r: bool)
        ensures
            r == spec_is_truthy(self@),
    {
        match self {
            LiteralValue::False => false,
            LiteralValue::Nil => false,
            _ => true,
        }
    }

    pub fn from_bool(b: bool) -> (r: LiteralValue)
        ensures
            r@ == spec_from_bool(b),
    {
        if b {
            LiteralValue::True
        } else {
            LiteralValue::False
        }
    }

    /// The type label of the value, as an enum.
    pub fn value_type(&self) -> (r: ValueType)
        ensures
            r == spec_type_of(self@),
    {
        match self {
            LiteralValue::Number(_) => ValueType::Number,
            LiteralValue::StringValue(_) => ValueType::StringValue,
            LiteralValue::True => ValueType::True,
            LiteralValue::False => ValueType::False,
            LiteralValue::Nil => ValueType::Nil,
            LiteralValue::Callable { .. } => ValueType::Callable,
        }
    }

    /// Language-level equality; see `spec_val_eq`.
    pub fn equals(&self, other: &LiteralValue) -> (r: bool)
        ensures
            r == spec_val_eq(self@, other@),
    {
        match (self, other) {
            (LiteralValue::Number(x), LiteralValue::Number(y)) => *x == *y,
            (LiteralValue::StringValue(x), LiteralValue::StringValue(y)) => *x == *y,
            (LiteralValue::True, LiteralValue::True) => true,
            (LiteralValue::False, LiteralValue::False) => true,
            (LiteralValue::Nil, LiteralValue::Nil) => true,
            (
                LiteralValue::Callable { name: n1, arity: a1, fun: _ },
                LiteralValue::Callable { name: n2, arity: a2, fun: _ },
            ) => *n1 == *n2 && *a1 == *a2,
            _ => false,
        }
    }

    /// A deep copy with the same abstraction as the original.
    pub fn duplicate(&self) -> (r: LiteralValue)
        ensures
            r@ == self@,
        decreases self,
    {
        match self {
            LiteralValue::Number(n) => LiteralValue::Number(*n),
            LiteralValue::StringValue(s) => LiteralValue::StringValue(s.clone()),
            LiteralValue::True => LiteralValue::True,
            LiteralValue::False => LiteralValue::False,
            LiteralValue::Nil => LiteralValue::Nil,
            LiteralValue::Callable { name, arity, fun } => LiteralValue::Callable {
                name: name.clone(),
                arity: *arity,
                fun: match fun {
                    Fun::Native(nf) => Fun::Native(*nf),
                    Fun::Declared { params, body, closure } => Fun::Declared {
                        params: dup_strings(params),
                        body: dup_stmts(body),
                        closure: *closure,
                    },
                },
            },
        }
    }
}

/// An expression node of the syntax tree.
#[derive(Debug, PartialEq)]
pub enum Expr {
    Literal { value: LiteralValue },
    Grouping { expression: Box<Expr> },
    Unary { operator: UnaryOp, right: Box<Expr> },
    Binary { left: Box<Expr>, operator: BinaryOp, right: Box<Expr> },
    Logical { left: Box<Expr>, operator: LogicalOp, right: Box<Expr> },
    Variable { name: String },
    Assign { name: String, value: Box<Expr> },
    Call { callee: Box<Expr>, args: Vec<Expr> },
}

/// The mathematical abstraction of an expression node.
pub ghost enum ExprV {
    Literal { value: Val },
    Grouping { expression: Box<ExprV> },
    Unary { operator: UnaryOp, right: Box<ExprV> },
    Binary { left: Box<ExprV>, operator: BinaryOp, right: Box<ExprV> },
    Logical { left: Box<ExprV>, operator: LogicalOp, right: Box<ExprV> },
    Variable { name: Seq<char> },
    Assign { name: Seq<char>, value: Box<ExprV> },
    Call { callee: Box<ExprV>, args: Seq<ExprV> },
}

/// The abstraction of an expression list, element for element.
pub open spec fn spec_view_exprs(v: Seq<Expr>) -> Seq<ExprV>
    decreases v,
{
    if v.len() == 0 {
        Seq::empty()
    } else {
        spec_view_exprs(v.drop_last()).push(v.last()@)
    }
}

impl View for Expr {
    type V = ExprV;

    open spec fn view(&self) -> ExprV
        decreases self,
    {
        match self {
            Expr::Literal { value } => ExprV::Literal { value: value@ },
            Expr::Grouping { expression } => ExprV::Grouping {
                expression: Box::new((**expression)@),
            },
            Expr::Unary { operator, right } => ExprV::Unary {
                operator: *operator,
                right: Box::new((**right)@),
            },
            Expr::Binary { left, operator, right } => ExprV::Binary {
                left: Box::new((**left)@),
                operator: *operator,
                right: Box::new((**right)@),
            },
            Expr::Logical { left, operator, right } => ExprV::Logical {
                left: Box::new((**left)@),
                operator: *operator,
                right: Box::new((**right)@),
            },
            Expr::Variable { name } => ExprV::Variable { name: name@ },
            Expr::Assign { name, value } => ExprV::Assign {
                name: name@,
                value: Box::new((**value)@),
            },
            Expr::Call { callee, args } => ExprV::Call {
                callee: Box::new((**callee)@),
                args: spec_view_exprs(args@),
            },
        }
    }
}

pub proof fn lemma_view_exprs_len(v: Seq<Expr>)
    ensures
        spec_view_exprs(v).len() == v.len(),
    decreases v,
{
    if v.len() == 0 {
        assert(spec_view_exprs(v) == Seq::<ExprV>::empty());
    } else {
        assert(spec_view_exprs(v) == spec_view_exprs(v.drop_last()).push(v.last()@));
        lemma_view_exprs_len(v.drop_last());
    }
}

pub proof fn lemma_view_exprs_index(v: Seq<Expr>, i: int)
    requires
        0 <= i < v.len(),
    ensures
        spec_view_exprs(v).len() == v.len(),
        spec_view_exprs(v)[i] == v[i]@,
    decreases v,
{
    lemma_view_exprs_len(v);
    if v.len() > 0 {
        assert(spec_view_exprs(v) == spec_view_exprs(v.drop_last()).push(v.last()@));
        lemma_view_exprs_len(v.drop_last());
        if i < v.len() - 1 {
            lemma_view_exprs_index(v.drop_last(), i);
            assert(v.drop_last()[i] == v[i]);
        } else {
            assert(v.last() == v[i]);
        }
    }
}

impl Expr {
    /// A deep copy with the same abstraction as the original.
    pub fn duplicate(&self) -> (r: Expr)
        ensures
            r@ == self@,
        decreases self,
    {
        match self {
            Expr::Literal { value } => Expr::Literal { value: value.duplicate() },
            Expr::Grouping { expression } => Expr::Grouping {
                expression: Box::new(expression.duplicate()),
            },
            Expr::Unary { operator, right } => Expr::Unary {
                operator: *operator,
                right: Box::new(right.duplicate()),
            },
            Expr::Binary { left, operator, right } => Expr::Binary {
                left: Box::new(left.duplicate()),
                operator: *operator,
                right: Box::new(right.duplicate()),
            },
            Expr::Logical { left, operator, right } => Expr::Logical {
                left: Box::new(left.duplicate()),
                operator: *operator,
                right: Box::new(right.duplicate()),
            },
            Expr::Variable { name } => Expr::Variable { name: name.clone() },
            Expr::Assign { name, value } => Expr::Assign {
                name: name.clone(),
                value: Box::new(value.duplicate()),
            },
            Expr::Call { callee, args } => Expr::Call {
                callee: Box::new(callee.duplicate()),
                args: dup_exprs(args),
            },
        }
    }
}

/// A deep copy of an expression list whose abstraction is unchanged.
pub fn dup_exprs(v: &Vec<Expr>) -> (r: Vec<Expr>)
    ensures
        spec_view_exprs(r@) == spec_view_exprs(v@),
        r@.len() == v@.len(),
    decreases v,
{
    let mut r: Vec<Expr> = Vec::new();
    let mut i: usize = 0;
    while i < v.len()
        invariant
            i <= v@.len(),
            r@.len() == i,
            forall|j: int| 0 <= j < i ==> r@[j]@ == v@[j]@,
        decreases v@.len() - i,
    {
        r.push(v[i].duplicate());
        i = i + 1;
    }
    proof {
        lemma_view_exprs_len(r@);
        lemma_view_exprs_len(v@);
        assert forall|j: int| 0 <= j < v@.len() implies spec_view_exprs(r@)[j] == spec_view_exprs(
            v@,
        )[j] by {
            lemma_view_exprs_index(r@, j);
            lemma_view_exprs_index(v@, j);
        }
        assert(spec_view_exprs(r@) =~= spec_view_exprs(v@));
    }
    r
}

/// A copy of a list of names.
pub fn dup_strings(v: &Vec<String>) -> (r: Vec<String>)
    ensures
        r@ == v@,
{
    let mut r: Vec<String> = Vec::new();
    let mut i: usize = 0;
    while i < v.len()
        invariant
            i <= v@.len(),
            r@ =~= v@.subrange(0, i as int),
        decreases v@.len() - i,
    {
        r.push(v[i].clone());
        i = i + 1;
    }
    proof {
        assert(r@ =~= v@);
    }
    r
}

} // verus!
