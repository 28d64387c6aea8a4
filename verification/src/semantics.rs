//! The mathematical semantics of the language: a specification-level
//! interpreter over the abstract syntax tree, against which the executable
//! evaluator and statement executor are proved.
//!
//! Every specification function takes a fuel bound and spends one unit per
//! step; exhausted fuel is the recursion-limit error. The executable code
//! spends fuel the same way, so the two agree step for step.
use vstd::prelude::*;
use crate::expr::ExprV;
use crate::expr::Val;
use crate::expr::FunV;
use crate::expr::NativeFn;
use crate::expr::UnaryOp;
use crate::expr::BinaryOp;
use crate::expr::LogicalOp;
use crate::expr::ValueType;
use crate::expr::spec_type_of;
use crate::expr::spec_is_truthy;
use crate::expr::spec_is_falsy;
use crate::expr::spec_from_bool;
use crate::expr::spec_val_eq;
use crate::stmt::StmtV;
use crate::environment::EnvM;
use crate::environment::spec_lookup;
use crate::environment::spec_define;
use crate::environment::spec_assign;
use crate::strings::spec_dec_int;
use crate::strings::spec_display;
use crate::strings::spec_lex_lt;

verus! {

/// The whole interpreter state: the environment arena, the clock sample
/// that the `time` native returns, and the lines the `print` statement has
/// written.
#[verifier::ext_equal]
pub ghost struct StateM {
    pub envs: Seq<EnvM>,
    pub now: i64,
    pub output: Seq<Seq<char>>,
}

/// The operator named by a type-mismatch error.
#[derive(Clone, Copy, Debug, PartialEq, Eq, Structural)]
pub enum OpKind {
    Unary(UnaryOp),
    Binary(BinaryOp),
    Native(NativeFn),
}

/// Which control-flow statement escaped its valid context.
#[derive(Clone, Copy, Debug, PartialEq, Eq, Structural)]
pub enum CfKind {
    Break,
    Continue,
    Return,
}

/// The abstraction of a runtime error.
pub ghost enum ErrM {
    UndeclaredVariable { name: Seq<char> },
    TypeMismatch { op: OpKind, left: ValueType, right: Option<ValueType> },
    ArityError { expected: nat, actual: nat },
    NotCallable { what: ValueType },
    InvalidControlFlow { kind: CfKind },
    MalformedLoopBody,
    DivisionByZero,
    RecursionLimit,
}

/// The abstraction of a control-flow signal.
pub ghost enum CfM {
    Normal,
    Break,
    Continue,
    Return(Val),
}

/// What evaluating one expression produces: the state after it, and a
/// value or an error.
#[verifier::ext_equal]
pub ghost struct EvalOut {
    pub st: StateM,
    pub res: Result<Val, ErrM>,
}

/// What executing statements produces: the state after them, and a signal
/// or an error.
#[verifier::ext_equal]
pub ghost struct ExecOut {
    pub st: StateM,
    pub res: Result<CfM, ErrM>,
}

/// What evaluating an argument list produces.
#[verifier::ext_equal]
pub ghost struct ArgsOut {
    pub st: StateM,
    pub res: Result<Seq<Val>, ErrM>,
}

// ---------------------------------------------------------------------
// Well-formedness
// ---------------------------------------------------------------------

/// A syntactically well-formed expression: literal nodes carry only
/// primitive values (the parser collaborator cannot produce a callable
/// literal), recursively.
pub open spec fn spec_expr_wf(e: ExprV) -> bool
    decreases e,
{
    match e {
        ExprV::Literal { value } => !(value is Callable),
        ExprV::Grouping { expression } => spec_expr_wf(*expression),
        ExprV::Unary { operator: _, right } => spec_expr_wf(*right),
        ExprV::Binary { left, operator: _, right } => spec_expr_wf(*left) && spec_expr_wf(*right),
        ExprV::Logical { left, operator: _, right } => spec_expr_wf(*left) && spec_expr_wf(*right),
        ExprV::Variable { name: _ } => true,
        ExprV::Assign { name: _, value } => spec_expr_wf(*value),
        ExprV::Call { callee, args } => spec_expr_wf(*callee) && spec_exprs_wf(args),
    }
}

pub open spec fn spec_exprs_wf(es: Seq<ExprV>) -> bool
    decreases es,
{
    if es.len() == 0 {
        true
    } else {
        spec_exprs_wf(es.drop_last()) && spec_expr_wf(es.last())
    }
}

pub open spec fn spec_stmt_wf(s: StmtV) -> bool
    decreases s,
{
    match s {
        StmtV::Expression { expression } => spec_expr_wf(expression),
        StmtV::Print { expression } => spec_expr_wf(expression),
        StmtV::Var { name: _, initializer } => spec_expr_wf(initializer),
        StmtV::Block { stmts } => spec_stmts_wf(stmts),
        StmtV::IfElse { condition, then_branch, els } => spec_expr_wf(condition) && spec_stmt_wf(
            *then_branch,
        ) && match els {
            Some(e) => spec_stmt_wf(*e),
            None => true,
        },
        StmtV::While { condition, block } => spec_expr_wf(condition) && spec_stmt_wf(*block),
        StmtV::Function { name: _, params: _, body } => spec_stmts_wf(body),
        StmtV::Return { expr } => match expr {
            Some(e) => spec_expr_wf(e),
            None => true,
        },
        StmtV::Break => true,
        StmtV::Continue => true,
    }
}

pub open spec fn spec_stmts_wf(ss: Seq<StmtV>) -> bool
    decreases ss,
{
    if ss.len() == 0 {
        true
    } else {
        spec_stmts_wf(ss.drop_last()) && spec_stmt_wf(ss.last())
    }
}

pub proof fn lemma_exprs_wf_index(es: Seq<ExprV>, i: int)
    requires
        spec_exprs_wf(es),
        0 <= i < es.len(),
    ensures
        spec_expr_wf(es[i]),
    decreases es,
{
    if i < es.len() - 1 {
        assert(es.drop_last()[i] == es[i]);
        lemma_exprs_wf_index(es.drop_last(), i);
    } else {
        assert(es.last() == es[i]);
    }
}

pub proof fn lemma_stmts_wf_index(ss: Seq<StmtV>, i: int)
    requires
        spec_stmts_wf(ss),
        0 <= i < ss.len(),
    ensures
        spec_stmt_wf(ss[i]),
    decreases ss,
{
    if i < ss.len() - 1 {
        assert(ss.drop_last()[i] == ss[i]);
        lemma_stmts_wf_index(ss.drop_last(), i);
    } else {
        assert(ss.last() == ss[i]);
    }
}

/// A contiguous slice of a well-formed statement list is well-formed.
pub proof fn lemma_stmts_wf_subrange(ss: Seq<StmtV>, a: int, b: int)
    requires
        spec_stmts_wf(ss),
        0 <= a <= b <= ss.len(),
    ensures
        spec_stmts_wf(ss.subrange(a, b)),
    decreases b - a,
{
    if a < b {
        lemma_stmts_wf_subrange(ss, a, b - 1);
        let t = ss.subrange(a, b);
        assert(t.drop_last() =~= ss.subrange(a, b - 1));
        assert(t.last() == ss[b - 1]);
        lemma_stmts_wf_index(ss, b - 1);
    } else {
        assert(ss.subrange(a, b) =~= Seq::<StmtV>::empty());
    }
}

pub proof fn lemma_stmts_wf_skip(ss: Seq<StmtV>, i: int)
    requires
        spec_stmts_wf(ss),
        0 <= i <= ss.len(),
    ensures
        spec_stmts_wf(ss.skip(i)),
{
    lemma_stmts_wf_subrange(ss, i, ss.len() as int);
    assert(ss.skip(i) =~= ss.subrange(i, ss.len() as int));
}

/// A contiguous slice of a well-formed expression list is well-formed.
pub proof fn lemma_exprs_wf_subrange(es: Seq<ExprV>, a: int, b: int)
    requires
        spec_exprs_wf(es),
        0 <= a <= b <= es.len(),
    ensures
        spec_exprs_wf(es.subrange(a, b)),
    decreases b - a,
{
    if a < b {
        lemma_exprs_wf_subrange(es, a, b - 1);
        let t = es.subrange(a, b);
        assert(t.drop_last() =~= es.subrange(a, b - 1));
        assert(t.last() == es[b - 1]);
        lemma_exprs_wf_index(es, b - 1);
    } else {
        assert(es.subrange(a, b) =~= Seq::<ExprV>::empty());
    }
}

pub proof fn lemma_exprs_wf_skip(es: Seq<ExprV>, i: int)
    requires
        spec_exprs_wf(es),
        0 <= i <= es.len(),
    ensures
        spec_exprs_wf(es.skip(i)),
{
    lemma_exprs_wf_subrange(es, i, es.len() as int);
    assert(es.skip(i) =~= es.subrange(i, es.len() as int));
}

/// A well-formed runtime value, relative to an arena of `n` records: a
/// declared callable closes over a record that exists, its parameter
/// count matches its arity, and its body is well-formed; native callables
/// carry their fixed arity.
pub open spec fn spec_val_wf(v: Val, n: int) -> bool {
    match v {
        Val::Callable { name: _, arity, fun } => match fun {
            FunV::Native(NativeFn::Time) => arity == 0,
            FunV::Native(NativeFn::Floor) => arity == 1,
            FunV::Declared { params, body, closure } => closure < n && params.len() == arity
                && spec_stmts_wf(body),
        },
        _ => true,
    }
}

/// A well-formed arena record: its parent has a smaller index, and every
/// stored value is well-formed for the arena.
pub open spec fn spec_env_wf_at(envs: Seq<EnvM>, i: int) -> bool {
    (match envs[i].enclosing {
        Some(p) => 0 <= p < i,
        None => true,
    }) && (forall|k: Seq<char>|
        #[trigger] envs[i].values.contains_key(k) ==> spec_val_wf(
            envs[i].values[k],
            envs.len() as int,
        ))
}

/// A well-formed arena: every record is well-formed.
pub open spec fn spec_envs_wf(envs: Seq<EnvM>) -> bool {
    forall|i: int| 0 <= i < envs.len() ==> spec_env_wf_at(envs, i)
}

/// A well-formed state: every record of the arena is well-formed.
pub open spec fn spec_state_wf(st: StateM) -> bool {
    spec_envs_wf(st.envs)
}

// ---------------------------------------------------------------------
// Operator semantics
// ---------------------------------------------------------------------

pub open spec fn spec_mismatch2(op: BinaryOp, a: Val, b: Val) -> ErrM {
    ErrM::TypeMismatch {
        op: OpKind::Binary(op),
        left: spec_type_of(a),
        right: Some(spec_type_of(b)),
    }
}

/// Wrapping negation of a number.
pub open spec fn spec_neg_i64(n: i64) -> i64 {
    if n == i64::MIN {
        i64::MIN
    } else {
        (-n) as i64
    }
}

/// Truncating division, wrapping on the one overflowing case.
pub open spec fn spec_div_i64(x: i64, y: i64) -> i64
    recommends
        y != 0,
{
    match x.checked_div(y) {
        Some(q) => q,
        None => i64::MIN,
    }
}

/// Truncating remainder, zero on the one overflowing case.
pub open spec fn spec_rem_i64(x: i64, y: i64) -> i64
    recommends
        y != 0,
{
    match x.checked_rem(y) {
        Some(q) => q,
        None => 0,
    }
}

/// The unary operators: `-` negates a number and rejects anything else;
/// `!` applies explicit logical negation to any value.
pub open spec fn spec_unary(op: UnaryOp, v: Val) -> Result<Val, ErrM> {
    match op {
        UnaryOp::Minus => match v {
            Val::Num(n) => Ok(Val::Num(spec_neg_i64(n))),
            _ => Err(
                ErrM::TypeMismatch {
                    op: OpKind::Unary(op),
                    left: spec_type_of(v),
                    right: None,
                },
            ),
        },
        UnaryOp::Bang => Ok(spec_from_bool(spec_is_falsy(v))),
    }
}

/// Arithmetic and comparison on two numbers.
pub open spec fn spec_binary_nums(op: BinaryOp, x: i64, y: i64) -> Result<Val, ErrM> {
    match op {
        BinaryOp::Plus => Ok(Val::Num(x.wrapping_add(y))),
        BinaryOp::Minus => Ok(Val::Num(x.wrapping_sub(y))),
        BinaryOp::Star => Ok(Val::Num(x.wrapping_mul(y))),
        BinaryOp::Slash => if y == 0 {
            Err(ErrM::DivisionByZero)
        } else {
            Ok(Val::Num(spec_div_i64(x, y)))
        },
        BinaryOp::Percent => if y == 0 {
            Err(ErrM::DivisionByZero)
        } else {
            Ok(Val::Num(spec_rem_i64(x, y)))
        },
        BinaryOp::Greater => Ok(spec_from_bool(x > y)),
        BinaryOp::GreaterEqual => Ok(spec_from_bool(x >= y)),
        BinaryOp::Less => Ok(spec_from_bool(x < y)),
        BinaryOp::LessEqual => Ok(spec_from_bool(x <= y)),
        BinaryOp::EqualEqual => Ok(spec_from_bool(x == y)),
        BinaryOp::BangEqual => Ok(spec_from_bool(x != y)),
    }
}

/// Concatenation and lexicographic comparison on two strings.
pub open spec fn spec_binary_strs(op: BinaryOp, x: Seq<char>, y: Seq<char>) -> Result<Val, ErrM> {
    match op {
        BinaryOp::Plus => Ok(Val::Str(x + y)),
        BinaryOp::Greater => Ok(spec_from_bool(spec_lex_lt(y, x))),
        BinaryOp::GreaterEqual => Ok(spec_from_bool(!spec_lex_lt(x, y))),
        BinaryOp::Less => Ok(spec_from_bool(spec_lex_lt(x, y))),
        BinaryOp::LessEqual => Ok(spec_from_bool(!spec_lex_lt(y, x))),
        BinaryOp::EqualEqual => Ok(spec_from_bool(x == y)),
        BinaryOp::BangEqual => Ok(spec_from_bool(x != y)),
        _ => Err(spec_mismatch2(op, Val::Str(x), Val::Str(y))),
    }
}

/// The binary operators. Equality is defined on every pair of values and
/// never errs. Arithmetic needs two numbers, except `+`, which also
/// concatenates two strings and a string with a number on its right —
/// `(Number, String)` stays an error, deliberately. Ordering compares two
/// numbers or two strings.
pub open spec fn spec_binary(op: BinaryOp, a: Val, b: Val) -> Result<Val, ErrM> {
    if op == BinaryOp::EqualEqual {
        Ok(spec_from_bool(spec_val_eq(a, b)))
    } else if op == BinaryOp::BangEqual {
        Ok(spec_from_bool(!spec_val_eq(a, b)))
    } else {
        match (a, b) {
            (Val::Num(x), Val::Num(y)) => spec_binary_nums(op, x, y),
            (Val::Str(x), Val::Str(y)) => spec_binary_strs(op, x, y),
            (Val::Str(x), Val::Num(y)) => if op == BinaryOp::Plus {
                Ok(Val::Str(x + spec_dec_int(y as int)))
            } else {
                Err(spec_mismatch2(op, a, b))
            },
            _ => Err(spec_mismatch2(op, a, b)),
        }
    }
}

/// The `floor` native: on integers the floor of a number is itself; a
/// non-number is a typed error.
pub open spec fn spec_native_floor(v: Val) -> Result<Val, ErrM> {
    match v {
        Val::Num(n) => Ok(Val::Num(n)),
        _ => Err(
            ErrM::TypeMismatch {
                op: OpKind::Native(NativeFn::Floor),
                left: spec_type_of(v),
                right: None,
            },
        ),
    }
}

// ---------------------------------------------------------------------
// The specification interpreter
// ---------------------------------------------------------------------

/// Binds parameter names to argument values, in order, in the record at
/// `idx`.
pub open spec fn spec_bind_params(
    envs: Seq<EnvM>,
    idx: int,
    params: Seq<Seq<char>>,
    args: Seq<Val>,
) -> Seq<EnvM>
    decreases params.len(),
{
    if params.len() == 0 {
        envs
    } else {
        spec_bind_params(
            spec_define(envs, idx, params[0], args[0]),
            idx,
            params.skip(1),
            args.skip(1),
        )
    }
}

/// Evaluation of one expression, producing the new state and a value or
/// an error.
pub open spec fn spec_eval(e: ExprV, st: StateM, cur: int, fuel: nat) -> EvalOut
    decreases fuel,
{
    if fuel == 0 {
        EvalOut { st, res: Err(ErrM::RecursionLimit) }
    } else {
        match e {
            ExprV::Literal { value } => EvalOut { st, res: Ok(value) },
            ExprV::Grouping { expression } => spec_eval(*expression, st, cur, (fuel - 1) as nat),
            ExprV::Unary { operator, right } => {
                let o = spec_eval(*right, st, cur, (fuel - 1) as nat);
                match o.res {
                    Ok(v) => EvalOut { st: o.st, res: spec_unary(operator, v) },
                    Err(e) => o,
                }
            },
            ExprV::Binary { left, operator, right } => {
                let o1 = spec_eval(*left, st, cur, (fuel - 1) as nat);
                match o1.res {
                    Ok(a) => {
                        let o2 = spec_eval(*right, o1.st, cur, (fuel - 1) as nat);
                        match o2.res {
                            Ok(b) => EvalOut { st: o2.st, res: spec_binary(operator, a, b) },
                            Err(e) => o2,
                        }
                    },
                    Err(e) => o1,
                }
            },
            ExprV::Logical { left, operator, right } => {
                let o1 = spec_eval(*left, st, cur, (fuel - 1) as nat);
                match o1.res {
                    Ok(a) => {
                        let keep = match operator {
                            LogicalOp::Or => spec_is_truthy(a),
                            LogicalOp::And => !spec_is_truthy(a),
                        };
                        if keep {
                            o1
                        } else {
                            spec_eval(*right, o1.st, cur, (fuel - 1) as nat)
                        }
                    },
                    Err(e) => o1,
                }
            },
            ExprV::Variable { name } => match spec_lookup(st.envs, cur, name) {
                Some(v) => EvalOut { st, res: Ok(v) },
                None => EvalOut { st, res: Err(ErrM::UndeclaredVariable { name }) },
            },
            ExprV::Assign { name, value } => {
                let o = spec_eval(*value, st, cur, (fuel - 1) as nat);
                match o.res {
                    Ok(v) => {
                        let (envs2, hit) = spec_assign(o.st.envs, cur, name, v);
                        if hit {
                            EvalOut { st: StateM { envs: envs2, ..o.st }, res: Ok(v) }
                        } else {
                            EvalOut { st: o.st, res: Err(ErrM::UndeclaredVariable { name }) }
                        }
                    },
                    Err(e) => o,
                }
            },
            ExprV::Call { callee, args } => {
                let o1 = spec_eval(*callee, st, cur, (fuel - 1) as nat);
                match o1.res {
                    Ok(f) => {
                        let o2 = spec_eval_args(args, o1.st, cur, (fuel - 1) as nat);
                        match o2.res {
                            Ok(vs) => spec_call(f, vs, o2.st, (fuel - 1) as nat),
                            Err(e) => EvalOut { st: o2.st, res: Err(e) },
                        }
                    },
                    Err(e) => o1,
                }
            },
        }
    }
}

/// Evaluation of an argument list, left to right, eagerly.
pub open spec fn spec_eval_args(es: Seq<ExprV>, st: StateM, cur: int, fuel: nat) -> ArgsOut
    decreases fuel,
{
    if es.len() == 0 {
        ArgsOut { st, res: Ok(Seq::empty()) }
    } else if fuel == 0 {
        ArgsOut { st, res: Err(ErrM::RecursionLimit) }
    } else {
        let o = spec_eval(es[0], st, cur, (fuel - 1) as nat);
        match o.res {
            Ok(v) => {
                let rest = spec_eval_args(es.skip(1), o.st, cur, (fuel - 1) as nat);
                match rest.res {
                    Ok(vs) => ArgsOut { st: rest.st, res: Ok(seq![v] + vs) },
                    Err(e) => rest,
                }
            },
            Err(e) => ArgsOut { st: o.st, res: Err(e) },
        }
    }
}

/// Invocation of a callable value on already-evaluated arguments: the
/// callee must be callable, the argument count must match its arity;
/// a declared function runs its body in a fresh scope whose parent is the
/// scope the function closed over at its declaration; a `Return` signal
/// becomes the result, completion without one yields `Nil`, and an
/// escaping `Break` or `Continue` is an error.
pub open spec fn spec_call(f: Val, args: Seq<Val>, st: StateM, fuel: nat) -> EvalOut
    decreases fuel,
{
    if fuel == 0 {
        EvalOut { st, res: Err(ErrM::RecursionLimit) }
    } else {
        match f {
            Val::Callable { name: _, arity, fun } => if args.len() != arity {
                EvalOut {
                    st,
                    res: Err(ErrM::ArityError { expected: arity, actual: args.len() }),
                }
            } else {
                match fun {
                    FunV::Native(NativeFn::Time) => EvalOut { st, res: Ok(Val::Num(st.now)) },
                    FunV::Native(NativeFn::Floor) => EvalOut {
                        st,
                        res: spec_native_floor(args[0]),
                    },
                    FunV::Declared { params, body, closure } => {
                        let fresh = st.envs.len() as int;
                        let envs1 = st.envs.push(
                            EnvM { values: Map::empty(), enclosing: Some(closure as int) },
                        );
                        let envs2 = spec_bind_params(envs1, fresh, params, args);
                        let o = spec_exec_stmts(
                            body,
                            StateM { envs: envs2, ..st },
                            fresh,
                            (fuel - 1) as nat,
                        );
                        match o.res {
                            Ok(CfM::Return(v)) => EvalOut { st: o.st, res: Ok(v) },
                            Ok(CfM::Normal) => EvalOut { st: o.st, res: Ok(Val::Nil) },
                            Ok(CfM::Break) => EvalOut {
                                st: o.st,
                                res: Err(ErrM::InvalidControlFlow { kind: CfKind::Break }),
                            },
                            Ok(CfM::Continue) => EvalOut {
                                st: o.st,
                                res: Err(ErrM::InvalidControlFlow { kind: CfKind::Continue }),
                            },
                            Err(e) => EvalOut { st: o.st, res: Err(e) },
                        }
                    },
                }
            },
            _ => EvalOut { st, res: Err(ErrM::NotCallable { what: spec_type_of(f) }) },
        }
    }
}

/// Execution of one statement.
pub open spec fn spec_exec_stmt(s: StmtV, st: StateM, cur: int, fuel: nat) -> ExecOut
    decreases fuel,
{
    if fuel == 0 {
        ExecOut { st, res: Err(ErrM::RecursionLimit) }
    } else {
        match s {
            StmtV::Expression { expression } => {
                let o = spec_eval(expression, st, cur, (fuel - 1) as nat);
                match o.res {
                    Ok(_) => ExecOut { st: o.st, res: Ok(CfM::Normal) },
                    Err(e) => ExecOut { st: o.st, res: Err(e) },
                }
            },
            StmtV::Print { expression } => {
                let o = spec_eval(expression, st, cur, (fuel - 1) as nat);
                match o.res {
                    Ok(v) => ExecOut {
                        st: StateM { output: o.st.output.push(spec_display(v)), ..o.st },
                        res: Ok(CfM::Normal),
                    },
                    Err(e) => ExecOut { st: o.st, res: Err(e) },
                }
            },
            StmtV::Var { name, initializer } => {
                let o = spec_eval(initializer, st, cur, (fuel - 1) as nat);
                match o.res {
                    Ok(v) => ExecOut {
                        st: StateM { envs: spec_define(o.st.envs, cur, name, v), ..o.st },
                        res: Ok(CfM::Normal),
                    },
                    Err(e) => ExecOut { st: o.st, res: Err(e) },
                }
            },
            StmtV::Block { stmts } => {
                let fresh = st.envs.len() as int;
                let st1 = StateM {
                    envs: st.envs.push(EnvM { values: Map::empty(), enclosing: Some(cur) }),
                    ..st
                };
                spec_exec_stmts(stmts, st1, fresh, (fuel - 1) as nat)
            },
            StmtV::IfElse { condition, then_branch, els } => {
                let o = spec_eval(condition, st, cur, (fuel - 1) as nat);
                match o.res {
                    Ok(v) => if v == Val::True {
                        spec_exec_branch(*then_branch, o.st, cur, (fuel - 1) as nat)
                    } else {
                        match els {
                            Some(b) => spec_exec_branch(*b, o.st, cur, (fuel - 1) as nat),
                            None => ExecOut { st: o.st, res: Ok(CfM::Normal) },
                        }
                    },
                    Err(e) => ExecOut { st: o.st, res: Err(e) },
                }
            },
            StmtV::While { condition, block } => match *block {
                StmtV::Block { stmts } => {
                    let fresh = st.envs.len() as int;
                    let st1 = StateM {
                        envs: st.envs.push(EnvM { values: Map::empty(), enclosing: Some(cur) }),
                        ..st
                    };
                    spec_exec_while(condition, stmts, st1, fresh, (fuel - 1) as nat)
                },
                _ => ExecOut { st, res: Err(ErrM::MalformedLoopBody) },
            },
            StmtV::Function { name, params, body } => {
                let callable = Val::Callable {
                    name: name,
                    arity: params.len(),
                    fun: FunV::Declared { params, body, closure: cur as nat },
                };
                ExecOut {
                    st: StateM { envs: spec_define(st.envs, cur, name, callable), ..st },
                    res: Ok(CfM::Normal),
                }
            },
            StmtV::Return { expr } => match expr {
                Some(e) => {
                    let o = spec_eval(e, st, cur, (fuel - 1) as nat);
                    match o.res {
                        Ok(v) => ExecOut { st: o.st, res: Ok(CfM::Return(v)) },
                        Err(er) => ExecOut { st: o.st, res: Err(er) },
                    }
                },
                None => ExecOut { st, res: Ok(CfM::Return(Val::Nil)) },
            },
            StmtV::Break => ExecOut { st, res: Ok(CfM::Break) },
            StmtV::Continue => ExecOut { st, res: Ok(CfM::Continue) },
        }
    }
}

/// Execution of an `if`/`else` branch in a fresh child scope of `cur`.
pub open spec fn spec_exec_branch(s: StmtV, st: StateM, cur: int, fuel: nat) -> ExecOut
    decreases fuel,
{
    if fuel == 0 {
        ExecOut { st, res: Err(ErrM::RecursionLimit) }
    } else {
        let fresh = st.envs.len() as int;
        let st1 = StateM {
            envs: st.envs.push(EnvM { values: Map::empty(), enclosing: Some(cur) }),
            ..st
        };
        spec_exec_stmt(s, st1, fresh, (fuel - 1) as nat)
    }
}

/// Execution of a statement list: statements run in order until one
/// produces a non-`Normal` signal or an error, which short-circuits the
/// rest.
pub open spec fn spec_exec_stmts(ss: Seq<StmtV>, st: StateM, cur: int, fuel: nat) -> ExecOut
    decreases fuel,
{
    if ss.len() == 0 {
        ExecOut { st, res: Ok(CfM::Normal) }
    } else if fuel == 0 {
        ExecOut { st, res: Err(ErrM::RecursionLimit) }
    } else {
        let o = spec_exec_stmt(ss[0], st, cur, (fuel - 1) as nat);
        match o.res {
            Ok(CfM::Normal) => spec_exec_stmts(ss.skip(1), o.st, cur, (fuel - 1) as nat),
            _ => o,
        }
    }
}

/// Execution of a `while` loop whose scope is already open: the condition
/// is re-evaluated against the loop scope before each iteration; `Break`
/// ends the loop normally; `Continue` skips to the next condition test;
/// `Return` propagates out.
pub open spec fn spec_exec_while(
    cond: ExprV,
    body: Seq<StmtV>,
    st: StateM,
    cur: int,
    fuel: nat,
) -> ExecOut
    decreases fuel,
{
    if fuel == 0 {
        ExecOut { st, res: Err(ErrM::RecursionLimit) }
    } else {
        let o = spec_eval(cond, st, cur, (fuel - 1) as nat);
        match o.res {
            Ok(v) => if !spec_is_truthy(v) {
                ExecOut { st: o.st, res: Ok(CfM::Normal) }
            } else {
                let b = spec_exec_stmts(body, o.st, cur, (fuel - 1) as nat);
                match b.res {
                    Ok(CfM::Break) => ExecOut { st: b.st, res: Ok(CfM::Normal) },
                    Ok(CfM::Return(rv)) => ExecOut { st: b.st, res: Ok(CfM::Return(rv)) },
                    Ok(_) => spec_exec_while(cond, body, b.st, cur, (fuel - 1) as nat),
                    Err(e) => ExecOut { st: b.st, res: Err(e) },
                }
            },
            Err(e) => ExecOut { st: o.st, res: Err(e) },
        }
    }
}

/// What a whole program yields: a `Normal` completion is success; an
/// escaping control-flow signal at the top level is an error.
pub open spec fn spec_top_result(res: Result<CfM, ErrM>) -> Result<(), ErrM> {
    match res {
        Ok(CfM::Normal) => Ok(()),
        Ok(CfM::Break) => Err(ErrM::InvalidControlFlow { kind: CfKind::Break }),
        Ok(CfM::Continue) => Err(ErrM::InvalidControlFlow { kind: CfKind::Continue }),
        Ok(CfM::Return(_)) => Err(ErrM::InvalidControlFlow { kind: CfKind::Return }),
        Err(e) => Err(e),
    }
}

// ---------------------------------------------------------------------
// Preservation of well-formedness
// ---------------------------------------------------------------------

pub proof fn lemma_val_wf_mono(v: Val, n: int, m: int)
    requires
        spec_val_wf(v, n),
        n <= m,
    ensures
        spec_val_wf(v, m),
{
}

/// Appending a child record keeps the arena well-formed.
pub proof fn lemma_envs_wf_push(envs: Seq<EnvM>, parent: int)
    requires
        spec_envs_wf(envs),
        0 <= parent < envs.len(),
    ensures
        spec_envs_wf(envs.push(EnvM { values: Map::empty(), enclosing: Some(parent) })),
{
    let envs2 = envs.push(EnvM { values: Map::empty(), enclosing: Some(parent) });
    assert forall|i: int| 0 <= i < envs2.len() implies spec_env_wf_at(envs2, i) by {
        if i < envs.len() {
            assert(envs2[i] == envs[i]);
            assert(spec_env_wf_at(envs, i));
            assert forall|k: Seq<char>| #[trigger] envs2[i].values.contains_key(k) implies
                spec_val_wf(envs2[i].values[k], envs2.len() as int) by {
                lemma_val_wf_mono(envs[i].values[k], envs.len() as int, envs2.len() as int);
            }
        } else {
            assert(envs2[i].values =~= Map::<Seq<char>, Val>::empty());
        }
    }
}

/// Binding a well-formed value in an existing record keeps the arena
/// well-formed and its length unchanged.
pub proof fn lemma_envs_wf_define(envs: Seq<EnvM>, idx: int, name: Seq<char>, v: Val)
    requires
        spec_envs_wf(envs),
        0 <= idx < envs.len(),
        spec_val_wf(v, envs.len() as int),
    ensures
        spec_envs_wf(spec_define(envs, idx, name, v)),
        spec_define(envs, idx, name, v).len() == envs.len(),
{
    let envs2 = spec_define(envs, idx, name, v);
    assert forall|i: int| 0 <= i < envs2.len() implies spec_env_wf_at(envs2, i) by {
        assert(spec_env_wf_at(envs, i));
        if i == idx {
            assert forall|k: Seq<char>| #[trigger] envs2[i].values.contains_key(k) implies
                spec_val_wf(envs2[i].values[k], envs2.len() as int) by {
                if k != name {
                    assert(envs[i].values.contains_key(k));
                }
            }
        } else {
            assert(envs2[i] == envs[i]);
        }
    }
}

/// A value found by scope-chain lookup in a well-formed arena is
/// well-formed.
pub proof fn lemma_lookup_wf(envs: Seq<EnvM>, i: int, name: Seq<char>)
    requires
        spec_envs_wf(envs),
        0 <= i < envs.len(),
    ensures
        match spec_lookup(envs, i, name) {
            Some(v) => spec_val_wf(v, envs.len() as int),
            None => true,
        },
    decreases i,
{
    assert(spec_env_wf_at(envs, i));
    if envs[i].values.contains_key(name) {
    } else {
        match envs[i].enclosing {
            Some(p) => {
                if 0 <= p < i {
                    lemma_lookup_wf(envs, p, name);
                }
            },
            None => {},
        }
    }
}

/// Scope-chain assignment of a well-formed value keeps the arena
/// well-formed and its length unchanged.
pub proof fn lemma_assign_wf(envs: Seq<EnvM>, i: int, name: Seq<char>, v: Val)
    requires
        spec_envs_wf(envs),
        0 <= i < envs.len(),
        spec_val_wf(v, envs.len() as int),
    ensures
        spec_envs_wf(spec_assign(envs, i, name, v).0),
        spec_assign(envs, i, name, v).0.len() == envs.len(),
    decreases i,
{
    assert(spec_env_wf_at(envs, i));
    if envs[i].values.contains_key(name) {
        lemma_envs_wf_define(envs, i, name, v);
    } else {
        match envs[i].enclosing {
            Some(p) => {
                if 0 <= p < i {
                    lemma_assign_wf(envs, p, name, v);
                }
            },
            None => {},
        }
    }
}

/// Binding well-formed arguments to parameters keeps the arena
/// well-formed and its length unchanged.
pub proof fn lemma_bind_params_wf(envs: Seq<EnvM>, idx: int, params: Seq<Seq<char>>, args: Seq<Val>)
    requires
        spec_envs_wf(envs),
        0 <= idx < envs.len(),
        params.len() == args.len(),
        forall|k: int| 0 <= k < args.len() ==> spec_val_wf(#[trigger] args[k], envs.len() as int),
    ensures
        spec_envs_wf(spec_bind_params(envs, idx, params, args)),
        spec_bind_params(envs, idx, params, args).len() == envs.len(),
    decreases params.len(),
{
    if params.len() > 0 {
        lemma_envs_wf_define(envs, idx, params[0], args[0]);
        let envs1 = spec_define(envs, idx, params[0], args[0]);
        assert(forall|k: int|
            0 <= k < args.skip(1).len() ==> spec_val_wf(
                #[trigger] args.skip(1)[k],
                envs1.len() as int,
            ));
        lemma_bind_params_wf(envs1, idx, params.skip(1), args.skip(1));
    }
}

/// Evaluation preserves state well-formedness, never shrinks the arena,
/// never touches the clock, and yields well-formed values.
pub proof fn lemma_eval_wf(e: ExprV, st: StateM, cur: int, fuel: nat)
    requires
        spec_state_wf(st),
        spec_expr_wf(e),
        0 <= cur < st.envs.len(),
    ensures
        ({
            let o = spec_eval(e, st, cur, fuel);
            spec_state_wf(o.st) && o.st.envs.len() >= st.envs.len() && o.st.now == st.now && (match o.res {
                Ok(v) => spec_val_wf(v, o.st.envs.len() as int),
                Err(_) => true,
            })
        }),
    decreases fuel,
{
    if fuel == 0 {
    } else {
        match e {
            ExprV::Literal { value } => {},
            ExprV::Grouping { expression } => {
                lemma_eval_wf(*expression, st, cur, (fuel - 1) as nat);
            },
            ExprV::Unary { operator, right } => {
                lemma_eval_wf(*right, st, cur, (fuel - 1) as nat);
            },
            ExprV::Binary { left, operator, right } => {
                lemma_eval_wf(*left, st, cur, (fuel - 1) as nat);
                let o1 = spec_eval(*left, st, cur, (fuel - 1) as nat);
                if o1.res is Ok {
                    lemma_eval_wf(*right, o1.st, cur, (fuel - 1) as nat);
                }
            },
            ExprV::Logical { left, operator, right } => {
                lemma_eval_wf(*left, st, cur, (fuel - 1) as nat);
                let o1 = spec_eval(*left, st, cur, (fuel - 1) as nat);
                if o1.res is Ok {
                    lemma_eval_wf(*right, o1.st, cur, (fuel - 1) as nat);
                }
            },
            ExprV::Variable { name } => {
                lemma_lookup_wf(st.envs, cur, name);
            },
            ExprV::Assign { name, value } => {
                lemma_eval_wf(*value, st, cur, (fuel - 1) as nat);
                let o = spec_eval(*value, st, cur, (fuel - 1) as nat);
                match o.res {
                    Ok(v) => {
                        lemma_assign_wf(o.st.envs, cur, name, v);
                    },
                    Err(_) => {},
                }
            },
            ExprV::Call { callee, args } => {
                lemma_eval_wf(*callee, st, cur, (fuel - 1) as nat);
                let o1 = spec_eval(*callee, st, cur, (fuel - 1) as nat);
                match o1.res {
                    Ok(f) => {
                        lemma_eval_args_wf(args, o1.st, cur, (fuel - 1) as nat);
                        let o2 = spec_eval_args(args, o1.st, cur, (fuel - 1) as nat);
                        match o2.res {
                            Ok(vs) => {
                                lemma_val_wf_mono(
                                    f,
                                    o1.st.envs.len() as int,
                                    o2.st.envs.len() as int,
                                );
                                lemma_call_wf(f, vs, o2.st, (fuel - 1) as nat);
                            },
                            Err(_) => {},
                        }
                    },
                    Err(_) => {},
                }
            },
        }
    }
}

/// Argument evaluation preserves well-formedness and yields well-formed
/// values, one per argument.
pub proof fn lemma_eval_args_wf(es: Seq<ExprV>, st: StateM, cur: int, fuel: nat)
    requires
        spec_state_wf(st),
        spec_exprs_wf(es),
        0 <= cur < st.envs.len(),
    ensures
        ({
            let o = spec_eval_args(es, st, cur, fuel);
            spec_state_wf(o.st) && o.st.envs.len() >= st.envs.len() && o.st.now == st.now && (match o.res {
                Ok(vs) => vs.len() == es.len() && forall|k: int|
                    0 <= k < vs.len() ==> spec_val_wf(#[trigger] vs[k], o.st.envs.len() as int),
                Err(_) => true,
            })
        }),
    decreases fuel,
{
    if es.len() == 0 || fuel == 0 {
    } else {
        lemma_exprs_wf_index(es, 0);
        lemma_eval_wf(es[0], st, cur, (fuel - 1) as nat);
        let o = spec_eval(es[0], st, cur, (fuel - 1) as nat);
        match o.res {
            Ok(v) => {
                lemma_exprs_wf_skip(es, 1);
                lemma_eval_args_wf(es.skip(1), o.st, cur, (fuel - 1) as nat);
                let rest = spec_eval_args(es.skip(1), o.st, cur, (fuel - 1) as nat);
                match rest.res {
                    Ok(vs) => {
                        lemma_val_wf_mono(v, o.st.envs.len() as int, rest.st.envs.len() as int);
                        assert(forall|k: int|
                            0 <= k < vs.len() ==> spec_val_wf(
                                #[trigger] vs[k],
                                rest.st.envs.len() as int,
                            ));
                        assert((seq![v] + vs).len() == es.len());
                        assert forall|k: int| 0 <= k < (seq![v] + vs).len() implies spec_val_wf(
                            #[trigger] (seq![v] + vs)[k],
                            rest.st.envs.len() as int,
                        ) by {
                            if k == 0 {
                                assert((seq![v] + vs)[0] == v);
                            } else {
                                assert((seq![v] + vs)[k] == vs[k - 1]);
                            }
                        }
                    },
                    Err(_) => {},
                }
            },
            Err(_) => {},
        }
    }
}

/// Invocation of a well-formed callable on well-formed arguments
/// preserves well-formedness.
pub proof fn lemma_call_wf(f: Val, args: Seq<Val>, st: StateM, fuel: nat)
    requires
        spec_state_wf(st),
        spec_val_wf(f, st.envs.len() as int),
        forall|k: int| 0 <= k < args.len() ==> spec_val_wf(#[trigger] args[k], st.envs.len() as int),
    ensures
        ({
            let o = spec_call(f, args, st, fuel);
            spec_state_wf(o.st) && o.st.envs.len() >= st.envs.len() && o.st.now == st.now && (match o.res {
                Ok(v) => spec_val_wf(v, o.st.envs.len() as int),
                Err(_) => true,
            })
        }),
    decreases fuel,
{
    if fuel == 0 {
    } else {
        match f {
            Val::Callable { name: _, arity, fun } => {
                if args.len() != arity {
                } else {
                    match fun {
                        FunV::Native(_) => {},
                        FunV::Declared { params, body, closure } => {
                            let fresh = st.envs.len() as int;
                            let envs1 = st.envs.push(
                                EnvM { values: Map::empty(), enclosing: Some(closure as int) },
                            );
                            lemma_envs_wf_push(st.envs, closure as int);
                            assert forall|k: int| 0 <= k < args.len() implies spec_val_wf(
                                #[trigger] args[k],
                                envs1.len() as int,
                            ) by {
                                lemma_val_wf_mono(args[k], st.envs.len() as int, envs1.len() as int);
                            }
                            lemma_bind_params_wf(envs1, fresh, params, args);
                            let envs2 = spec_bind_params(envs1, fresh, params, args);
                            let st2 = StateM { envs: envs2, ..st };
                            lemma_exec_stmts_wf(body, st2, fresh, (fuel - 1) as nat);
                        },
                    }
                }
            },
            _ => {},
        }
    }
}

/// Statement execution preserves well-formedness; a `Return` signal
/// carries a well-formed value.
pub proof fn lemma_exec_stmt_wf(s: StmtV, st: StateM, cur: int, fuel: nat)
    requires
        spec_state_wf(st),
        spec_stmt_wf(s),
        0 <= cur < st.envs.len(),
    ensures
        ({
            let o = spec_exec_stmt(s, st, cur, fuel);
            spec_state_wf(o.st) && o.st.envs.len() >= st.envs.len() && o.st.now == st.now && (match o.res {
                Ok(CfM::Return(v)) => spec_val_wf(v, o.st.envs.len() as int),
                _ => true,
            })
        }),
    decreases fuel,
{
    if fuel == 0 {
    } else {
        match s {
            StmtV::Expression { expression } => {
                lemma_eval_wf(expression, st, cur, (fuel - 1) as nat);
            },
            StmtV::Print { expression } => {
                lemma_eval_wf(expression, st, cur, (fuel - 1) as nat);
            },
            StmtV::Var { name, initializer } => {
                lemma_eval_wf(initializer, st, cur, (fuel - 1) as nat);
                let o = spec_eval(initializer, st, cur, (fuel - 1) as nat);
                match o.res {
                    Ok(v) => {
                        lemma_envs_wf_define(o.st.envs, cur, name, v);
                    },
                    Err(_) => {},
                }
            },
            StmtV::Block { stmts } => {
                lemma_envs_wf_push(st.envs, cur);
                let fresh = st.envs.len() as int;
                let st1 = StateM {
                    envs: st.envs.push(EnvM { values: Map::empty(), enclosing: Some(cur) }),
                    ..st
                };
                lemma_exec_stmts_wf(stmts, st1, fresh, (fuel - 1) as nat);
            },
            StmtV::IfElse { condition, then_branch, els } => {
                lemma_eval_wf(condition, st, cur, (fuel - 1) as nat);
                let o = spec_eval(condition, st, cur, (fuel - 1) as nat);
                match o.res {
                    Ok(v) => {
                        if v == Val::True {
                            lemma_exec_branch_wf(*then_branch, o.st, cur, (fuel - 1) as nat);
                        } else {
                            match els {
                                Some(b) => {
                                    lemma_exec_branch_wf(*b, o.st, cur, (fuel - 1) as nat);
                                },
                                None => {},
                            }
                        }
                    },
                    Err(_) => {},
                }
            },
            StmtV::While { condition, block } => {
                match *block {
                    StmtV::Block { stmts } => {
                        assert(spec_stmt_wf(StmtV::Block { stmts }));
                        assert(spec_stmts_wf(stmts));
                        lemma_envs_wf_push(st.envs, cur);
                        let fresh = st.envs.len() as int;
                        let st1 = StateM {
                            envs: st.envs.push(
                                EnvM { values: Map::empty(), enclosing: Some(cur) },
                            ),
                            ..st
                        };
                        lemma_exec_while_wf(condition, stmts, st1, fresh, (fuel - 1) as nat);
                    },
                    _ => {},
                }
            },
            StmtV::Function { name, params, body } => {
                let callable = Val::Callable {
                    name: name,
                    arity: params.len(),
                    fun: FunV::Declared { params, body, closure: cur as nat },
                };
                lemma_envs_wf_define(st.envs, cur, name, callable);
            },
            StmtV::Return { expr } => {
                match expr {
                    Some(e) => {
                        lemma_eval_wf(e, st, cur, (fuel - 1) as nat);
                    },
                    None => {},
                }
            },
            StmtV::Break => {},
            StmtV::Continue => {},
        }
    }
}

/// Branch execution preserves well-formedness.
pub proof fn lemma_exec_branch_wf(s: StmtV, st: StateM, cur: int, fuel: nat)
    requires
        spec_state_wf(st),
        spec_stmt_wf(s),
        0 <= cur < st.envs.len(),
    ensures
        ({
            let o = spec_exec_branch(s, st, cur, fuel);
            spec_state_wf(o.st) && o.st.envs.len() >= st.envs.len() && o.st.now == st.now && (match o.res {
                Ok(CfM::Return(v)) => spec_val_wf(v, o.st.envs.len() as int),
                _ => true,
            })
        }),
    decreases fuel,
{
    if fuel == 0 {
    } else {
        lemma_envs_wf_push(st.envs, cur);
        let fresh = st.envs.len() as int;
        let st1 = StateM {
            envs: st.envs.push(EnvM { values: Map::empty(), enclosing: Some(cur) }),
            ..st
        };
        lemma_exec_stmt_wf(s, st1, fresh, (fuel - 1) as nat);
    }
}

/// Statement-list execution preserves well-formedness.
pub proof fn lemma_exec_stmts_wf(ss: Seq<StmtV>, st: StateM, cur: int, fuel: nat)
    requires
        spec_state_wf(st),
        spec_stmts_wf(ss),
        0 <= cur < st.envs.len(),
    ensures
        ({
            let o = spec_exec_stmts(ss, st, cur, fuel);
            spec_state_wf(o.st) && o.st.envs.len() >= st.envs.len() && o.st.now == st.now && (match o.res {
                Ok(CfM::Return(v)) => spec_val_wf(v, o.st.envs.len() as int),
                _ => true,
            })
        }),
    decreases fuel,
{
    if ss.len() == 0 || fuel == 0 {
    } else {
        lemma_stmts_wf_index(ss, 0);
        lemma_exec_stmt_wf(ss[0], st, cur, (fuel - 1) as nat);
        let o = spec_exec_stmt(ss[0], st, cur, (fuel - 1) as nat);
        match o.res {
            Ok(CfM::Normal) => {
                lemma_stmts_wf_skip(ss, 1);
                lemma_exec_stmts_wf(ss.skip(1), o.st, cur, (fuel - 1) as nat);
            },
            _ => {},
        }
    }
}

/// Loop execution preserves well-formedness.
pub proof fn lemma_exec_while_wf(cond: ExprV, body: Seq<StmtV>, st: StateM, cur: int, fuel: nat)
    requires
        spec_state_wf(st),
        spec_expr_wf(cond),
        spec_stmts_wf(body),
        0 <= cur < st.envs.len(),
    ensures
        ({
            let o = spec_exec_while(cond, body, st, cur, fuel);
            spec_state_wf(o.st) && o.st.envs.len() >= st.envs.len() && o.st.now == st.now && (match o.res {
                Ok(CfM::Return(v)) => spec_val_wf(v, o.st.envs.len() as int),
                _ => true,
            })
        }),
    decreases fuel,
{
    if fuel == 0 {
    } else {
        lemma_eval_wf(cond, st, cur, (fuel - 1) as nat);
        let o = spec_eval(cond, st, cur, (fuel - 1) as nat);
        match o.res {
            Ok(v) => {
                if spec_is_truthy(v) {
                    lemma_exec_stmts_wf(body, o.st, cur, (fuel - 1) as nat);
                    let b = spec_exec_stmts(body, o.st, cur, (fuel - 1) as nat);
                    match b.res {
                        Ok(CfM::Break) => {},
                        Ok(CfM::Return(_)) => {},
                        Ok(_) => {
                            lemma_exec_while_wf(cond, body, b.st, cur, (fuel - 1) as nat);
                        },
                        Err(_) => {},
                    }
                }
            },
            Err(_) => {},
        }
    }
}

// ---------------------------------------------------------------------
// Deciding well-formedness of a syntax tree
// ---------------------------------------------------------------------

/// Whether every literal of this expression is primitive; decides
/// `spec_expr_wf` of its abstraction.
pub fn check_expr(e: &crate::expr::Expr) -> (r: bool)
    ensures
        r == spec_expr_wf(e@),
    decreases e,
{
    match e {
        crate::expr::Expr::Literal { value } => {
            proof {
                value.lemma_view_is_callable();
            }
            match value {
                crate::expr::LiteralValue::Callable { .. } => false,
                _ => true,
            }
        },
        crate::expr::Expr::Grouping { expression } => check_expr(expression),
        crate::expr::Expr::Unary { operator: _, right } => check_expr(right),
        crate::expr::Expr::Binary { left, operator: _, right } => {
            let a = check_expr(left);
            let b = check_expr(right);
            a && b
        },
        crate::expr::Expr::Logical { left, operator: _, right } => {
            let a = check_expr(left);
            let b = check_expr(right);
            a && b
        },
        crate::expr::Expr::Variable { name: _ } => true,
        crate::expr::Expr::Assign { name: _, value } => check_expr(value),
        crate::expr::Expr::Call { callee, args } => {
            let a = check_expr(callee);
            let b = check_exprs(args);
            a && b
        },
    }
}

/// Decides `spec_exprs_wf` of an expression list's abstraction.
pub fn check_exprs(v: &Vec<crate::expr::Expr>) -> (r: bool)
    ensures
        r == spec_exprs_wf(crate::expr::spec_view_exprs(v@)),
    decreases v,
{
    let mut i: usize = 0;
    proof {
        assert(v@.subrange(0, 0) =~= Seq::<crate::expr::Expr>::empty());
        assert(crate::expr::spec_view_exprs(v@.subrange(0, 0)) =~= Seq::<ExprV>::empty());
    }
    while i < v.len()
        invariant
            i <= v@.len(),
            spec_exprs_wf(crate::expr::spec_view_exprs(v@.subrange(0, i as int))),
        decreases v@.len() - i,
    {
        let ok = check_expr(&v[i]);
        proof {
            let pre = v@.subrange(0, i as int);
            let post = v@.subrange(0, i as int + 1);
            assert(post.drop_last() =~= pre);
            assert(post.last() == v@[i as int]);
            crate::expr::lemma_view_exprs_len(post);
            assert(crate::expr::spec_view_exprs(post).drop_last() =~= crate::expr::spec_view_exprs(
                pre,
            )) by {
                crate::expr::lemma_view_exprs_len(pre);
                assert forall|j: int| 0 <= j < pre.len() implies crate::expr::spec_view_exprs(
                    post,
                ).drop_last()[j] == crate::expr::spec_view_exprs(pre)[j] by {
                    crate::expr::lemma_view_exprs_index(post, j);
                    crate::expr::lemma_view_exprs_index(pre, j);
                }
            }
            crate::expr::lemma_view_exprs_index(post, i as int);
        }
        if !ok {
            proof {
                let full = crate::expr::spec_view_exprs(v@);
                if spec_exprs_wf(full) {
                    crate::expr::lemma_view_exprs_index(v@, i as int);
                    lemma_exprs_wf_index2(full, i as int);
                }
            }
            return false;
        }
        i = i + 1;
    }
    proof {
        assert(v@.subrange(0, i as int) =~= v@);
    }
    true
}

/// The indexed form of list well-formedness, to report one bad element.
proof fn lemma_exprs_wf_index2(es: Seq<ExprV>, i: int)
    requires
        spec_exprs_wf(es),
        0 <= i < es.len(),
    ensures
        spec_expr_wf(es[i]),
{
    lemma_exprs_wf_index(es, i);
}

/// Decides `spec_stmt_wf` of a statement's abstraction.
pub fn check_stmt(s: &crate::stmt::Stmt) -> (r: bool)
    ensures
        r == spec_stmt_wf(s@),
    decreases s,
{
    match s {
        crate::stmt::Stmt::Expression { expression } => check_expr(expression),
        crate::stmt::Stmt::Print { expression } => check_expr(expression),
        crate::stmt::Stmt::Var { name: _, initializer } => check_expr(initializer),
        crate::stmt::Stmt::Block { stmts } => check_stmts_vec(stmts),
        crate::stmt::Stmt::IfElse { condition, then_branch, els } => {
            let a = check_expr(condition);
            let b = check_stmt(then_branch);
            let c = match els {
                Some(e) => check_stmt(e),
                None => true,
            };
            a && b && c
        },
        crate::stmt::Stmt::While { condition, block } => {
            let a = check_expr(condition);
            let b = check_stmt(block);
            a && b
        },
        crate::stmt::Stmt::Function { name: _, params: _, body } => check_stmts_vec(body),
        crate::stmt::Stmt::Return { expr } => match expr {
            Some(e) => check_expr(e),
            None => true,
        },
        crate::stmt::Stmt::Break => true,
        crate::stmt::Stmt::Continue => true,
    }
}

/// Decides `spec_stmts_wf` of a statement list's abstraction.
pub fn check_stmts_vec(v: &Vec<crate::stmt::Stmt>) -> (r: bool)
    ensures
        r == spec_stmts_wf(crate::stmt::spec_view_stmts(v@)),
    decreases v,
{
    let mut i: usize = 0;
    proof {
        assert(v@.subrange(0, 0) =~= Seq::<crate::stmt::Stmt>::empty());
        assert(crate::stmt::spec_view_stmts(v@.subrange(0, 0)) =~= Seq::<StmtV>::empty());
    }
    while i < v.len()
        invariant
            i <= v@.len(),
            spec_stmts_wf(crate::stmt::spec_view_stmts(v@.subrange(0, i as int))),
        decreases v@.len() - i,
    {
        let ok = check_stmt(&v[i]);
        proof {
            let pre = v@.subrange(0, i as int);
            let post = v@.subrange(0, i as int + 1);
            assert(post.drop_last() =~= pre);
            assert(post.last() == v@[i as int]);
            crate::stmt::lemma_view_stmts_len(post);
            assert(crate::stmt::spec_view_stmts(post).drop_last() =~= crate::stmt::spec_view_stmts(
                pre,
            )) by {
                crate::stmt::lemma_view_stmts_len(pre);
                assert forall|j: int| 0 <= j < pre.len() implies crate::stmt::spec_view_stmts(
                    post,
                ).drop_last()[j] == crate::stmt::spec_view_stmts(pre)[j] by {
                    crate::stmt::lemma_view_stmts_index(post, j);
                    crate::stmt::lemma_view_stmts_index(pre, j);
                }
            }
            crate::stmt::lemma_view_stmts_index(post, i as int);
        }
        if !ok {
            proof {
                let full = crate::stmt::spec_view_stmts(v@);
                if spec_stmts_wf(full) {
                    crate::stmt::lemma_view_stmts_index(v@, i as int);
                    lemma_stmts_wf_index(full, i as int);
                }
            }
            return false;
        }
        i = i + 1;
    }
    proof {
        assert(v@.subrange(0, i as int) =~= v@);
    }
    true
}

/// Decides well-formedness of a whole program, for a front end to test
/// before execution.
pub fn check_program(stmts: &[crate::stmt::Stmt]) -> (r: bool)
    ensures
        r == spec_stmts_wf(crate::stmt::spec_view_stmts(stmts@)),
{
    let mut i: usize = 0;
    proof {
        assert(stmts@.subrange(0, 0) =~= Seq::<crate::stmt::Stmt>::empty());
        assert(crate::stmt::spec_view_stmts(stmts@.subrange(0, 0)) =~= Seq::<StmtV>::empty());
    }
    while i < stmts.len()
        invariant
            i <= stmts@.len(),
            spec_stmts_wf(crate::stmt::spec_view_stmts(stmts@.subrange(0, i as int))),
        decreases stmts@.len() - i,
    {
        let ok = check_stmt(&stmts[i]);
        proof {
            let pre = stmts@.subrange(0, i as int);
            let post = stmts@.subrange(0, i as int + 1);
            assert(post.drop_last() =~= pre);
            assert(post.last() == stmts@[i as int]);
            crate::stmt::lemma_view_stmts_len(post);
            assert(crate::stmt::spec_view_stmts(post).drop_last() =~= crate::stmt::spec_view_stmts(
                pre,
            )) by {
                crate::stmt::lemma_view_stmts_len(pre);
                assert forall|j: int| 0 <= j < pre.len() implies crate::stmt::spec_view_stmts(
                    post,
                ).drop_last()[j] == crate::stmt::spec_view_stmts(pre)[j] by {
                    crate::stmt::lemma_view_stmts_index(post, j);
                    crate::stmt::lemma_view_stmts_index(pre, j);
                }
            }
            crate::stmt::lemma_view_stmts_index(post, i as int);
        }
        if !ok {
            proof {
                let full = crate::stmt::spec_view_stmts(stmts@);
                if spec_stmts_wf(full) {
                    crate::stmt::lemma_view_stmts_index(stmts@, i as int);
                    lemma_stmts_wf_index(full, i as int);
                }
            }
            return false;
        }
        i = i + 1;
    }
    proof {
        assert(stmts@.subrange(0, i as int) =~= stmts@);
    }
    true
}

} // verus!
