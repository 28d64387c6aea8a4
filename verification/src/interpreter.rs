//! The statement executor and expression evaluator, proved equivalent to
//! the specification interpreter of `semantics`.
//!
//! The interpreter owns the environment arena, a cursor naming the current
//! scope, the clock sample the `time` native returns, and the output lines
//! the `print` statement has written; the front end drains and prints
//! them. Every evaluation takes a fuel bound on recursion and iteration;
//! exhausting it yields a recoverable error instead of unbounded host
//! recursion.
use vstd::prelude::*;
use crate::expr::Expr;
use crate::expr::LiteralValue;
use crate::expr::Fun;
use crate::expr::NativeFn;
use crate::expr::UnaryOp;
use crate::expr::BinaryOp;
use crate::expr::LogicalOp;
use crate::expr::ValueType;
use crate::expr::Val;
use crate::expr::FunV;
use crate::expr::spec_view_exprs;
use crate::expr::ExprV;
use crate::expr::spec_view_strings;
use crate::expr::lemma_view_exprs_index;
use crate::expr::dup_strings;
use crate::stmt::Stmt;
use crate::stmt::spec_view_stmts;
use crate::stmt::StmtV;
use crate::stmt::lemma_view_stmts_index;
use crate::stmt::dup_stmts;
use crate::environment::Environment;
use crate::environment::EnvM;
use crate::environment::arena_wf;
use crate::environment::spec_view_envs;
use crate::environment::push_env;
use crate::environment::env_define;
use crate::environment::env_get;
use crate::environment::env_assign;
use crate::environment::spec_assign;
use crate::semantics::StateM;
use crate::semantics::OpKind;
use crate::semantics::CfKind;
use crate::semantics::ErrM;
use crate::semantics::CfM;
use crate::semantics::spec_state_wf;
use crate::semantics::spec_val_wf;
use crate::semantics::spec_expr_wf;
use crate::semantics::spec_exprs_wf;
use crate::semantics::spec_stmt_wf;
use crate::semantics::spec_stmts_wf;
use crate::semantics::spec_unary;
use crate::semantics::spec_binary;
use crate::semantics::spec_binary_nums;
use crate::semantics::spec_binary_strs;
use crate::semantics::spec_native_floor;
use crate::semantics::spec_neg_i64;
use crate::semantics::spec_div_i64;
use crate::semantics::spec_rem_i64;
use crate::semantics::spec_eval;
use crate::semantics::spec_eval_args;
use crate::semantics::spec_call;
use crate::semantics::spec_exec_stmt;
use crate::semantics::spec_exec_branch;
use crate::semantics::spec_exec_stmts;
use crate::semantics::spec_exec_while;
use crate::semantics::spec_bind_params;
use crate::semantics::spec_top_result;
use crate::semantics::ArgsOut;
use crate::semantics::lemma_eval_wf;
use crate::semantics::lemma_eval_args_wf;
use crate::semantics::lemma_call_wf;
use crate::semantics::lemma_exec_stmt_wf;
use crate::semantics::lemma_exec_branch_wf;
use crate::semantics::lemma_envs_wf_push;
use crate::semantics::lemma_envs_wf_define;
use crate::semantics::lemma_assign_wf;
use crate::semantics::lemma_val_wf_mono;
use crate::semantics::lemma_stmts_wf_index;
use crate::semantics::lemma_exprs_wf_index;
use crate::strings::str_lex_lt;
use crate::strings::push_dec_i64;

verus! {

/// The tagged result of executing one statement: nothing, a loop exit, a
/// loop restart, or a function return carrying a value. It is threaded as
/// a value through every statement-list execution, never as host
/// unwinding.
#[derive(Debug, PartialEq)]
pub enum ControllFlow {
    Normal,
    Break,
    ReturnVal(LiteralValue),
    Continue,
}

impl View for ControllFlow {
    type V = CfM;

    open spec fn view(&self) -> CfM {
        match self {
            ControllFlow::Normal => CfM::Normal,
            ControllFlow::Break => CfM::Break,
            ControllFlow::ReturnVal(v) => CfM::Return(v@),
            ControllFlow::Continue => CfM::Continue,
        }
    }
}

/// A runtime error, surfaced as a value, never as a fault.
#[derive(Debug, PartialEq)]
pub enum EvalError {
    /// A read of, or assignment to, a name absent from the whole scope
    /// chain.
    UndeclaredVariable { name: String },
    /// Operand shapes unsupported by an operator.
    TypeMismatch { op: OpKind, left: ValueType, right: Option<ValueType> },
    /// A call with the wrong number of arguments.
    ArityError { expected: usize, actual: usize },
    /// A call whose callee is not callable.
    NotCallable { what: ValueType },
    /// `break`, `continue` or `return` where no enclosing loop or
    /// function can consume it.
    InvalidControlFlow { kind: CfKind },
    /// A loop whose body is not a block.
    MalformedLoopBody,
    /// Division or remainder by zero.
    DivisionByZero,
    /// The recursion or iteration bound was exhausted.
    RecursionLimit,
}

impl View for EvalError {
    type V = ErrM;

    open spec fn view(&self) -> ErrM {
        match self {
            EvalError::UndeclaredVariable { name } => ErrM::UndeclaredVariable { name: name@ },
            EvalError::TypeMismatch { op, left, right } => ErrM::TypeMismatch {
                op: *op,
                left: *left,
                right: *right,
            },
            EvalError::ArityError { expected, actual } => ErrM::ArityError {
                expected: *expected as nat,
                actual: *actual as nat,
            },
            EvalError::NotCallable { what } => ErrM::NotCallable { what: *what },
            EvalError::InvalidControlFlow { kind } => ErrM::InvalidControlFlow { kind: *kind },
            EvalError::MalformedLoopBody => ErrM::MalformedLoopBody,
            EvalError::DivisionByZero => ErrM::DivisionByZero,
            EvalError::RecursionLimit => ErrM::RecursionLimit,
        }
    }
}

/// The abstraction of an evaluation result.
pub open spec fn res_eval_view(r: Result<LiteralValue, EvalError>) -> Result<Val, ErrM> {
    match r {
        Ok(v) => Ok(v@),
        Err(e) => Err(e@),
    }
}

/// The abstraction of an execution result.
pub open spec fn res_exec_view(r: Result<ControllFlow, EvalError>) -> Result<CfM, ErrM> {
    match r {
        Ok(c) => Ok(c@),
        Err(e) => Err(e@),
    }
}

/// The abstraction of a whole-program result.
pub open spec fn res_unit_view(r: Result<(), EvalError>) -> Result<(), ErrM> {
    match r {
        Ok(_) => Ok(()),
        Err(e) => Err(e@),
    }
}

/// The abstraction of a list of values.
pub open spec fn vals_view(s: Seq<LiteralValue>) -> Seq<Val> {
    s.map_values(|v: LiteralValue| v@)
}

/// Relies on std::time::SystemTime::now and its duration_since
/// SystemTime::UNIX_EPOCH: the whole seconds of the system clock since
/// the Unix epoch, or 0 when the clock reads earlier than the epoch.
/// Nothing is assumed of the value; callers state what holds of every
/// outcome.
#[verifier::external_body]
fn unix_time_secs() -> u64 {
    match std::time::SystemTime::now().duration_since(std::time::UNIX_EPOCH) {
        Ok(d) => d.as_secs(),
        Err(_) => 0,
    }
}

/// The clock sample clamped into the numeric range of the value model.
fn clamp_secs(secs: u64) -> (r: i64)
    ensures
        r >= 0,
{
    if secs > i64::MAX as u64 {
        i64::MAX
    } else {
        secs as i64
    }
}

/// The `time` native: the clock sample held by the interpreter, as a
/// number.
pub fn time_fn(now: i64) -> (r: LiteralValue)
    ensures
        r@ == Val::Num(now),
{
    LiteralValue::Number(now)
}

/// The `floor` native: on integer numbers the floor of a number is the
/// number itself; a non-number argument is a typed error, never a fault.
pub fn floor(args: &Vec<LiteralValue>) -> (r: Result<LiteralValue, EvalError>)
    requires
        args@.len() == 1,
    ensures
        res_eval_view(r) == spec_native_floor(args@[0]@),
{
    match &args[0] {
        LiteralValue::Number(n) => Ok(LiteralValue::Number(*n)),
        v => Err(
            EvalError::TypeMismatch {
                op: OpKind::Native(NativeFn::Floor),
                left: v.value_type(),
                right: None,
            },
        ),
    }
}

/// The unary operators on values.
fn eval_unary(op: UnaryOp, v: LiteralValue) -> (r: Result<LiteralValue, EvalError>)
    ensures
        res_eval_view(r) == spec_unary(op, v@),
{
    match op {
        UnaryOp::Minus => match v {
            LiteralValue::Number(n) => {
                let m: i64 = if n == i64::MIN {
                    i64::MIN
                } else {
                    -n
                };
                proof {
                    assert(m == spec_neg_i64(n));
                }
                Ok(LiteralValue::Number(m))
            },
            other => Err(
                EvalError::TypeMismatch {
                    op: OpKind::Unary(op),
                    left: other.value_type(),
                    right: None,
                },
            ),
        },
        UnaryOp::Bang => Ok(v.is_falsy()),
    }
}

/// Arithmetic and comparison on two numbers.
fn eval_binary_nums(op: BinaryOp, x: i64, y: i64) -> (r: Result<LiteralValue, EvalError>)
    ensures
        res_eval_view(r) == spec_binary_nums(op, x, y),
{
    match op {
        BinaryOp::Plus => Ok(LiteralValue::Number(x.wrapping_add(y))),
        BinaryOp::Minus => Ok(LiteralValue::Number(x.wrapping_sub(y))),
        BinaryOp::Star => Ok(LiteralValue::Number(x.wrapping_mul(y))),
        BinaryOp::Slash => {
            if y == 0 {
                Err(EvalError::DivisionByZero)
            } else {
                let q: i64 = match x.checked_div(y) {
                    Some(q) => q,
                    None => i64::MIN,
                };
                proof {
                    assert(q == spec_div_i64(x, y));
                }
                Ok(LiteralValue::Number(q))
            }
        },
        BinaryOp::Percent => {
            if y == 0 {
                Err(EvalError::DivisionByZero)
            } else {
                let q: i64 = match x.checked_rem(y) {
                    Some(q) => q,
                    None => 0,
                };
                proof {
                    assert(q == spec_rem_i64(x, y));
                }
                Ok(LiteralValue::Number(q))
            }
        },
        BinaryOp::Greater => Ok(LiteralValue::from_bool(x > y)),
        BinaryOp::GreaterEqual => Ok(LiteralValue::from_bool(x >= y)),
        BinaryOp::Less => Ok(LiteralValue::from_bool(x < y)),
        BinaryOp::LessEqual => Ok(LiteralValue::from_bool(x <= y)),
        BinaryOp::EqualEqual => Ok(LiteralValue::from_bool(x == y)),
        BinaryOp::BangEqual => Ok(LiteralValue::from_bool(x != y)),
    }
}

/// Concatenation and lexicographic comparison on two strings.
fn eval_binary_strs(op: BinaryOp, x: String, y: String) -> (r: Result<LiteralValue, EvalError>)
    ensures
        res_eval_view(r) == spec_binary_strs(op, x@, y@),
{
    match op {
        BinaryOp::Plus => {
            let mut s = x;
            s.append(y.as_str());
            Ok(LiteralValue::StringValue(s))
        },
        BinaryOp::Greater => Ok(LiteralValue::from_bool(str_lex_lt(y.as_str(), x.as_str()))),
        BinaryOp::GreaterEqual => Ok(LiteralValue::from_bool(!str_lex_lt(x.as_str(), y.as_str()))),
        BinaryOp::Less => Ok(LiteralValue::from_bool(str_lex_lt(x.as_str(), y.as_str()))),
        BinaryOp::LessEqual => Ok(LiteralValue::from_bool(!str_lex_lt(y.as_str(), x.as_str()))),
        BinaryOp::EqualEqual => Ok(LiteralValue::from_bool(x == y)),
        BinaryOp::BangEqual => Ok(LiteralValue::from_bool(!(x == y))),
        _ => {
            let lt = LiteralValue::StringValue(x);
            let rt = LiteralValue::StringValue(y);
            Err(
                EvalError::TypeMismatch {
                    op: OpKind::Binary(op),
                    left: lt.value_type(),
                    right: Some(rt.value_type()),
                },
            )
        },
    }
}

/// The binary operators on values; see `spec_binary`.
fn eval_binary(op: BinaryOp, a: LiteralValue, b: LiteralValue) -> (r: Result<
    LiteralValue,
    EvalError,
>)
    ensures
        res_eval_view(r) == spec_binary(op, a@, b@),
{
    match op {
        BinaryOp::EqualEqual => {
            return Ok(LiteralValue::from_bool(a.equals(&b)));
        },
        BinaryOp::BangEqual => {
            return Ok(LiteralValue::from_bool(!a.equals(&b)));
        },
        _ => {},
    }
    let ghost av = a@;
    let ghost bv = b@;
    match (a, b) {
        (LiteralValue::Number(x), LiteralValue::Number(y)) => eval_binary_nums(op, x, y),
        (LiteralValue::StringValue(x), LiteralValue::StringValue(y)) => eval_binary_strs(op, x, y),
        (LiteralValue::StringValue(x), LiteralValue::Number(y)) => {
            match op {
                BinaryOp::Plus => {
                    let mut s = x;
                    push_dec_i64(&mut s, y);
                    Ok(LiteralValue::StringValue(s))
                },
                _ => {
                    let lt = LiteralValue::StringValue(x);
                    Err(
                        EvalError::TypeMismatch {
                            op: OpKind::Binary(op),
                            left: lt.value_type(),
                            right: Some(ValueType::Number),
                        },
                    )
                },
            }
        },
        (a2, b2) => Err(
            EvalError::TypeMismatch {
                op: OpKind::Binary(op),
                left: a2.value_type(),
                right: Some(b2.value_type()),
            },
        ),
    }
}

/// The interpreter: the environment arena, the index of the current
/// scope, the clock sample for `time`, and the output lines that `print`
/// has written, for the front end to drain.
#[derive(Debug)]
pub struct Interpreter {
    pub envs: Vec<Environment>,
    pub environment: usize,
    pub now: i64,
    pub output: Vec<String>,
}

impl View for Interpreter {
    type V = StateM;

    open spec fn view(&self) -> StateM {
        StateM {
            envs: spec_view_envs(self.envs@),
            now: self.now,
            output: self.output@.map_values(|s: String| s@),
        }
    }
}

/// The bindings of the global scope that `Interpreter::new` establishes:
/// the `time` and `floor` natives.
pub open spec fn spec_global_bindings() -> Map<Seq<char>, Val> {
    Map::empty().insert(
        "time"@,
        Val::Callable { name: "time"@, arity: 0, fun: FunV::Native(NativeFn::Time) },
    ).insert(
        "floor"@,
        Val::Callable { name: "floor"@, arity: 1, fun: FunV::Native(NativeFn::Floor) },
    )
}

/// The state a fresh interpreter starts in: one global scope holding the
/// natives, no output.
pub open spec fn spec_initial_state(now: i64) -> StateM {
    StateM {
        envs: seq![EnvM { values: spec_global_bindings(), enclosing: None }],
        now,
        output: Seq::empty(),
    }
}

impl Interpreter {
    /// The interpreter invariant: the arena is well-formed at both the
    /// representation level (unique keys, parents before children) and
    /// the model level (stored callables close over existing scopes), and
    /// the cursor names an existing scope.
    pub open spec fn wf(&self) -> bool {
        arena_wf(self.envs@) && spec_state_wf(self@) && self.environment < self.envs@.len()
    }

    /// A fresh interpreter: a global scope pre-populated with the `time`
    /// and `floor` natives, and the clock sampled once. The clock value
    /// itself is whatever the system reports; everything else is fixed.
    pub fn new() -> (r: Interpreter)
        ensures
            r.wf(),
            r.environment == 0,
            r@ == spec_initial_state(r.now),
            r.now >= 0,
    {
        let secs = unix_time_secs();
        let now = clamp_secs(secs);
        let mut global = Environment::new();
        global.define(
            String::from_str("time"),
            LiteralValue::Callable {
                name: String::from_str("time"),
                arity: 0,
                fun: Fun::Native(NativeFn::Time),
            },
        );
        global.define(
            String::from_str("floor"),
            LiteralValue::Callable {
                name: String::from_str("floor"),
                arity: 1,
                fun: Fun::Native(NativeFn::Floor),
            },
        );
        let mut envs: Vec<Environment> = Vec::new();
        envs.push(global);
        let r = Interpreter { envs, environment: 0, now, output: Vec::new() };
        proof {
            assert(r.envs@.len() == 1);
            assert(r@.envs =~= seq![
                EnvM { values: spec_global_bindings(), enclosing: None },
            ]) by {
                assert(r.envs@[0]@.values =~= spec_global_bindings());
            }
            assert(r@ =~= spec_initial_state(r.now));
            assert forall|i: int| 0 <= i < r@.envs.len() implies
                crate::semantics::spec_env_wf_at(r@.envs, i) by {
                assert forall|k: Seq<char>| #[trigger] r@.envs[0].values.contains_key(k) implies
                    spec_val_wf(r@.envs[0].values[k], 1int) by {
                    if k == "time"@ {
                    } else {
                        assert(k == "floor"@);
                    }
                }
            }
        }
        r
    }

    /// Re-samples the clock that the `time` native reports; the
    /// environments and the output are untouched. The new sample is
    /// whatever the system reports.
    pub fn refresh_time(&mut self)
        requires
            old(self).wf(),
        ensures
            final(self).wf(),
            final(self).environment == old(self).environment,
            final(self)@.envs == old(self)@.envs,
            final(self)@.output == old(self)@.output,
            final(self).now >= 0,
    {
        let secs = unix_time_secs();
        self.now = clamp_secs(secs);
    }
}

impl Expr {
    /// Evaluation of this expression against the interpreter's current
    /// scope: exactly the value or error, and exactly the state change,
    /// that the specification interpreter gives it.
    pub fn eval(&self, interp: &mut Interpreter, fuel: u64) -> (r: Result<LiteralValue, EvalError>)
        requires
            old(interp).wf(),
            spec_expr_wf(self@),
        ensures
            final(interp).wf(),
            final(interp).environment == old(interp).environment,
            ({
                let o = spec_eval(
                    self@,
                    old(interp)@,
                    old(interp).environment as int,
                    fuel as nat,
                );
                final(interp)@ == o.st && res_eval_view(r) == o.res
            }),
        decreases fuel,
    {
        proof {
            lemma_eval_wf(self@, interp@, interp.environment as int, fuel as nat);
        }
        if fuel == 0 {
            return Err(EvalError::RecursionLimit);
        }
        match self {
            Expr::Literal { value } => Ok(value.duplicate()),
            Expr::Grouping { expression } => expression.eval(interp, fuel - 1),
            Expr::Unary { operator, right } => {
                let v = match right.eval(interp, fuel - 1) {
                    Ok(v) => v,
                    Err(e) => {
                        return Err(e);
                    },
                };
                eval_unary(*operator, v)
            },
            Expr::Binary { left, operator, right } => {
                let a = match left.eval(interp, fuel - 1) {
                    Ok(v) => v,
                    Err(e) => {
                        return Err(e);
                    },
                };
                let b = match right.eval(interp, fuel - 1) {
                    Ok(v) => v,
                    Err(e) => {
                        return Err(e);
                    },
                };
                eval_binary(*operator, a, b)
            },
            Expr::Logical { left, operator, right } => {
                let a = match left.eval(interp, fuel - 1) {
                    Ok(v) => v,
                    Err(e) => {
                        return Err(e);
                    },
                };
                let keep = match operator {
                    LogicalOp::Or => a.is_truthy(),
                    LogicalOp::And => !a.is_truthy(),
                };
                if keep {
                    Ok(a)
                } else {
                    right.eval(interp, fuel - 1)
                }
            },
            Expr::Variable { name } => match env_get(&interp.envs, interp.environment, name) {
                Some(v) => Ok(v),
                None => Err(EvalError::UndeclaredVariable { name: name.clone() }),
            },
            Expr::Assign { name, value } => {
                let v = match value.eval(interp, fuel - 1) {
                    Ok(v) => v,
                    Err(e) => {
                        return Err(e);
                    },
                };
                proof {
                    lemma_eval_wf(
                        (**value)@,
                        old(interp)@,
                        old(interp).environment as int,
                        (fuel - 1) as nat,
                    );
                    lemma_assign_wf(interp@.envs, interp.environment as int, name@, v@);
                }
                let hit = env_assign(&mut interp.envs, interp.environment, name, v.duplicate());
                if hit {
                    Ok(v)
                } else {
                    Err(EvalError::UndeclaredVariable { name: name.clone() })
                }
            },
            Expr::Call { callee, args } => {
                let f = match callee.eval(interp, fuel - 1) {
                    Ok(v) => v,
                    Err(e) => {
                        return Err(e);
                    },
                };
                proof {
                    lemma_eval_wf(
                        (**callee)@,
                        old(interp)@,
                        old(interp).environment as int,
                        (fuel - 1) as nat,
                    );
                }
                let argv = match interp.eval_args(args, fuel - 1) {
                    Ok(vs) => vs,
                    Err(e) => {
                        return Err(e);
                    },
                };
                proof {
                    let o1 = spec_eval(
                        (**callee)@,
                        old(interp)@,
                        old(interp).environment as int,
                        (fuel - 1) as nat,
                    );
                    lemma_eval_args_wf(
                        spec_view_exprs(args@),
                        o1.st,
                        old(interp).environment as int,
                        (fuel - 1) as nat,
                    );
                    lemma_val_wf_mono(f@, o1.st.envs.len() as int, interp@.envs.len() as int);
                    assert forall|k: int| 0 <= k < argv@.len() implies spec_val_wf(
                        #[trigger] argv@[k]@,
                        interp@.envs.len() as int,
                    ) by {
                        assert(vals_view(argv@)[k] == argv@[k]@);
                    }
                    assert(vals_view(argv@).len() == argv@.len());
                }
                interp.call_value(f, argv, fuel - 1)
            },
        }
    }
}

impl Interpreter {
    /// Evaluation of an argument list, left to right, eagerly.
    fn eval_args(&mut self, args: &Vec<Expr>, fuel: u64) -> (r: Result<Vec<LiteralValue>, EvalError>)
        requires
            old(self).wf(),
            spec_exprs_wf(spec_view_exprs(args@)),
        ensures
            final(self).wf(),
            final(self).environment == old(self).environment,
            ({
                let o = spec_eval_args(
                    spec_view_exprs(args@),
                    old(self)@,
                    old(self).environment as int,
                    fuel as nat,
                );
                final(self)@ == o.st && (match (r, o.res) {
                    (Ok(vs), Ok(ws)) => vals_view(vs@) == ws,
                    (Err(e), Err(e2)) => e@ == e2,
                    _ => false,
                })
            }),
        decreases fuel,
    {
        let ghost full = spec_view_exprs(args@);
        let ghost cur = old(self).environment as int;
        let ghost o_total = spec_eval_args(full, old(self)@, cur, fuel as nat);
        proof {
            crate::expr::lemma_view_exprs_len(args@);
        }
        let mut out: Vec<LiteralValue> = Vec::new();
        let mut i: usize = 0;
        let mut f: u64 = fuel;
        proof {
            assert(full.skip(0) =~= full);
            assert(vals_view(out@) =~= Seq::<Val>::empty());
        }
        while i < args.len()
            invariant
                self.wf(),
                self.environment == old(self).environment,
                i <= args@.len(),
                f <= fuel,
                full == spec_view_exprs(args@),
                full.len() == args@.len(),
                cur == old(self).environment as int,
                spec_exprs_wf(full),
                o_total == spec_eval_args(full, old(self)@, cur, fuel as nat),
                o_total == ({
                    let rest = spec_eval_args(full.skip(i as int), self@, cur, f as nat);
                    match rest.res {
                        Ok(ws) => ArgsOut { st: rest.st, res: Ok(vals_view(out@) + ws) },
                        Err(_) => rest,
                    }
                }),
            decreases args@.len() - i,
        {
            if f == 0 {
                proof {
                    assert(full.skip(i as int).len() > 0);
                }
                return Err(EvalError::RecursionLimit);
            }
            f = f - 1;
            proof {
                lemma_view_exprs_index(args@, i as int);
                assert(full.skip(i as int)[0] == full[i as int]);
                lemma_exprs_wf_index(full, i as int);
            }
            let ghost st_before = self@;
            let v = match args[i].eval(self, f) {
                Ok(v) => v,
                Err(e) => {
                    return Err(e);
                },
            };
            proof {
                lemma_eval_wf(full[i as int], st_before, cur, f as nat);
                assert(full.skip(i as int).skip(1) =~= full.skip(i as int + 1));
                let ghost prev = out@;
                assert(vals_view(prev.push(v)) =~= vals_view(prev).push(v@));
            }
            let ghost prev_vals = vals_view(out@);
            out.push(v);
            i = i + 1;
            proof {
                assert(vals_view(out@) =~= prev_vals.push(v@));
                let rest = spec_eval_args(full.skip(i as int), self@, cur, f as nat);
                match rest.res {
                    Ok(ws) => {
                        assert(prev_vals + (seq![v@] + ws) =~= vals_view(out@) + ws);
                    },
                    Err(_) => {},
                }
            }
        }
        proof {
            assert(full.skip(i as int) =~= Seq::<ExprV>::empty());
        }
        proof {
            assert(vals_view(out@) + Seq::<Val>::empty() =~= vals_view(out@));
        }
        Ok(out)
    }

    /// Invocation of an already-evaluated callee on already-evaluated
    /// arguments; see `spec_call`.
    #[verifier::rlimit(50)]
    fn call_value(&mut self, f: LiteralValue, args: Vec<LiteralValue>, fuel: u64) -> (r: Result<
        LiteralValue,
        EvalError,
    >)
        requires
            old(self).wf(),
            spec_val_wf(f@, old(self)@.envs.len() as int),
            forall|k: int|
                0 <= k < args@.len() ==> spec_val_wf(#[trigger] args@[k]@, old(
                    self,
                )@.envs.len() as int),
        ensures
            final(self).wf(),
            final(self).environment == old(self).environment,
            ({
                let o = spec_call(f@, vals_view(args@), old(self)@, fuel as nat);
                final(self)@ == o.st && res_eval_view(r) == o.res
            }),
        decreases fuel,
    {
        proof {
            assert forall|k: int| 0 <= k < vals_view(args@).len() implies spec_val_wf(
                #[trigger] vals_view(args@)[k],
                old(self)@.envs.len() as int,
            ) by {
                assert(vals_view(args@)[k] == args@[k]@);
            }
            lemma_call_wf(f@, vals_view(args@), self@, fuel as nat);
            assert(vals_view(args@).len() == args@.len());
            assert(spec_view_envs(self.envs@).len() == self.envs@.len());
        }
        if fuel == 0 {
            return Err(EvalError::RecursionLimit);
        }
        match f {
            LiteralValue::Callable { name: _, arity, fun } => {
                if args.len() != arity {
                    return Err(EvalError::ArityError { expected: arity, actual: args.len() });
                }
                match fun {
                    Fun::Native(NativeFn::Time) => Ok(time_fn(self.now)),
                    Fun::Native(NativeFn::Floor) => {
                        proof {
                            assert(vals_view(args@)[0] == args@[0]@);
                        }
                        floor(&args)
                    },
                    Fun::Declared { params, body, closure } => {
                        proof {
                            crate::environment::lemma_view_envs_len(self.envs@);
                            lemma_envs_wf_push(self@.envs, closure as int);
                        }
                        let fresh = push_env(&mut self.envs, closure);
                        let ghost envs1 = self@.envs;
                        let ghost pv = spec_view_strings(params@);
                        let ghost av = vals_view(args@);
                        let mut k: usize = 0;
                        proof {
                            assert(pv.skip(0) =~= pv);
                            assert(av.skip(0) =~= av);
                        }
                        while k < params.len()
                            invariant
                                k <= params@.len(),
                                params@.len() == args@.len(),
                                self.environment == old(self).environment,
                                self.now == old(self).now,
                                self.output == old(self).output,
                                arena_wf(self.envs@),
                                crate::semantics::spec_envs_wf(spec_view_envs(self.envs@)),
                                self.envs@.len() == envs1.len(),
                                fresh < self.envs@.len(),
                                pv == spec_view_strings(params@),
                                av == vals_view(args@),
                                pv.len() == params@.len(),
                                av.len() == args@.len(),
                                spec_bind_params(envs1, fresh as int, pv, av)
                                    == spec_bind_params(
                                    spec_view_envs(self.envs@),
                                    fresh as int,
                                    pv.skip(k as int),
                                    av.skip(k as int),
                                ),
                                forall|j: int|
                                    0 <= j < args@.len() ==> spec_val_wf(
                                        #[trigger] args@[j]@,
                                        self.envs@.len() as int,
                                    ),
                            decreases params@.len() - k,
                        {
                            proof {
                                assert(pv.skip(k as int)[0] == pv[k as int]);
                                assert(pv[k as int] == params@[k as int]@);
                                assert(av.skip(k as int)[0] == av[k as int]);
                                assert(av[k as int] == args@[k as int]@);
                                lemma_envs_wf_define(
                                    spec_view_envs(self.envs@),
                                    fresh as int,
                                    params@[k as int]@,
                                    args@[k as int]@,
                                );
                            }
                            env_define(&mut self.envs, fresh, params[k].clone(), args[k].duplicate());
                            k = k + 1;
                            proof {
                                assert(pv.skip(k as int - 1).skip(1) =~= pv.skip(k as int));
                                assert(av.skip(k as int - 1).skip(1) =~= av.skip(k as int));
                            }
                        }
                        proof {
                            assert(pv.skip(k as int) =~= Seq::<Seq<char>>::empty());
                            assert(av.skip(k as int) =~= Seq::<Val>::empty());
                            assert(spec_bind_params(envs1, fresh as int, pv, av)
                                == spec_view_envs(self.envs@));
                        }
                        let saved = self.environment;
                        self.environment = fresh;
                        let res = self.interpret_stmt(body.as_slice(), fuel - 1);
                        self.environment = saved;
                        match res {
                            Ok(ControllFlow::ReturnVal(v)) => Ok(v),
                            Ok(ControllFlow::Normal) => Ok(LiteralValue::Nil),
                            Ok(ControllFlow::Break) => Err(
                                EvalError::InvalidControlFlow { kind: CfKind::Break },
                            ),
                            Ok(ControllFlow::Continue) => Err(
                                EvalError::InvalidControlFlow { kind: CfKind::Continue },
                            ),
                            Err(e) => Err(e),
                        }
                    },
                }
            },
            other => Err(EvalError::NotCallable { what: other.value_type() }),
        }
    }

    /// Execution of one statement; see `spec_exec_stmt`.
    fn exec_stmt(&mut self, s: &Stmt, fuel: u64) -> (r: Result<ControllFlow, EvalError>)
        requires
            old(self).wf(),
            spec_stmt_wf(s@),
        ensures
            final(self).wf(),
            final(self).environment == old(self).environment,
            ({
                let o = spec_exec_stmt(s@, old(self)@, old(self).environment as int, fuel as nat);
                final(self)@ == o.st && res_exec_view(r) == o.res
            }),
        decreases fuel,
    {
        proof {
            lemma_exec_stmt_wf(s@, self@, self.environment as int, fuel as nat);
        }
        if fuel == 0 {
            return Err(EvalError::RecursionLimit);
        }
        match s {
            Stmt::Expression { expression } => match expression.eval(self, fuel - 1) {
                Ok(_) => Ok(ControllFlow::Normal),
                Err(e) => Err(e),
            },
            Stmt::Print { expression } => {
                let v = match expression.eval(self, fuel - 1) {
                    Ok(v) => v,
                    Err(e) => {
                        return Err(e);
                    },
                };
                let ghost out_prev = self.output@;
                let line = v.to_display_string();
                self.output.push(line);
                proof {
                    assert(self.output@.map_values(|s: String| s@) =~= out_prev.map_values(
                        |s: String| s@,
                    ).push(crate::strings::spec_display(v@)));
                }
                Ok(ControllFlow::Normal)
            },
            Stmt::Var { name, initializer } => {
                let v = match initializer.eval(self, fuel - 1) {
                    Ok(v) => v,
                    Err(e) => {
                        return Err(e);
                    },
                };
                proof {
                    lemma_eval_wf(
                        initializer@,
                        old(self)@,
                        old(self).environment as int,
                        (fuel - 1) as nat,
                    );
                    lemma_envs_wf_define(self@.envs, self.environment as int, name@, v@);
                }
                env_define(&mut self.envs, self.environment, name.clone(), v);
                Ok(ControllFlow::Normal)
            },
            Stmt::Block { stmts } => {
                proof {
                    lemma_envs_wf_push(self@.envs, self.environment as int);
                }
                let fresh = push_env(&mut self.envs, self.environment);
                let saved = self.environment;
                self.environment = fresh;
                proof {
                    assert(arena_wf(self.envs@));
                    assert(spec_state_wf(self@));
                    assert(self.environment < self.envs@.len());
                    assert(spec_stmts_wf(spec_view_stmts(stmts@)));
                }
                let r = self.interpret_stmt(stmts.as_slice(), fuel - 1);
                self.environment = saved;
                r
            },
            Stmt::IfElse { condition, then_branch, els } => {
                let v = match condition.eval(self, fuel - 1) {
                    Ok(v) => v,
                    Err(e) => {
                        return Err(e);
                    },
                };
                let is_true = match v {
                    LiteralValue::True => true,
                    _ => false,
                };
                if is_true {
                    self.exec_branch(&**then_branch, fuel - 1)
                } else {
                    match els {
                        Some(b) => self.exec_branch(&**b, fuel - 1),
                        None => Ok(ControllFlow::Normal),
                    }
                }
            },
            Stmt::While { condition, block } => match &**block {
                Stmt::Block { stmts } => {
                    proof {
                        assert(spec_stmt_wf((**block)@));
                        assert(spec_stmts_wf(spec_view_stmts(stmts@)));
                        lemma_envs_wf_push(self@.envs, self.environment as int);
                    }
                    let fresh = push_env(&mut self.envs, self.environment);
                    let saved = self.environment;
                    self.environment = fresh;
                    let r = self.exec_while(condition, stmts, fuel - 1);
                    self.environment = saved;
                    r
                },
                _ => {
                    proof {
                        block.lemma_view_is_block();
                    }
                    Err(EvalError::MalformedLoopBody)
                },
            },
            Stmt::Function { name, params, body } => {
                proof {
                    assert(spec_view_strings(params@).len() == params@.len());
                }
                let callable = LiteralValue::Callable {
                    name: name.clone(),
                    arity: params.len(),
                    fun: Fun::Declared {
                        params: dup_strings(params),
                        body: dup_stmts(body),
                        closure: self.environment,
                    },
                };
                proof {
                    lemma_envs_wf_define(self@.envs, self.environment as int, name@, callable@);
                }
                env_define(&mut self.envs, self.environment, name.clone(), callable);
                Ok(ControllFlow::Normal)
            },
            Stmt::Return { expr } => match expr {
                Some(e) => match e.eval(self, fuel - 1) {
                    Ok(v) => Ok(ControllFlow::ReturnVal(v)),
                    Err(er) => Err(er),
                },
                None => Ok(ControllFlow::ReturnVal(LiteralValue::Nil)),
            },
            Stmt::Break => Ok(ControllFlow::Break),
            Stmt::Continue => Ok(ControllFlow::Continue),
        }
    }

    /// Execution of an `if`/`else` branch in a fresh child scope.
    fn exec_branch(&mut self, s: &Stmt, fuel: u64) -> (r: Result<ControllFlow, EvalError>)
        requires
            old(self).wf(),
            spec_stmt_wf(s@),
        ensures
            final(self).wf(),
            final(self).environment == old(self).environment,
            ({
                let o = spec_exec_branch(s@, old(self)@, old(self).environment as int, fuel as nat);
                final(self)@ == o.st && res_exec_view(r) == o.res
            }),
        decreases fuel,
    {
        proof {
            lemma_exec_branch_wf(s@, self@, self.environment as int, fuel as nat);
        }
        if fuel == 0 {
            return Err(EvalError::RecursionLimit);
        }
        proof {
            lemma_envs_wf_push(self@.envs, self.environment as int);
        }
        let fresh = push_env(&mut self.envs, self.environment);
        let saved = self.environment;
        self.environment = fresh;
        let r = self.exec_stmt(s, fuel - 1);
        self.environment = saved;
        r
    }

    /// Execution of a statement list against the current scope: each
    /// statement in order until one produces a non-`Normal` signal or an
    /// error, which short-circuits the rest and is handed to the caller.
    pub fn interpret_stmt(&mut self, st: &[Stmt], fuel: u64) -> (r: Result<ControllFlow, EvalError>)
        requires
            old(self).wf(),
            spec_stmts_wf(spec_view_stmts(st@)),
        ensures
            final(self).wf(),
            final(self).environment == old(self).environment,
            ({
                let o = spec_exec_stmts(
                    spec_view_stmts(st@),
                    old(self)@,
                    old(self).environment as int,
                    fuel as nat,
                );
                final(self)@ == o.st && res_exec_view(r) == o.res
            }),
        decreases fuel,
    {
        let ghost full = spec_view_stmts(st@);
        let ghost cur = old(self).environment as int;
        let ghost o_total = spec_exec_stmts(full, old(self)@, cur, fuel as nat);
        proof {
            crate::stmt::lemma_view_stmts_len(st@);
            assert(full.skip(0) =~= full);
        }
        let mut i: usize = 0;
        let mut f: u64 = fuel;
        while i < st.len()
            invariant
                self.wf(),
                self.environment == old(self).environment,
                i <= st@.len(),
                f <= fuel,
                full == spec_view_stmts(st@),
                full.len() == st@.len(),
                cur == old(self).environment as int,
                spec_stmts_wf(full),
                o_total == spec_exec_stmts(full, old(self)@, cur, fuel as nat),
                o_total == spec_exec_stmts(full.skip(i as int), self@, cur, f as nat),
            decreases st@.len() - i,
        {
            if f == 0 {
                proof {
                    assert(full.skip(i as int).len() > 0);
                }
                return Err(EvalError::RecursionLimit);
            }
            f = f - 1;
            proof {
                lemma_view_stmts_index(st@, i as int);
                assert(full.skip(i as int)[0] == full[i as int]);
                lemma_stmts_wf_index(full, i as int);
            }
            let r = self.exec_stmt(&st[i], f);
            proof {
                assert(full.skip(i as int).skip(1) =~= full.skip(i as int + 1));
            }
            match r {
                Ok(ControllFlow::Normal) => {},
                other => {
                    return other;
                },
            }
            i = i + 1;
        }
        proof {
            assert(full.skip(i as int) =~= Seq::<StmtV>::empty());
        }
        Ok(ControllFlow::Normal)
    }

    /// Execution of a `while` loop whose scope is already current: the
    /// condition is re-tested against that scope before every iteration;
    /// `Break` ends the loop, `Continue` skips to the next test, `Return`
    /// propagates out.
    fn exec_while(&mut self, condition: &Expr, body: &Vec<Stmt>, fuel: u64) -> (r: Result<
        ControllFlow,
        EvalError,
    >)
        requires
            old(self).wf(),
            spec_expr_wf(condition@),
            spec_stmts_wf(spec_view_stmts(body@)),
        ensures
            final(self).wf(),
            final(self).environment == old(self).environment,
            ({
                let o = spec_exec_while(
                    condition@,
                    spec_view_stmts(body@),
                    old(self)@,
                    old(self).environment as int,
                    fuel as nat,
                );
                final(self)@ == o.st && res_exec_view(r) == o.res
            }),
        decreases fuel,
    {
        let ghost cv = condition@;
        let ghost bv = spec_view_stmts(body@);
        let ghost cur = old(self).environment as int;
        let ghost o_total = spec_exec_while(cv, bv, old(self)@, cur, fuel as nat);
        let mut f: u64 = fuel;
        loop
            invariant
                self.wf(),
                self.environment == old(self).environment,
                f <= fuel,
                cv == condition@,
                bv == spec_view_stmts(body@),
                cur == old(self).environment as int,
                spec_expr_wf(cv),
                spec_stmts_wf(bv),
                o_total == spec_exec_while(cv, bv, old(self)@, cur, fuel as nat),
                o_total == spec_exec_while(cv, bv, self@, cur, f as nat),
            decreases f,
        {
            if f == 0 {
                return Err(EvalError::RecursionLimit);
            }
            f = f - 1;
            let v = match condition.eval(self, f) {
                Ok(v) => v,
                Err(e) => {
                    return Err(e);
                },
            };
            if !v.is_truthy() {
                return Ok(ControllFlow::Normal);
            }
            let b = self.interpret_stmt(body.as_slice(), f);
            match b {
                Ok(ControllFlow::Break) => {
                    return Ok(ControllFlow::Normal);
                },
                Ok(ControllFlow::ReturnVal(rv)) => {
                    return Ok(ControllFlow::ReturnVal(rv));
                },
                Ok(ControllFlow::Normal) => {},
                Ok(ControllFlow::Continue) => {},
                Err(e) => {
                    return Err(e);
                },
            }
        }
    }

    /// Evaluation of one expression against the current scope.
    pub fn interpret(&mut self, expr: Expr, fuel: u64) -> (r: Result<LiteralValue, EvalError>)
        requires
            old(self).wf(),
            spec_expr_wf(expr@),
        ensures
            final(self).wf(),
            final(self).environment == old(self).environment,
            ({
                let o = spec_eval(expr@, old(self)@, old(self).environment as int, fuel as nat);
                final(self)@ == o.st && res_eval_view(r) == o.res
            }),
    {
        expr.eval(self, fuel)
    }

    /// Execution of a whole program: a `Normal` completion is success; a
    /// `break`, `continue` or `return` escaping at the top level is
    /// reported as an error, never ignored.
    pub fn interpret_program(&mut self, st: &[Stmt], fuel: u64) -> (r: Result<(), EvalError>)
        requires
            old(self).wf(),
            spec_stmts_wf(spec_view_stmts(st@)),
        ensures
            final(self).wf(),
            final(self).environment == old(self).environment,
            ({
                let o = spec_exec_stmts(
                    spec_view_stmts(st@),
                    old(self)@,
                    old(self).environment as int,
                    fuel as nat,
                );
                final(self)@ == o.st && res_unit_view(r) == spec_top_result(o.res)
            }),
    {
        match self.interpret_stmt(st, fuel) {
            Ok(ControllFlow::Normal) => Ok(()),
            Ok(ControllFlow::Break) => Err(EvalError::InvalidControlFlow { kind: CfKind::Break }),
            Ok(ControllFlow::Continue) => Err(
                EvalError::InvalidControlFlow { kind: CfKind::Continue },
            ),
            Ok(ControllFlow::ReturnVal(_)) => Err(
                EvalError::InvalidControlFlow { kind: CfKind::Return },
            ),
            Err(e) => Err(e),
        }
    }

    /// The lines `print` has written so far, oldest first, leaving the
    /// buffer empty.
    pub fn take_output(&mut self) -> (r: Vec<String>)
        requires
            old(self).wf(),
        ensures
            final(self).wf(),
            final(self).environment == old(self).environment,
            final(self)@.envs == old(self)@.envs,
            final(self).now == old(self).now,
            final(self)@.output == Seq::<Seq<char>>::empty(),
            r@.map_values(|s: String| s@) == old(self)@.output,
    {
        let mut out: Vec<String> = Vec::new();
        std::mem::swap(&mut out, &mut self.output);
        proof {
            assert(self.output@.map_values(|s: String| s@) =~= Seq::<Seq<char>>::empty());
        }
        out
    }
}

} // verus!
