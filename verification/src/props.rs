//! The laws of the evaluator, stated over the specification semantics and
//! proved once and for all: arithmetic and concatenation on literals,
//! scoping, loop control, short-circuiting, function calls, equality
//! totality, and purity of read-only expressions.
use vstd::prelude::*;
use crate::expr::ExprV;
use crate::expr::Val;
use crate::expr::BinaryOp;
use crate::expr::LogicalOp;
use crate::expr::ValueType;
use crate::expr::spec_is_truthy;
use crate::expr::spec_from_bool;
use crate::expr::spec_val_eq;
use crate::stmt::StmtV;
use crate::environment::EnvM;
use crate::environment::spec_lookup;
use crate::environment::spec_define;
use crate::environment::spec_assign;
use crate::semantics::StateM;
use crate::semantics::OpKind;
use crate::semantics::CfKind;
use crate::semantics::ErrM;
use crate::semantics::CfM;
use crate::semantics::EvalOut;
use crate::semantics::ExecOut;
use crate::semantics::ArgsOut;
use crate::semantics::spec_eval;
use crate::semantics::spec_eval_args;
use crate::semantics::spec_call;
use crate::semantics::spec_exec_stmt;
use crate::semantics::spec_exec_stmts;
use crate::semantics::spec_exec_while;
use crate::semantics::spec_binary;
use crate::semantics::spec_div_i64;
use crate::semantics::spec_rem_i64;
use crate::semantics::spec_bind_params;
use crate::strings::spec_dec_int;

verus! {

/// A numeric literal node.
pub open spec fn lit_num(n: i64) -> ExprV {
    ExprV::Literal { value: Val::Num(n) }
}

/// A string literal node.
pub open spec fn lit_str(s: Seq<char>) -> ExprV {
    ExprV::Literal { value: Val::Str(s) }
}

/// A binary operator node.
pub open spec fn bin_expr(l: ExprV, op: BinaryOp, r: ExprV) -> ExprV {
    ExprV::Binary { left: Box::new(l), operator: op, right: Box::new(r) }
}

/// Arithmetic on two numeric literals evaluates to exactly the expected
/// number, without touching the state: `+`, `-` and `*` with wrapping
/// semantics, `/` and `%` truncating, with division or remainder by zero
/// a `DivisionByZero` error — the defined behaviour chosen for the
/// integer value model.
pub proof fn lemma_literal_arithmetic(a: i64, b: i64, st: StateM, cur: int, fuel: nat)
    requires
        fuel >= 2,
    ensures
        spec_eval(bin_expr(lit_num(a), BinaryOp::Plus, lit_num(b)), st, cur, fuel) == (EvalOut {
            st,
            res: Ok(Val::Num(a.wrapping_add(b))),
        }),
        spec_eval(bin_expr(lit_num(a), BinaryOp::Minus, lit_num(b)), st, cur, fuel) == (EvalOut {
            st,
            res: Ok(Val::Num(a.wrapping_sub(b))),
        }),
        spec_eval(bin_expr(lit_num(a), BinaryOp::Star, lit_num(b)), st, cur, fuel) == (EvalOut {
            st,
            res: Ok(Val::Num(a.wrapping_mul(b))),
        }),
        b != 0 ==> spec_eval(bin_expr(lit_num(a), BinaryOp::Slash, lit_num(b)), st, cur, fuel)
            == (EvalOut { st, res: Ok(Val::Num(spec_div_i64(a, b))) }),
        b != 0 ==> spec_eval(bin_expr(lit_num(a), BinaryOp::Percent, lit_num(b)), st, cur, fuel)
            == (EvalOut { st, res: Ok(Val::Num(spec_rem_i64(a, b))) }),
        b == 0 ==> spec_eval(bin_expr(lit_num(a), BinaryOp::Slash, lit_num(b)), st, cur, fuel)
            == (EvalOut { st, res: Err(ErrM::DivisionByZero) }),
        b == 0 ==> spec_eval(bin_expr(lit_num(a), BinaryOp::Percent, lit_num(b)), st, cur, fuel)
            == (EvalOut { st, res: Err(ErrM::DivisionByZero) }),
{
    assert(spec_eval(lit_num(a), st, cur, (fuel - 1) as nat) == EvalOut {
        st,
        res: Ok::<Val, ErrM>(Val::Num(a)),
    });
    assert(spec_eval(lit_num(b), st, cur, (fuel - 1) as nat) == EvalOut {
        st,
        res: Ok::<Val, ErrM>(Val::Num(b)),
    });
}

/// In-range addition, subtraction and multiplication of numeric literals
/// agree with the mathematical operations: wrapping never intrudes when
/// the result fits the numeric type.
pub proof fn lemma_literal_arithmetic_exact(a: i64, b: i64, st: StateM, cur: int, fuel: nat)
    requires
        fuel >= 2,
        i64::MIN <= a + b <= i64::MAX,
    ensures
        spec_eval(bin_expr(lit_num(a), BinaryOp::Plus, lit_num(b)), st, cur, fuel) == (EvalOut {
            st,
            res: Ok(Val::Num((a + b) as i64)),
        }),
{
    lemma_literal_arithmetic(a, b, st, cur, fuel);
}

/// Concatenation on string literals: two strings concatenate; a string
/// concatenates a number on its right, rendered in decimal; a number with
/// a string on its right stays a type mismatch — the deliberate
/// asymmetry of `+`.
pub proof fn lemma_string_concatenation(x: Seq<char>, y: Seq<char>, n: i64, st: StateM, cur: int, fuel: nat)
    requires
        fuel >= 2,
    ensures
        spec_eval(bin_expr(lit_str(x), BinaryOp::Plus, lit_str(y)), st, cur, fuel) == (EvalOut {
            st,
            res: Ok(Val::Str(x + y)),
        }),
        spec_eval(bin_expr(lit_str(x), BinaryOp::Plus, lit_num(n)), st, cur, fuel) == (EvalOut {
            st,
            res: Ok(Val::Str(x + spec_dec_int(n as int))),
        }),
        spec_eval(bin_expr(lit_num(n), BinaryOp::Plus, lit_str(x)), st, cur, fuel) == (EvalOut {
            st,
            res: Err(
                ErrM::TypeMismatch {
                    op: OpKind::Binary(BinaryOp::Plus),
                    left: ValueType::Number,
                    right: Some(ValueType::StringValue),
                },
            ),
        }),
{
    assert(spec_eval(lit_str(x), st, cur, (fuel - 1) as nat) == EvalOut {
        st,
        res: Ok::<Val, ErrM>(Val::Str(x)),
    });
    assert(spec_eval(lit_str(y), st, cur, (fuel - 1) as nat) == EvalOut {
        st,
        res: Ok::<Val, ErrM>(Val::Str(y)),
    });
    assert(spec_eval(lit_num(n), st, cur, (fuel - 1) as nat) == EvalOut {
        st,
        res: Ok::<Val, ErrM>(Val::Num(n)),
    });
}

/// Equality between any two values never raises an error: `==` and `!=`
/// on any pair of literals yield a boolean, `False` rather than a type
/// mismatch on values of different shapes.
pub proof fn lemma_equality_total(a: Val, b: Val, st: StateM, cur: int, fuel: nat)
    requires
        fuel >= 2,
    ensures
        spec_eval(
            bin_expr(ExprV::Literal { value: a }, BinaryOp::EqualEqual, ExprV::Literal { value: b }),
            st,
            cur,
            fuel,
        ) == (EvalOut { st, res: Ok(spec_from_bool(spec_val_eq(a, b))) }),
        spec_eval(
            bin_expr(ExprV::Literal { value: a }, BinaryOp::BangEqual, ExprV::Literal { value: b }),
            st,
            cur,
            fuel,
        ) == (EvalOut { st, res: Ok(spec_from_bool(!spec_val_eq(a, b))) }),
        spec_binary(BinaryOp::EqualEqual, a, b) == Ok::<Val, ErrM>(
            spec_from_bool(spec_val_eq(a, b)),
        ),
{
    assert(spec_eval(ExprV::Literal { value: a }, st, cur, (fuel - 1) as nat) == EvalOut {
        st,
        res: Ok::<Val, ErrM>(a),
    });
    assert(spec_eval(ExprV::Literal { value: b }, st, cur, (fuel - 1) as nat) == EvalOut {
        st,
        res: Ok::<Val, ErrM>(b),
    });
}

/// Ordering between a string and a number is rejected in both
/// directions, whichever comparison is asked: only `+` coerces, and only
/// with the number on the right.
pub proof fn lemma_cross_type_ordering(n: i64, s: Seq<char>, op: BinaryOp)
    requires
        op == BinaryOp::Greater || op == BinaryOp::GreaterEqual || op == BinaryOp::Less || op
            == BinaryOp::LessEqual,
    ensures
        spec_binary(op, Val::Num(n), Val::Str(s)) == Err::<Val, ErrM>(
            ErrM::TypeMismatch {
                op: OpKind::Binary(op),
                left: ValueType::Number,
                right: Some(ValueType::StringValue),
            },
        ),
        spec_binary(op, Val::Str(s), Val::Num(n)) == Err::<Val, ErrM>(
            ErrM::TypeMismatch {
                op: OpKind::Binary(op),
                left: ValueType::StringValue,
                right: Some(ValueType::Number),
            },
        ),
{
}

/// Short-circuiting: when the left side of `and` is falsy, or the left
/// side of `or` is truthy, the left value is the result and the right
/// side is never evaluated — the result does not depend on `r` at all,
/// so a right side that would fault (an undeclared variable, a side
/// effect) cannot.
pub proof fn lemma_short_circuit(l: ExprV, r: ExprV, st: StateM, cur: int, fuel: nat)
    requires
        fuel >= 1,
    ensures
        ({
            let o1 = spec_eval(l, st, cur, (fuel - 1) as nat);
            (match o1.res {
                Ok(v) => !spec_is_truthy(v) ==> spec_eval(
                    ExprV::Logical {
                        left: Box::new(l),
                        operator: LogicalOp::And,
                        right: Box::new(r),
                    },
                    st,
                    cur,
                    fuel,
                ) == (EvalOut { st: o1.st, res: Ok(v) }),
                Err(_) => true,
            })
        }),
        ({
            let o1 = spec_eval(l, st, cur, (fuel - 1) as nat);
            (match o1.res {
                Ok(v) => spec_is_truthy(v) ==> spec_eval(
                    ExprV::Logical {
                        left: Box::new(l),
                        operator: LogicalOp::Or,
                        right: Box::new(r),
                    },
                    st,
                    cur,
                    fuel,
                ) == (EvalOut { st: o1.st, res: Ok(v) }),
                Err(_) => true,
            })
        }),
{
}

/// A call with the wrong number of arguments is exactly an arity error
/// carrying the expected and the actual count, and the state is
/// untouched.
pub proof fn lemma_call_arity(f: Val, args: Seq<Val>, st: StateM, fuel: nat)
    requires
        fuel >= 1,
        f is Callable,
        args.len() != f->Callable_arity,
    ensures
        spec_call(f, args, st, fuel) == (EvalOut {
            st,
            res: Err(
                ErrM::ArityError { expected: f->Callable_arity, actual: args.len() },
            ),
        }),
{
}

/// A `Break` signal produced by the body ends the loop normally: when the
/// condition holds and the body's execution yields `Break`, the whole
/// loop execution completes with a `Normal` signal, so the statements
/// after the loop still run.
pub proof fn lemma_break_ends_loop(cond: ExprV, body: Seq<StmtV>, st: StateM, cur: int, fuel: nat)
    requires
        fuel >= 1,
    ensures
        ({
            let o1 = spec_eval(cond, st, cur, (fuel - 1) as nat);
            match o1.res {
                Ok(v) => spec_is_truthy(v) ==> ({
                    let b = spec_exec_stmts(body, o1.st, cur, (fuel - 1) as nat);
                    b.res == Ok::<CfM, ErrM>(CfM::Break) ==> spec_exec_while(
                        cond,
                        body,
                        st,
                        cur,
                        fuel,
                    ) == (ExecOut { st: b.st, res: Ok(CfM::Normal) })
                }),
                Err(_) => true,
            }
        }),
{
}

/// Declaring a variable and shadowing it inside a block does not leak:
/// after the block exits, the outer binding still holds the outer value.
pub proof fn lemma_shadowing_does_not_leak(
    x: Seq<char>,
    v1: Val,
    v2: Val,
    st: StateM,
    cur: int,
    fuel: nat,
)
    requires
        0 <= cur < st.envs.len(),
        fuel >= 6,
    ensures
        ({
            let prog = seq![
                StmtV::Var { name: x, initializer: ExprV::Literal { value: v1 } },
                StmtV::Block {
                    stmts: seq![
                        StmtV::Var { name: x, initializer: ExprV::Literal { value: v2 } },
                    ],
                },
            ];
            let o = spec_exec_stmts(prog, st, cur, fuel);
            o.res == Ok::<CfM, ErrM>(CfM::Normal) && spec_lookup(o.st.envs, cur, x) == Some(v1)
        }),
{
    let prog = seq![
        StmtV::Var { name: x, initializer: ExprV::Literal { value: v1 } },
        StmtV::Block {
            stmts: seq![StmtV::Var { name: x, initializer: ExprV::Literal { value: v2 } }],
        },
    ];
    assert(spec_eval(ExprV::Literal { value: v1 }, st, cur, (fuel - 2) as nat) == EvalOut {
        st,
        res: Ok::<Val, ErrM>(v1),
    });
    let o1 = spec_exec_stmt(prog[0], st, cur, (fuel - 1) as nat);
    let st1 = StateM { envs: spec_define(st.envs, cur, x, v1), ..st };
    assert(o1 == ExecOut { st: st1, res: Ok::<CfM, ErrM>(CfM::Normal) });
    assert(prog.skip(1) =~= seq![prog[1]]);
    let fresh = st1.envs.len() as int;
    let st2 = StateM {
        envs: st1.envs.push(EnvM { values: Map::empty(), enclosing: Some(cur) }),
        ..st1
    };
    let inner = seq![StmtV::Var { name: x, initializer: ExprV::Literal { value: v2 } }];
    assert(spec_eval(ExprV::Literal { value: v2 }, st2, fresh, (fuel - 5) as nat) == EvalOut {
        st: st2,
        res: Ok::<Val, ErrM>(v2),
    });
    let o2 = spec_exec_stmt(inner[0], st2, fresh, (fuel - 4) as nat);
    let st3 = StateM { envs: spec_define(st2.envs, fresh, x, v2), ..st2 };
    assert(o2 == ExecOut { st: st3, res: Ok::<CfM, ErrM>(CfM::Normal) });
    assert(inner.skip(1) =~= Seq::<StmtV>::empty());
    let oi = spec_exec_stmts(inner, st2, fresh, (fuel - 3) as nat);
    assert(spec_exec_stmts(inner.skip(1), st3, fresh, (fuel - 4) as nat) == ExecOut {
        st: st3,
        res: Ok::<CfM, ErrM>(CfM::Normal),
    });
    assert(oi == ExecOut { st: st3, res: Ok::<CfM, ErrM>(CfM::Normal) });
    let ob = spec_exec_stmt(prog[1], st1, cur, (fuel - 2) as nat);
    assert(ob == ExecOut { st: st3, res: Ok::<CfM, ErrM>(CfM::Normal) });
    let orest = spec_exec_stmts(prog.skip(1), st1, cur, (fuel - 1) as nat);
    assert(spec_exec_stmts(prog.skip(1).skip(1), st3, cur, (fuel - 2) as nat) == ExecOut {
        st: st3,
        res: Ok::<CfM, ErrM>(CfM::Normal),
    }) by {
        assert(prog.skip(1).skip(1) =~= Seq::<StmtV>::empty());
    }
    assert(orest == ExecOut { st: st3, res: Ok::<CfM, ErrM>(CfM::Normal) });
    let o = spec_exec_stmts(prog, st, cur, fuel);
    assert(o == ExecOut { st: st3, res: Ok::<CfM, ErrM>(CfM::Normal) });
    assert(cur < fresh);
    assert(st3.envs[cur] == st1.envs[cur]);
    assert(st1.envs[cur].values[x] == v1);
    assert(spec_lookup(st3.envs, cur, x) == Some(v1));
}

/// Assignment inside a block mutates the enclosing binding: after the
/// block exits, the outer variable holds the assigned value —
/// `assign` walks the chain, unlike `define`, which creates a shadow.
pub proof fn lemma_assignment_reaches_outward(
    x: Seq<char>,
    v1: Val,
    v2: Val,
    st: StateM,
    cur: int,
    fuel: nat,
)
    requires
        0 <= cur < st.envs.len(),
        fuel >= 8,
    ensures
        ({
            let prog = seq![
                StmtV::Var { name: x, initializer: ExprV::Literal { value: v1 } },
                StmtV::Block {
                    stmts: seq![
                        StmtV::Expression {
                            expression: ExprV::Assign {
                                name: x,
                                value: Box::new(ExprV::Literal { value: v2 }),
                            },
                        },
                    ],
                },
            ];
            let o = spec_exec_stmts(prog, st, cur, fuel);
            o.res == Ok::<CfM, ErrM>(CfM::Normal) && spec_lookup(o.st.envs, cur, x) == Some(v2)
        }),
{
    let asg = ExprV::Assign { name: x, value: Box::new(ExprV::Literal { value: v2 }) };
    let prog = seq![
        StmtV::Var { name: x, initializer: ExprV::Literal { value: v1 } },
        StmtV::Block { stmts: seq![StmtV::Expression { expression: asg }] },
    ];
    assert(spec_eval(ExprV::Literal { value: v1 }, st, cur, (fuel - 2) as nat) == EvalOut {
        st,
        res: Ok::<Val, ErrM>(v1),
    });
    let o1 = spec_exec_stmt(prog[0], st, cur, (fuel - 1) as nat);
    let st1 = StateM { envs: spec_define(st.envs, cur, x, v1), ..st };
    assert(o1 == ExecOut { st: st1, res: Ok::<CfM, ErrM>(CfM::Normal) });
    assert(prog.skip(1) =~= seq![prog[1]]);
    let fresh = st1.envs.len() as int;
    let st2 = StateM {
        envs: st1.envs.push(EnvM { values: Map::empty(), enclosing: Some(cur) }),
        ..st1
    };
    let inner = seq![StmtV::Expression { expression: asg }];
    // The assignment expression: the literal, then the chain walk.
    assert(spec_eval(ExprV::Literal { value: v2 }, st2, fresh, (fuel - 6) as nat) == EvalOut {
        st: st2,
        res: Ok::<Val, ErrM>(v2),
    });
    assert(cur < fresh);
    assert(!st2.envs[fresh].values.contains_key(x));
    assert(st2.envs[cur].values.contains_key(x));
    let envs3 = spec_define(st2.envs, cur, x, v2);
    assert(spec_assign(st2.envs, cur, x, v2) == (envs3, true));
    assert(spec_assign(st2.envs, fresh, x, v2) == (envs3, true));
    let st3 = StateM { envs: envs3, ..st2 };
    let oe = spec_eval(asg, st2, fresh, (fuel - 5) as nat);
    assert(oe == EvalOut { st: st3, res: Ok::<Val, ErrM>(v2) });
    let o2 = spec_exec_stmt(inner[0], st2, fresh, (fuel - 4) as nat);
    assert(o2 == ExecOut { st: st3, res: Ok::<CfM, ErrM>(CfM::Normal) });
    assert(inner.skip(1) =~= Seq::<StmtV>::empty());
    let oi = spec_exec_stmts(inner, st2, fresh, (fuel - 3) as nat);
    assert(spec_exec_stmts(inner.skip(1), st3, fresh, (fuel - 4) as nat) == ExecOut {
        st: st3,
        res: Ok::<CfM, ErrM>(CfM::Normal),
    });
    assert(oi == ExecOut { st: st3, res: Ok::<CfM, ErrM>(CfM::Normal) });
    let ob = spec_exec_stmt(prog[1], st1, cur, (fuel - 2) as nat);
    assert(ob == ExecOut { st: st3, res: Ok::<CfM, ErrM>(CfM::Normal) });
    let orest = spec_exec_stmts(prog.skip(1), st1, cur, (fuel - 1) as nat);
    assert(spec_exec_stmts(prog.skip(1).skip(1), st3, cur, (fuel - 2) as nat) == ExecOut {
        st: st3,
        res: Ok::<CfM, ErrM>(CfM::Normal),
    }) by {
        assert(prog.skip(1).skip(1) =~= Seq::<StmtV>::empty());
    }
    assert(orest == ExecOut { st: st3, res: Ok::<CfM, ErrM>(CfM::Normal) });
    let o = spec_exec_stmts(prog, st, cur, fuel);
    assert(o == ExecOut { st: st3, res: Ok::<CfM, ErrM>(CfM::Normal) });
    assert(st3.envs[cur].values[x] == v2);
    assert(spec_lookup(st3.envs, cur, x) == Some(v2));
}

/// Declaring `fn add(a, b) { return a + b; }` and calling it on two
/// numbers yields their sum: the call binds the parameters in a fresh
/// scope over the declaration scope, runs the body, and the `Return`
/// signal becomes the call's value.
pub proof fn lemma_function_roundtrip(
    fname: Seq<char>,
    p1: Seq<char>,
    p2: Seq<char>,
    x: i64,
    y: i64,
    st: StateM,
    cur: int,
    fuel: nat,
)
    requires
        0 <= cur < st.envs.len(),
        p1 != p2,
        fuel >= 12,
    ensures
        ({
            let body = seq![
                StmtV::Return {
                    expr: Some(
                        bin_expr(
                            ExprV::Variable { name: p1 },
                            BinaryOp::Plus,
                            ExprV::Variable { name: p2 },
                        ),
                    ),
                },
            ];
            let decl = StmtV::Function { name: fname, params: seq![p1, p2], body: body };
            let call = ExprV::Call {
                callee: Box::new(ExprV::Variable { name: fname }),
                args: seq![lit_num(x), lit_num(y)],
            };
            let o1 = spec_exec_stmt(decl, st, cur, fuel);
            let o2 = spec_eval(call, o1.st, cur, fuel);
            o1.res == Ok::<CfM, ErrM>(CfM::Normal) && o2.res == Ok::<Val, ErrM>(
                Val::Num(x.wrapping_add(y)),
            )
        }),
{
    let body = seq![
        StmtV::Return {
            expr: Some(
                bin_expr(
                    ExprV::Variable { name: p1 },
                    BinaryOp::Plus,
                    ExprV::Variable { name: p2 },
                ),
            ),
        },
    ];
    let params = seq![p1, p2];
    let decl = StmtV::Function { name: fname, params: params, body: body };
    let callable = Val::Callable {
        name: fname,
        arity: 2,
        fun: crate::expr::FunV::Declared { params: params, body: body, closure: cur as nat },
    };
    let o1 = spec_exec_stmt(decl, st, cur, fuel);
    let st1 = StateM { envs: spec_define(st.envs, cur, fname, callable), ..st };
    assert(params.len() == 2);
    assert(o1 == ExecOut { st: st1, res: Ok::<CfM, ErrM>(CfM::Normal) });

    let call = ExprV::Call {
        callee: Box::new(ExprV::Variable { name: fname }),
        args: seq![lit_num(x), lit_num(y)],
    };
    // The callee lookup finds the declared callable.
    assert(st1.envs[cur].values[fname] == callable);
    assert(spec_lookup(st1.envs, cur, fname) == Some(callable));
    let oc = spec_eval(ExprV::Variable { name: fname }, st1, cur, (fuel - 1) as nat);
    assert(oc == EvalOut { st: st1, res: Ok::<Val, ErrM>(callable) });
    // The two literal arguments evaluate to their numbers.
    let args = seq![lit_num(x), lit_num(y)];
    let oa = spec_eval_args(args, st1, cur, (fuel - 1) as nat);
    assert(args.skip(1) =~= seq![lit_num(y)]);
    assert(args.skip(1).skip(1) =~= Seq::<ExprV>::empty());
    assert(spec_eval(lit_num(x), st1, cur, (fuel - 2) as nat) == EvalOut {
        st: st1,
        res: Ok::<Val, ErrM>(Val::Num(x)),
    });
    assert(spec_eval(lit_num(y), st1, cur, (fuel - 3) as nat) == EvalOut {
        st: st1,
        res: Ok::<Val, ErrM>(Val::Num(y)),
    });
    assert(spec_eval_args(args.skip(1).skip(1), st1, cur, (fuel - 3) as nat).res
        == Ok::<Seq<Val>, ErrM>(Seq::<Val>::empty()));
    assert(spec_eval_args(args.skip(1), st1, cur, (fuel - 2) as nat) == ArgsOut {
        st: st1,
        res: Ok::<Seq<Val>, ErrM>(seq![Val::Num(y)] + Seq::<Val>::empty()),
    });
    assert(oa.st == st1);
    assert(oa.res == Ok::<Seq<Val>, ErrM>(seq![Val::Num(x)] + (seq![Val::Num(y)] + Seq::<
        Val,
    >::empty())));
    let argvals = seq![Val::Num(x), Val::Num(y)];
    assert(seq![Val::Num(x)] + (seq![Val::Num(y)] + Seq::<Val>::empty()) =~= argvals);
    // The invocation binds the parameters in a fresh scope and runs the body.
    let oi = spec_call(callable, argvals, st1, (fuel - 1) as nat);
    let fresh = st1.envs.len() as int;
    let envs1 = st1.envs.push(EnvM { values: Map::empty(), enclosing: Some(cur as nat as int) });
    let envs2 = spec_bind_params(envs1, fresh, params, argvals);
    assert(params.skip(1) =~= seq![p2]);
    assert(params.skip(1).skip(1) =~= Seq::<Seq<char>>::empty());
    assert(argvals.skip(1) =~= seq![Val::Num(y)]);
    assert(argvals.skip(1).skip(1) =~= Seq::<Val>::empty());
    let bp1 = spec_define(envs1, fresh, p1, Val::Num(x));
    let bp2 = spec_define(bp1, fresh, p2, Val::Num(y));
    assert(spec_bind_params(bp2, fresh, params.skip(1).skip(1), argvals.skip(1).skip(1)) == bp2);
    assert(spec_bind_params(bp1, fresh, params.skip(1), argvals.skip(1)) == bp2);
    assert(envs2 == bp2);
    assert(envs2[fresh].values[p1] == Val::Num(x));
    assert(envs2[fresh].values[p2] == Val::Num(y));
    let st2 = StateM { envs: envs2, ..st1 };
    // The body: return p1 + p2.
    assert(spec_lookup(st2.envs, fresh, p1) == Some(Val::Num(x)));
    assert(spec_lookup(st2.envs, fresh, p2) == Some(Val::Num(y)));
    let addexpr = bin_expr(
        ExprV::Variable { name: p1 },
        BinaryOp::Plus,
        ExprV::Variable { name: p2 },
    );
    assert(spec_eval(ExprV::Variable { name: p1 }, st2, fresh, (fuel - 5) as nat) == EvalOut {
        st: st2,
        res: Ok::<Val, ErrM>(Val::Num(x)),
    });
    assert(spec_eval(ExprV::Variable { name: p2 }, st2, fresh, (fuel - 5) as nat) == EvalOut {
        st: st2,
        res: Ok::<Val, ErrM>(Val::Num(y)),
    });
    assert(spec_eval(addexpr, st2, fresh, (fuel - 4) as nat) == EvalOut {
        st: st2,
        res: Ok::<Val, ErrM>(Val::Num(x.wrapping_add(y))),
    });
    let oret = spec_exec_stmt(body[0], st2, fresh, (fuel - 3) as nat);
    assert(oret == ExecOut {
        st: st2,
        res: Ok::<CfM, ErrM>(CfM::Return(Val::Num(x.wrapping_add(y)))),
    });
    let ob = spec_exec_stmts(body, st2, fresh, (fuel - 2) as nat);
    assert(body.skip(1) =~= Seq::<StmtV>::empty());
    assert(ob.res == Ok::<CfM, ErrM>(CfM::Return(Val::Num(x.wrapping_add(y)))));
    assert(oi.res == Ok::<Val, ErrM>(Val::Num(x.wrapping_add(y))));
    let o2 = spec_eval(call, o1.st, cur, fuel);
    assert(o2.res == oi.res);
}

/// A read-only expression — one with no assignment and no call — never
/// changes the state.
pub open spec fn spec_read_only(e: ExprV) -> bool
    decreases e,
{
    match e {
        ExprV::Literal { value: _ } => true,
        ExprV::Grouping { expression } => spec_read_only(*expression),
        ExprV::Unary { operator: _, right } => spec_read_only(*right),
        ExprV::Binary { left, operator: _, right } => spec_read_only(*left) && spec_read_only(
            *right,
        ),
        ExprV::Logical { left, operator: _, right } => spec_read_only(*left) && spec_read_only(
            *right,
        ),
        ExprV::Variable { name: _ } => true,
        ExprV::Assign { name: _, value: _ } => false,
        ExprV::Call { callee: _, args: _ } => false,
    }
}

/// Evaluating a read-only expression leaves the state exactly as it was,
/// and therefore evaluating it twice against an unmodified environment
/// yields identical results both times.
pub proof fn lemma_read_only_idempotent(e: ExprV, st: StateM, cur: int, fuel: nat)
    requires
        spec_read_only(e),
    ensures
        spec_eval(e, st, cur, fuel).st == st,
        spec_eval(e, spec_eval(e, st, cur, fuel).st, cur, fuel) == spec_eval(e, st, cur, fuel),
    decreases fuel,
{
    if fuel == 0 {
    } else {
        match e {
            ExprV::Literal { value: _ } => {},
            ExprV::Grouping { expression } => {
                lemma_read_only_idempotent(*expression, st, cur, (fuel - 1) as nat);
            },
            ExprV::Unary { operator: _, right } => {
                lemma_read_only_idempotent(*right, st, cur, (fuel - 1) as nat);
            },
            ExprV::Binary { left, operator: _, right } => {
                lemma_read_only_idempotent(*left, st, cur, (fuel - 1) as nat);
                let o1 = spec_eval(*left, st, cur, (fuel - 1) as nat);
                if o1.res is Ok {
                    lemma_read_only_idempotent(*right, o1.st, cur, (fuel - 1) as nat);
                }
            },
            ExprV::Logical { left, operator: _, right } => {
                lemma_read_only_idempotent(*left, st, cur, (fuel - 1) as nat);
                let o1 = spec_eval(*left, st, cur, (fuel - 1) as nat);
                if o1.res is Ok {
                    lemma_read_only_idempotent(*right, o1.st, cur, (fuel - 1) as nat);
                }
            },
            ExprV::Variable { name: _ } => {},
            ExprV::Assign { .. } => {},
            ExprV::Call { .. } => {},
        }
    }
}

} // verus!
