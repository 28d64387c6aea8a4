//! The textual form of an expression tree, in the parenthesised prefix
//! notation the front end prints when echoing a parse.
use vstd::prelude::*;
use vstd::string::StringExecFns;
use crate::expr::Expr;
use crate::expr::ExprV;
use crate::expr::UnaryOp;
use crate::expr::BinaryOp;
use crate::expr::LogicalOp;
use crate::expr::spec_view_exprs;
use crate::expr::lemma_view_exprs_len;
use crate::expr::lemma_view_exprs_index;
use crate::strings::spec_display;

verus! {

pub open spec fn spec_unary_lexeme(op: UnaryOp) -> Seq<char> {
    match op {
        UnaryOp::Minus => "-"@,
        UnaryOp::Bang => "!"@,
    }
}

pub open spec fn spec_binary_lexeme(op: BinaryOp) -> Seq<char> {
    match op {
        BinaryOp::Plus => "+"@,
        BinaryOp::Minus => "-"@,
        BinaryOp::Star => "*"@,
        BinaryOp::Slash => "/"@,
        BinaryOp::Percent => "%"@,
        BinaryOp::Greater => ">"@,
        BinaryOp::GreaterEqual => ">="@,
        BinaryOp::Less => "<"@,
        BinaryOp::LessEqual => "<="@,
        BinaryOp::EqualEqual => "=="@,
        BinaryOp::BangEqual => "!="@,
    }
}

pub open spec fn spec_logical_lexeme(op: LogicalOp) -> Seq<char> {
    match op {
        LogicalOp::And => "and"@,
        LogicalOp::Or => "or"@,
    }
}

/// The printed form of an expression: literals as their display form,
/// operators in parenthesised prefix notation, groupings and variables
/// labelled, assignments infix.
pub open spec fn spec_print_expr(e: ExprV) -> Seq<char>
    decreases e,
{
    match e {
        ExprV::Literal { value } => spec_display(value),
        ExprV::Grouping { expression } => "(group "@ + spec_print_expr(*expression) + ")"@,
        ExprV::Unary { operator, right } => "("@ + spec_unary_lexeme(operator) + " "@
            + spec_print_expr(*right) + ")"@,
        ExprV::Binary { left, operator, right } => "("@ + spec_binary_lexeme(operator) + " "@
            + spec_print_expr(*left) + " "@ + spec_print_expr(*right) + ")"@,
        ExprV::Logical { left, operator, right } => "("@ + spec_logical_lexeme(operator) + " "@
            + spec_print_expr(*left) + " "@ + spec_print_expr(*right) + ")"@,
        ExprV::Variable { name } => "(var "@ + name + ")"@,
        ExprV::Assign { name, value } => name + " = "@ + spec_print_expr(*value),
        ExprV::Call { callee, args } => "(call "@ + spec_print_expr(*callee) + spec_print_args(
            args,
        ) + ")"@,
    }
}

/// The printed forms of an argument list, each preceded by a space.
pub open spec fn spec_print_args(args: Seq<ExprV>) -> Seq<char>
    decreases args,
{
    if args.len() == 0 {
        Seq::empty()
    } else {
        spec_print_args(args.drop_last()) + " "@ + spec_print_expr(args.last())
    }
}

fn unary_lexeme(op: UnaryOp) -> (r: &'static str)
    ensures
        r@ == spec_unary_lexeme(op),
{
    match op {
        UnaryOp::Minus => "-",
        UnaryOp::Bang => "!",
    }
}

fn binary_lexeme(op: BinaryOp) -> (r: &'static str)
    ensures
        r@ == spec_binary_lexeme(op),
{
    match op {
        BinaryOp::Plus => "+",
        BinaryOp::Minus => "-",
        BinaryOp::Star => "*",
        BinaryOp::Slash => "/",
        BinaryOp::Percent => "%",
        BinaryOp::Greater => ">",
        BinaryOp::GreaterEqual => ">=",
        BinaryOp::Less => "<",
        BinaryOp::LessEqual => "<=",
        BinaryOp::EqualEqual => "==",
        BinaryOp::BangEqual => "!=",
    }
}

fn logical_lexeme(op: LogicalOp) -> (r: &'static str)
    ensures
        r@ == spec_logical_lexeme(op),
{
    match op {
        LogicalOp::And => "and",
        LogicalOp::Or => "or",
    }
}

/// Appends the printed form of `e` to `s`.
fn push_expr(s: &mut String, e: &Expr)
    ensures
        final(s)@ == old(s)@ + spec_print_expr(e@),
    decreases e,
{
    match e {
        Expr::Literal { value } => {
            let d = value.to_display_string();
            s.append(d.as_str());
        },
        Expr::Grouping { expression } => {
            s.append("(group ");
            push_expr(s, expression);
            s.append(")");
            proof {
                assert(final(s)@ =~= old(s)@ + spec_print_expr(e@));
            }
        },
        Expr::Unary { operator, right } => {
            s.append("(");
            s.append(unary_lexeme(*operator));
            s.append(" ");
            push_expr(s, right);
            s.append(")");
            proof {
                assert(final(s)@ =~= old(s)@ + spec_print_expr(e@));
            }
        },
        Expr::Binary { left, operator, right } => {
            s.append("(");
            s.append(binary_lexeme(*operator));
            s.append(" ");
            push_expr(s, left);
            s.append(" ");
            push_expr(s, right);
            s.append(")");
            proof {
                assert(final(s)@ =~= old(s)@ + spec_print_expr(e@));
            }
        },
        Expr::Logical { left, operator, right } => {
            s.append("(");
            s.append(logical_lexeme(*operator));
            s.append(" ");
            push_expr(s, left);
            s.append(" ");
            push_expr(s, right);
            s.append(")");
            proof {
                assert(final(s)@ =~= old(s)@ + spec_print_expr(e@));
            }
        },
        Expr::Variable { name } => {
            s.append("(var ");
            s.append(name.as_str());
            s.append(")");
            proof {
                assert(final(s)@ =~= old(s)@ + spec_print_expr(e@));
            }
        },
        Expr::Assign { name, value } => {
            s.append(name.as_str());
            s.append(" = ");
            push_expr(s, value);
            proof {
                assert(final(s)@ =~= old(s)@ + spec_print_expr(e@));
            }
        },
        Expr::Call { callee, args } => {
            s.append("(call ");
            push_expr(s, callee);
            push_args(s, args);
            s.append(")");
            proof {
                assert(final(s)@ =~= old(s)@ + spec_print_expr(e@));
            }
        },
    }
}

/// Appends the printed forms of an argument list to `s`.
fn push_args(s: &mut String, args: &Vec<Expr>)
    ensures
        final(s)@ == old(s)@ + spec_print_args(spec_view_exprs(args@)),
    decreases args,
{
    let mut i: usize = 0;
    proof {
        assert(args@.subrange(0, 0) =~= Seq::<Expr>::empty());
        assert(spec_view_exprs(args@.subrange(0, 0)) =~= Seq::<ExprV>::empty());
        assert(s@ =~= old(s)@ + spec_print_args(spec_view_exprs(args@.subrange(0, 0))));
    }
    while i < args.len()
        invariant
            i <= args@.len(),
            s@ == old(s)@ + spec_print_args(spec_view_exprs(args@.subrange(0, i as int))),
        decreases args@.len() - i,
    {
        s.append(" ");
        push_expr(s, &args[i]);
        proof {
            let pre = args@.subrange(0, i as int);
            let post = args@.subrange(0, i as int + 1);
            assert(post.drop_last() =~= pre);
            assert(post.last() == args@[i as int]);
            lemma_view_exprs_len(post);
            lemma_view_exprs_len(pre);
            assert(spec_view_exprs(post).drop_last() =~= spec_view_exprs(pre)) by {
                assert forall|j: int| 0 <= j < pre.len() implies spec_view_exprs(
                    post,
                ).drop_last()[j] == spec_view_exprs(pre)[j] by {
                    lemma_view_exprs_index(post, j);
                    lemma_view_exprs_index(pre, j);
                }
            }
            lemma_view_exprs_index(post, i as int);
            assert(s@ =~= old(s)@ + spec_print_args(spec_view_exprs(post)));
        }
        i = i + 1;
    }
    proof {
        assert(args@.subrange(0, i as int) =~= args@);
    }
}

impl Expr {
    /// The printed form of this expression.
    pub fn to_string(&self) -> (r: String)
        ensures
            r@ == spec_print_expr(self@),
    {
        let mut s = String::new();
        push_expr(&mut s, self);
        proof {
            assert(s@ =~= spec_print_expr(self@));
        }
        s
    }
}

} // verus!
