//! Statement nodes of the syntax tree, their mathematical abstraction, and
//! deep copies.
use vstd::prelude::*;
use crate::expr::Expr;
use crate::expr::ExprV;

verus! {

/// A statement node. `Block`, `IfElse` branches and `While` bodies open a
/// child scope when executed; `Break`, `Continue` and `Return` produce
/// control-flow signals.
#[derive(Debug, PartialEq)]
pub enum Stmt {
    Expression { expression: Expr },
    Print { expression: Expr },
    Var { name: String, initializer: Expr },
    Block { stmts: Vec<Stmt> },
    IfElse { condition: Expr, then_branch: Box<Stmt>, els: Option<Box<Stmt>> },
    While { condition: Expr, block: Box<Stmt> },
    Function { name: String, params: Vec<String>, body: Vec<Stmt> },
    Return { expr: Option<Expr> },
    Break,
    Continue,
}

/// The mathematical abstraction of a statement node: the same shape, with
/// strings as character sequences and lists as sequences.
pub ghost enum StmtV {
    Expression { expression: ExprV },
    Print { expression: ExprV },
    Var { name: Seq<char>, initializer: ExprV },
    Block { stmts: Seq<StmtV> },
    IfElse { condition: ExprV, then_branch: Box<StmtV>, els: Option<Box<StmtV>> },
    While { condition: ExprV, block: Box<StmtV> },
    Function { name: Seq<char>, params: Seq<Seq<char>>, body: Seq<StmtV> },
    Return { expr: Option<ExprV> },
    Break,
    Continue,
}

/// The abstraction of a statement list, element for element.
pub open spec fn spec_view_stmts(v: Seq<Stmt>) -> Seq<StmtV>
    decreases v,
{
    if v.len() == 0 {
        Seq::empty()
    } else {
        spec_view_stmts(v.drop_last()).push(v.last()@)
    }
}

impl View for Stmt {
    type V = StmtV;

    open spec fn view(&self) -> StmtV
        decreases self,
    {
        match self {
            Stmt::Expression { expression } => StmtV::Expression { expression: expression@ },
            Stmt::Print { expression } => StmtV::Print { expression: expression@ },
            Stmt::Var { name, initializer } => StmtV::Var {
                name: name@,
                initializer: initializer@,
            },
            Stmt::Block { stmts } => StmtV::Block { stmts: spec_view_stmts(stmts@) },
            Stmt::IfElse { condition, then_branch, els } => StmtV::IfElse {
                condition: condition@,
                then_branch: Box::new((**then_branch)@),
                els: match els {
                    Some(e) => Some(Box::new((**e)@)),
                    None => None,
                },
            },
            Stmt::While { condition, block } => StmtV::While {
                condition: condition@,
                block: Box::new((**block)@),
            },
            Stmt::Function { name, params, body } => StmtV::Function {
                name: name@,
                params: crate::expr::spec_view_strings(params@),
                body: spec_view_stmts(body@),
            },
            Stmt::Return { expr } => StmtV::Return {
                expr: match expr {
                    Some(e) => Some(e@),
                    None => None,
                },
            },
            Stmt::Break => StmtV::Break,
            Stmt::Continue => StmtV::Continue,
        }
    }
}

pub proof fn lemma_view_stmts_len(v: Seq<Stmt>)
    ensures
        spec_view_stmts(v).len() == v.len(),
    decreases v,
{
    if v.len() == 0 {
        assert(spec_view_stmts(v) == Seq::<StmtV>::empty());
    } else {
        assert(spec_view_stmts(v) == spec_view_stmts(v.drop_last()).push(v.last()@));
        lemma_view_stmts_len(v.drop_last());
    }
}

pub proof fn lemma_view_stmts_index(v: Seq<Stmt>, i: int)
    requires
        0 <= i < v.len(),
    ensures
        spec_view_stmts(v).len() == v.len(),
        spec_view_stmts(v)[i] == v[i]@,
    decreases v,
{
    lemma_view_stmts_len(v);
    if v.len() > 0 {
        assert(spec_view_stmts(v) == spec_view_stmts(v.drop_last()).push(v.last()@));
        lemma_view_stmts_len(v.drop_last());
        if i < v.len() - 1 {
            lemma_view_stmts_index(v.drop_last(), i);
            assert(v.drop_last()[i] == v[i]);
        } else {
            assert(v.last() == v[i]);
        }
    }
}

/// Two statement lists whose elements abstract equally abstract equally.
pub proof fn lemma_view_stmts_congruence(a: Seq<Stmt>, b: Seq<Stmt>)
    requires
        a.len() == b.len(),
        forall|i: int| 0 <= i < a.len() ==> a[i]@ == b[i]@,
    ensures
        spec_view_stmts(a) == spec_view_stmts(b),
{
    lemma_view_stmts_len(a);
    lemma_view_stmts_len(b);
    assert forall|i: int| 0 <= i < a.len() implies spec_view_stmts(a)[i] == spec_view_stmts(b)[i]
    by {
        lemma_view_stmts_index(a, i);
        lemma_view_stmts_index(b, i);
    }
    assert(spec_view_stmts(a) =~= spec_view_stmts(b));
}

impl Stmt {
    /// A statement abstracts to a block exactly when it is one.
    pub proof fn lemma_view_is_block(&self)
        ensures
            (self@ is Block) == (*self is Block),
    {
        match self {
            Stmt::Expression { .. } => {},
            Stmt::Print { .. } => {},
            Stmt::Var { .. } => {},
            Stmt::Block { .. } => {},
            Stmt::IfElse { .. } => {},
            Stmt::While { .. } => {},
            Stmt::Function { .. } => {},
            Stmt::Return { .. } => {},
            Stmt::Break => {},
            Stmt::Continue => {},
        }
    }

    /// A deep copy with the same abstraction as the original.
    pub fn duplicate(&self) -> (r: Stmt)
        ensures
            r@ == self@,
        decreases self,
    {
        match self {
            Stmt::Expression { expression } => Stmt::Expression { expression: expression.duplicate() },
            Stmt::Print { expression } => Stmt::Print { expression: expression.duplicate() },
            Stmt::Var { name, initializer } => Stmt::Var {
                name: name.clone(),
                initializer: initializer.duplicate(),
            },
            Stmt::Block { stmts } => Stmt::Block { stmts: dup_stmts(stmts) },
            Stmt::IfElse { condition, then_branch, els } => Stmt::IfElse {
                condition: condition.duplicate(),
                then_branch: Box::new(then_branch.duplicate()),
                els: match els {
                    Some(e) => Some(Box::new(e.duplicate())),
                    None => None,
                },
            },
            Stmt::While { condition, block } => Stmt::While {
                condition: condition.duplicate(),
                block: Box::new(block.duplicate()),
            },
            Stmt::Function { name, params, body } => Stmt::Function {
                name: name.clone(),
                params: crate::expr::dup_strings(params),
                body: dup_stmts(body),
            },
            Stmt::Return { expr } => Stmt::Return {
                expr: match expr {
                    Some(e) => Some(e.duplicate()),
                    None => None,
                },
            },
            Stmt::Break => Stmt::Break,
            Stmt::Continue => Stmt::Continue,
        }
    }
}

/// A deep copy of a statement list whose abstraction is unchanged.
pub fn dup_stmts(v: &Vec<Stmt>) -> (r: Vec<Stmt>)
    ensures
        spec_view_stmts(r@) == spec_view_stmts(v@),
        r@.len() == v@.len(),
    decreases v,
{
    let mut r: Vec<Stmt> = Vec::new();
    let mut i: usize = 0;
    while i < v.len()
        invariant
            i <= v@.len(),
            r@.len() == i,
            forall|j: int| 0 <= j < i ==> r@[j]@ == v@[j]@,
        decreases v@.len() - i,
    {
        r.push(v[i].duplicate());
        i = i + 1;
    }
    proof {
        lemma_view_stmts_congruence(r@, v@);
    }
    r
}

} // verus!
