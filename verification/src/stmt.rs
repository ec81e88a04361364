//! Statement nodes.
//!
//! A program is an ordered sequence of statements. `for` never appears here:
//! the parser desugars it into a block holding its initializer and a `while`
//! loop, so six statement forms cover the whole language.

use vstd::prelude::*;

use crate::ast::Expr;
use crate::ast::ExprV;
use crate::token::Token;
use crate::token::TokenV;

verus! {

#[derive(Debug, PartialEq)]
pub enum Stmt {
    Expression(Expression),
    Print(Print),
    Var(Var),
    Block(Block),
    If(If),
    While(While),
}

#[derive(Debug, PartialEq)]
pub struct Expression {
    pub expression: Expr,
}

#[derive(Debug, PartialEq)]
pub struct Print {
    pub expression: Expr,
}

#[derive(Debug, PartialEq)]
pub struct Var {
    pub name: Token,
    pub initializer: Expr,
}

#[derive(Debug, PartialEq)]
pub struct Block {
    pub statements: Vec<Stmt>,
}

#[derive(Debug, PartialEq)]
pub struct If {
    pub condition: Expr,
    pub then_branch: Box<Stmt>,
    pub else_branch: Option<Box<Stmt>>,
}

#[derive(Debug, PartialEq)]
pub struct While {
    pub condition: Expr,
    pub body: Box<Stmt>,
}

/// Mathematical model of a statement tree.
pub enum StmtV {
    Expression(ExprV),
    Print(ExprV),
    Var { name: TokenV, initializer: ExprV },
    Block(Seq<StmtV>),
    If { condition: ExprV, then_branch: Box<StmtV>, else_branch: Option<Box<StmtV>> },
    While { condition: ExprV, body: Box<StmtV> },
}

impl View for Stmt {
    type V = StmtV;

    open spec fn view(&self) -> StmtV
        decreases self,
    {
        match self {
            Stmt::Expression(e) => StmtV::Expression(e.expression@),
            Stmt::Print(p) => StmtV::Print(p.expression@),
            Stmt::Var(v) => StmtV::Var { name: v.name@, initializer: v.initializer@ },
            Stmt::Block(b) => StmtV::Block(view_stmts(b.statements@)),
            Stmt::If(i) => StmtV::If {
                condition: i.condition@,
                then_branch: Box::new((*i.then_branch)@),
                else_branch: match &i.else_branch {
                    Some(e) => Some(Box::new((**e)@)),
                    None => None,
                },
            },
            Stmt::While(w) => StmtV::While {
                condition: w.condition@,
                body: Box::new((*w.body)@),
            },
        }
    }
}

/// The model of a statement sequence, element by element.
pub open spec fn view_stmts(ss: Seq<Stmt>) -> Seq<StmtV>
    decreases ss,
{
    if ss.len() == 0 {
        Seq::empty()
    } else {
        seq![ss.first()@] + view_stmts(ss.drop_first())
    }
}

/// `view_stmts` indexes element by element.
pub proof fn lemma_view_stmts_index(ss: Seq<Stmt>, i: int)
    requires
        0 <= i < ss.len(),
    ensures
        view_stmts(ss).len() == ss.len(),
        view_stmts(ss)[i] == ss[i]@,
    decreases ss.len(),
{
    lemma_view_stmts_len(ss);
    lemma_view_stmts_len(ss.drop_first());
    assert(view_stmts(ss) == seq![ss.first()@] + view_stmts(ss.drop_first()));
    if i > 0 {
        lemma_view_stmts_index(ss.drop_first(), i - 1);
        assert(ss.drop_first()[i - 1] == ss[i]);
    }
}

/// `view_stmts` preserves length.
pub proof fn lemma_view_stmts_len(ss: Seq<Stmt>)
    ensures
        view_stmts(ss).len() == ss.len(),
    decreases ss.len(),
{
    if ss.len() > 0 {
        lemma_view_stmts_len(ss.drop_first());
        assert(view_stmts(ss) == seq![ss.first()@] + view_stmts(ss.drop_first()));
    }
}

/// Appending one statement extends the model by its view.
pub proof fn lemma_view_stmts_push(ss: Seq<Stmt>, s: Stmt)
    ensures
        view_stmts(ss.push(s)) == view_stmts(ss).push(s@),
    decreases ss.len(),
{
    lemma_view_stmts_len(ss);
    if ss.len() == 0 {
        assert(ss.push(s).first() == s);
        assert(ss.push(s).drop_first() =~= Seq::<Stmt>::empty());
        assert(view_stmts(ss.push(s)) == seq![ss.push(s).first()@] + view_stmts(
            ss.push(s).drop_first(),
        ));
        assert(view_stmts(Seq::<Stmt>::empty()) =~= Seq::<StmtV>::empty());
        assert(seq![s@] + Seq::<StmtV>::empty() =~= Seq::<StmtV>::empty().push(s@));
        assert(view_stmts(ss) =~= Seq::<StmtV>::empty());
        assert(view_stmts(ss.push(s)) =~= view_stmts(ss).push(s@));
    } else {
        assert(ss.push(s).first() == ss.first());
        assert(ss.push(s).drop_first() =~= ss.drop_first().push(s));
        lemma_view_stmts_push(ss.drop_first(), s);
        assert(view_stmts(ss.push(s)) == seq![ss.first()@] + view_stmts(ss.drop_first().push(s)));
        assert(seq![ss.first()@] + view_stmts(ss.drop_first()).push(s@) =~= (seq![ss.first()@]
            + view_stmts(ss.drop_first())).push(s@));
    }
}

} // verus!
