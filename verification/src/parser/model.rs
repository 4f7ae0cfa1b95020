use vstd::prelude::*;
use vstd::string::*;
use crate::parser::api::{view_exprs, Expr, Expression, LofAst, Statement, Tac, Tactic, Union};

verus! {

/// Mathematical model of a [`LofAst`].
pub enum Ast {
    Stm(Stm),
    Exp(Expr),
}

/// Mathematical model of the proof of a theorem: a term or tactics.
pub enum ProofModel {
    Term(Expr),
    Tactics(Seq<Tac<Expr>>),
}

/// Mathematical model of a [`Statement`]: names are character sequences.
pub enum Stm {
    Comment,
    FileRoot(Seq<char>, Seq<Ast>),
    DirRoot(Seq<char>, Seq<Ast>),
    EmptyRoot(Seq<Ast>),
    Axiom(Seq<char>, Expr),
    Theorem(Seq<char>, Expr, ProofModel),
    Global(Seq<char>, Option<Expr>, Expr),
    Fun(Seq<char>, Seq<(Seq<char>, Expr)>, Expr, Expr, bool),
    Inductive(Seq<char>, Seq<(Seq<char>, Expr)>, Expr, Seq<(Seq<char>, Expr)>),
    Auto(Expr),
    Solve(Seq<Expr>),
    HClause(Expr, Seq<Expr>),
    Equivalence(Seq<char>, Expr, Expr, Expr, Expr, Expr, Expr, Expr, Option<Expr>, Seq<(Seq<char>, Expr)>, Seq<(Seq<char>, Expr)>),
    Transport(Seq<char>, Expr, Seq<char>, Seq<char>),
}

/// The model of named expressions.
pub open spec fn view_named(v: Seq<(String, Expression)>) -> Seq<(Seq<char>, Expr)> {
    Seq::new(v.len(), |i: int| (v[i].0@, v[i].1@))
}

/// The model of tactics over expressions.
pub open spec fn view_tactics(v: Seq<Tactic<Expression>>) -> Seq<Tac<Expr>> {
    Seq::new(v.len(), |i: int| v[i]@)
}

/// The model of a node.
pub open spec fn view_ast(a: LofAst) -> Ast
    decreases a,
{
    match a {
        LofAst::Stm(st) => Ast::Stm(view_statement(st)),
        LofAst::Exp(e) => Ast::Exp(e@),
    }
}

/// The model of a sequence of nodes.
pub open spec fn view_asts(v: Seq<LofAst>) -> Seq<Ast>
    decreases v,
{
    if v.len() == 0 {
        Seq::empty()
    } else {
        view_asts(v.subrange(0, v.len() - 1)).push(view_ast(v[v.len() - 1]))
    }
}

/// The model of a statement.
pub open spec fn view_statement(st: Statement) -> Stm
    decreases st,
{
    match st {
        Statement::Comment() => Stm::Comment,
        Statement::FileRoot(p, v) => Stm::FileRoot(p@, view_asts(v@)),
        Statement::DirRoot(p, v) => Stm::DirRoot(p@, view_asts(v@)),
        Statement::EmptyRoot(v) => Stm::EmptyRoot(view_asts(v@)),
        Statement::Axiom(x, f) => Stm::Axiom(x@, f@),
        Statement::Theorem(x, f, p) => Stm::Theorem(
            x@,
            f@,
            match p {
                Union::L(t) => ProofModel::Term(t@),
                Union::R(ts) => ProofModel::Tactics(view_tactics(ts@)),
            },
        ),
        Statement::Global(x, t, b) => Stm::Global(
            x@,
            match t {
                Some(tt) => Some(tt@),
                None => None,
            },
            b@,
        ),
        Statement::Fun(x, args, o, b, r) => Stm::Fun(x@, view_named(args@), o@, b@, r),
        Statement::Inductive(x, ps, a, cs) => Stm::Inductive(x@, view_named(ps@), a@, view_named(cs@)),
        Statement::Auto(f) => Stm::Auto(f@),
        Statement::Solve(gs) => Stm::Solve(view_exprs(gs@)),
        Statement::HClause(h, gs) => Stm::HClause(h@, view_exprs(gs@)),
        Statement::Equivalence(x, a, b, f, g, sec, ret, de, eta, dc, io) => Stm::Equivalence(
            x@,
            a@,
            b@,
            f@,
            g@,
            sec@,
            ret@,
            de@,
            match eta {
                Some(e) => Some(e@),
                None => None,
            },
            view_named(dc@),
            view_named(io@),
        ),
        Statement::Transport(x, t, o, e) => Stm::Transport(x@, t@, o@, e@),
    }
}

pub proof fn lemma_view_asts_push(v: Seq<LofAst>, a: LofAst)
    ensures
        view_asts(v.push(a)) == view_asts(v).push(view_ast(a)),
{
    assert(v.push(a).subrange(0, v.len() as int) =~= v);
}

pub proof fn lemma_view_asts_empty()
    ensures
        view_asts(Seq::<LofAst>::empty()) == Seq::<Ast>::empty(),
{
}

} // verus!
