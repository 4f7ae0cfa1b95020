use vstd::prelude::*;
use crate::cic::elaboration::{
    cic_expr, elaborate_expression_rec, metas, spec_elab,
};
use crate::parser::model::view_statement;
use crate::parser::render::{render_ast, render_statement, spec_render_stm};
use crate::cic::model::{fits_substitution, spec_rename, spec_subst, spec_substitute_meta};
use crate::cic::assoc::{spec_insert_all, spec_without};
use crate::cic::environment::{typed_defs, view_axioms, view_default_defs, Environment};
use crate::cic::term::{copy_term, view_named, view_tactics, CicStm, CicTerm, Stm, Term};
use crate::cic::unification::{cic_so_unification, reports, spec_unify};
use crate::cic::utils::{substitute, substitute_meta};
use crate::commons::unification::Substitution;
use crate::commons::utils::ElabStore;
use crate::text::{parse_i32, spec_parse_i32};
use crate::error::LofError;
use crate::parser::api::{Expr, Expression, LofAst, Statement, Tac, Tactic, Union};
use crate::runtime::program::{Node, ProgramNode, Schedule};

verus! {

//########################### MODEL

/// The model of a list of named expressions.
pub open spec fn view_typed(v: Seq<(String, Expression)>) -> Seq<(Seq<char>, Expr)> {
    v.map_values(|p: (String, Expression)| (p.0@, p.1@))
}

/// The names of a list of named expressions.
pub open spec fn typed_names(args: Seq<(Seq<char>, Expr)>) -> Seq<Seq<char>> {
    args.map_values(|p: (Seq<char>, Expr)| p.0)
}

/// Number of metavariables of a list of named expressions.
pub open spec fn metas_typed(args: Seq<(Seq<char>, Expr)>) -> nat
    decreases args.len(),
{
    if args.len() == 0 {
        0
    } else {
        metas_typed(args.drop_last()) + metas(args.last().1)
    }
}

/// Every expression of a list of named expressions belongs to the calculus.
pub open spec fn cic_typed(args: Seq<(Seq<char>, Expr)>) -> bool {
    forall|i: int| 0 <= i < args.len() ==> cic_expr(#[trigger] args[i].1)
}

/// A telescope: each type is elaborated under the names bound before it.
pub open spec fn spec_elab_telescope(args: Seq<(Seq<char>, Expr)>, c: int) -> Seq<(Seq<char>, Term)>
    decreases args.len(),
{
    if args.len() == 0 {
        Seq::empty()
    } else {
        let init = args.drop_last();
        spec_elab_telescope(init, c).push(
            (args.last().0, spec_elab(args.last().1, typed_names(init), c + metas_typed(init))),
        )
    }
}

/// A list of named expressions all elaborated under `store`.
pub open spec fn spec_elab_named(items: Seq<(Seq<char>, Expr)>, store: Seq<Seq<char>>, c: int) -> Seq<(Seq<char>, Term)>
    decreases items.len(),
{
    if items.len() == 0 {
        Seq::empty()
    } else {
        let init = items.drop_last();
        spec_elab_named(init, store, c).push((items.last().0, spec_elab(items.last().1, store, c + metas_typed(init))))
    }
}

/// Number of metavariables of a tactic.
pub open spec fn metas_tactic(t: Tac<Expr>) -> nat {
    match t {
        Tac::Intro(_, e) => metas(e),
        Tac::Exact(e) => metas(e),
        Tac::Apply(e) => metas(e),
        _ => 0,
    }
}

/// The expression of a tactic, when it has one, belongs to the calculus.
pub open spec fn cic_tactic(t: Tac<Expr>) -> bool {
    match t {
        Tac::Intro(_, e) => cic_expr(e),
        Tac::Exact(e) => cic_expr(e),
        Tac::Apply(e) => cic_expr(e),
        _ => true,
    }
}

/// Number of metavariables of a list of tactics.
pub open spec fn metas_tactics(ts: Seq<Tac<Expr>>) -> nat
    decreases ts.len(),
{
    if ts.len() == 0 {
        0
    } else {
        metas_tactics(ts.drop_last()) + metas_tactic(ts.last())
    }
}

/// Elaboration of a tactic, its metavariables numbered from `c`.
pub open spec fn spec_elab_tactic(t: Tac<Expr>, c: int) -> Tac<Term> {
    match t {
        Tac::Begin => Tac::Begin,
        Tac::Qed => Tac::Qed,
        Tac::Intro(n, e) => Tac::Intro(n, spec_elab(e, Seq::empty(), c)),
        Tac::Exact(e) => Tac::Exact(spec_elab(e, Seq::empty(), c)),
        Tac::Apply(e) => Tac::Apply(spec_elab(e, Seq::empty(), c)),
        Tac::Induction(n) => Tac::Induction(n),
    }
}

/// Elaboration of a list of tactics, in order.
pub open spec fn spec_elab_tactics(ts: Seq<Tac<Expr>>, c: int) -> Seq<Tac<Term>>
    decreases ts.len(),
{
    if ts.len() == 0 {
        Seq::empty()
    } else {
        let init = ts.drop_last();
        spec_elab_tactics(init, c).push(spec_elab_tactic(ts.last(), c + metas_tactics(init)))
    }
}

/// The model of a list of tactics over expressions.
pub open spec fn view_expr_tactics(ts: Seq<Tactic<Expression>>) -> Seq<Tac<Expr>> {
    ts.map_values(|t: Tactic<Expression>| t@)
}

/// The number of metavariables of a statement that is not a root: those of
/// all its parts.
pub open spec fn metas_stm(s: Statement) -> int {
    match s {
        Statement::Axiom(_, f) => metas(f@) as int,
        Statement::Global(_, ty, body) => ((match ty {
            Some(t) => metas(t@),
            None => 0,
        }) + metas(body@)) as int,
        Statement::Fun(_, args, out, body, _) => (metas_typed(view_typed(args@)) + metas(out@) + metas(body@)) as int,
        Statement::Inductive(_, params, ariety, ctors) => (metas_typed(view_typed(params@)) + metas(ariety@)
            + metas_typed(view_typed(ctors@))) as int,
        Statement::Theorem(_, f, pf) => (metas(f@) + match pf {
            Union::L(p) => metas(p@),
            Union::R(ts) => metas_tactics(view_expr_tactics(ts@)),
        }) as int,
        _ => 0,
    }
}

/// The number of metavariables of a statement, roots included.
pub open spec fn metas_statement(s: Statement) -> int
    decreases s, 1int,
{
    match s {
        Statement::FileRoot(_, asts) => metas_asts(asts@),
        Statement::EmptyRoot(asts) => metas_asts(asts@),
        Statement::DirRoot(_, asts) => metas_asts(asts@),
        _ => metas_stm(s),
    }
}

/// The number of metavariables of the nodes `asts`.
pub open spec fn metas_asts(asts: Seq<LofAst>) -> int
    decreases asts, 0int,
{
    if asts.len() == 0 {
        0
    } else {
        metas_asts(asts.subrange(0, asts.len() - 1)) + match asts[asts.len() - 1] {
            LofAst::Stm(s) => metas_statement(s),
            LofAst::Exp(e) => metas(e@) as int,
        }
    }
}

/// Elaboration of a single statement that is not a root; metavariables are
/// numbered from `c` on, in the order of the statement's parts.
pub open spec fn spec_elab_stm(s: Statement, c: int) -> Option<Stm> {
    match s {
        Statement::Axiom(n, f) => Some(Stm::Axiom(n@, spec_elab(f@, Seq::empty(), c))),
        Statement::Global(n, ty, body) => Some(Stm::Global(
            n@,
            match ty {
                Some(t) => Some(spec_elab(t@, Seq::empty(), c)),
                None => None,
            },
            spec_elab(body@, Seq::empty(), c + match ty {
                Some(t) => metas(t@) as int,
                None => 0,
            }),
        )),
        Statement::Fun(n, args, out, body, is_rec) => {
            let a = view_typed(args@);
            Some(Stm::Fun(
                n@,
                spec_elab_telescope(a, c),
                spec_elab(out@, typed_names(a), c + metas_typed(a)),
                spec_elab(body@, typed_names(a), c + metas_typed(a) + metas(out@)),
                is_rec,
            ))
        },
        Statement::Inductive(n, params, ariety, ctors) => {
            let p = view_typed(params@);
            Some(Stm::InductiveDef(
                n@,
                spec_elab_telescope(p, c),
                spec_elab(ariety@, typed_names(p), c + metas_typed(p)),
                spec_elab_named(view_typed(ctors@), typed_names(p), c + metas_typed(p) + metas(ariety@)),
            ))
        },
        Statement::Theorem(n, f, pf) => Some(Stm::Theorem(
            n@,
            spec_elab(f@, Seq::empty(), c),
            match pf {
                Union::L(p) => Union::L(spec_elab(p@, Seq::empty(), c + metas(f@))),
                Union::R(ts) => Union::R(spec_elab_tactics(view_expr_tactics(ts@), c + metas(f@))),
            },
        )),
        _ => None,
    }
}

/// Every expression of a non-root statement belongs to the calculus.
pub open spec fn stm_parts_elaborable(s: Statement) -> bool {
    match s {
        Statement::Axiom(_, f) => cic_expr(f@),
        Statement::Global(_, ty, body) => {
            &&& match ty {
                Some(t) => cic_expr(t@),
                None => true,
            }
            &&& cic_expr(body@)
        },
        Statement::Fun(_, args, out, body, _) => {
            &&& cic_typed(view_typed(args@))
            &&& cic_expr(out@)
            &&& cic_expr(body@)
        },
        Statement::Inductive(_, params, ariety, ctors) => {
            &&& cic_typed(view_typed(params@))
            &&& cic_expr(ariety@)
            &&& cic_typed(view_typed(ctors@))
        },
        Statement::Theorem(_, f, pf) => {
            &&& cic_expr(f@)
            &&& match pf {
                Union::L(p) => cic_expr(p@),
                Union::R(ts) => forall|i: int| 0 <= i < ts@.len() ==> cic_tactic(#[trigger] ts@[i]@),
            }
        },
        _ => true,
    }
}

/// Elaboration of a statement into program nodes, its metavariables numbered
/// from `c` on; `None` when it fails.
pub open spec fn spec_elab_statement(s: Statement, c: int) -> Option<Seq<Node>>
    decreases s, 1int,
{
    match s {
        Statement::Comment() => Some(Seq::empty()),
        Statement::FileRoot(_, asts) => spec_elab_ast_vector(asts@, c),
        Statement::EmptyRoot(asts) => spec_elab_ast_vector(asts@, c),
        Statement::DirRoot(_, asts) => spec_elab_dir(asts@, c),
        _ => match spec_elab_stm(s, c) {
            Some(stm) => Some(seq![Node::OfStm(stm)]),
            None => None,
        },
    }
}

/// Elaboration of the nodes of a file, the metavariables numbered from `c`
/// on across the nodes in order; `None` when any of them fails.
pub open spec fn spec_elab_ast_vector(asts: Seq<LofAst>, c: int) -> Option<Seq<Node>>
    decreases asts, 0int,
{
    if asts.len() == 0 {
        Some(Seq::empty())
    } else {
        let init = asts.subrange(0, asts.len() - 1);
        let k = c + metas_asts(init);
        let last = match asts[asts.len() - 1] {
            LofAst::Stm(s) => spec_elab_statement(s, k),
            LofAst::Exp(e) => Some(seq![Node::OfExp(spec_elab(e@, Seq::empty(), k))]),
        };
        match (spec_elab_ast_vector(init, c), last) {
            (Some(a), Some(b)) => Some(a + b),
            _ => None,
        }
    }
}

/// Elaboration of the files of a directory, the metavariables numbered from
/// `c` on across the files in order; `None` at the first failure.
pub open spec fn spec_elab_dir(asts: Seq<LofAst>, c: int) -> Option<Seq<Node>>
    decreases asts, 0int,
{
    if asts.len() == 0 {
        Some(Seq::empty())
    } else {
        let init = asts.subrange(0, asts.len() - 1);
        match spec_elab_dir(init, c) {
            Some(a) => match asts[asts.len() - 1] {
                LofAst::Stm(Statement::FileRoot(_, v)) => match spec_elab_ast_vector(v@, c + metas_asts(init)) {
                    Some(b) => Some(a + b),
                    None => None,
                },
                _ => None,
            },
            None => None,
        }
    }
}

/// Every statement and expression reached by elaborating `s` belongs to the calculus.
pub open spec fn stm_elaborable(s: Statement) -> bool
    decreases s, 1int,
{
    match s {
        Statement::FileRoot(_, asts) => asts_elaborable(asts@),
        Statement::EmptyRoot(asts) => asts_elaborable(asts@),
        Statement::DirRoot(_, asts) => asts_elaborable(asts@),
        _ => stm_parts_elaborable(s),
    }
}

/// Every node of a file belongs to the calculus.
pub open spec fn asts_elaborable(asts: Seq<LofAst>) -> bool
    decreases asts, 0int,
{
    if asts.len() == 0 {
        true
    } else {
        &&& asts_elaborable(asts.subrange(0, asts.len() - 1))
        &&& match asts[asts.len() - 1] {
            LofAst::Stm(s) => stm_elaborable(s),
            LofAst::Exp(e) => cic_expr(e@),
        }
    }
}

/// Metavariable counts are never negative.
pub proof fn lemma_metas_nonneg(s: Statement)
    ensures
        metas_statement(s) >= 0,
        metas_stm(s) >= 0,
    decreases s, 1int,
{
    match s {
        Statement::FileRoot(_, asts) => lemma_metas_asts_nonneg(asts@),
        Statement::EmptyRoot(asts) => lemma_metas_asts_nonneg(asts@),
        Statement::DirRoot(_, asts) => lemma_metas_asts_nonneg(asts@),
        _ => {},
    }
}

/// Metavariable counts of nodes are never negative.
pub proof fn lemma_metas_asts_nonneg(asts: Seq<LofAst>)
    ensures
        metas_asts(asts) >= 0,
    decreases asts, 0int,
{
    if asts.len() > 0 {
        lemma_metas_asts_nonneg(asts.subrange(0, asts.len() - 1));
        match asts[asts.len() - 1] {
            LofAst::Stm(s) => {
                assert(decreases_to!(asts => asts[asts.len() - 1]));
                lemma_metas_nonneg(s);
            },
            LofAst::Exp(_) => {},
        }
    }
}

/// The metavariables of a prefix of nodes are at most those of all of them.
pub proof fn lemma_metas_asts_prefix(asts: Seq<LofAst>, i: int)
    requires
        0 <= i <= asts.len(),
    ensures
        metas_asts(asts.subrange(0, i)) <= metas_asts(asts),
    decreases asts.len() - i,
{
    if i < asts.len() {
        let init = asts.subrange(0, asts.len() - 1);
        lemma_metas_asts_prefix(init, i);
        assert(init.subrange(0, i) =~= asts.subrange(0, i));
        match asts[asts.len() - 1] {
            LofAst::Stm(s) => lemma_metas_nonneg(s),
            LofAst::Exp(_) => {},
        }
    } else {
        assert(asts.subrange(0, i) =~= asts);
    }
}

//########################### STATEMENTS ELABORATION

/// Elaborates the typed variables of a telescope, each under the names bound
/// before it; returns them with the store of all their names.
fn map_typed_variables(variables: &Vec<(String, Expression)>, next_meta: &mut i32) -> (r: (Vec<(String, CicTerm)>, ElabStore))
    requires
        cic_typed(view_typed(variables@)),
        *old(next_meta) + metas_typed(view_typed(variables@)) <= i32::MAX,
    ensures
        view_named(r.0@) == spec_elab_telescope(view_typed(variables@), *old(next_meta) as int),
        r.1@ == typed_names(view_typed(variables@)),
        *final(next_meta) == *old(next_meta) + metas_typed(view_typed(variables@)),
{
    let ghost c0 = *next_meta as int;
    let ghost a = view_typed(variables@);
    let mut store = ElabStore::empty();
    let mut elaborated: Vec<(String, CicTerm)> = Vec::new();
    let mut i: usize = 0;
    proof {
        assert(typed_names(a.subrange(0, 0)) =~= store@);
        assert(view_named(elaborated@) =~= spec_elab_telescope(a.subrange(0, 0), c0));
    }
    while i < variables.len()
        invariant
            a == view_typed(variables@),
            cic_typed(a),
            c0 + metas_typed(a) <= i32::MAX,
            i <= variables@.len(),
            store@ == typed_names(a.subrange(0, i as int)),
            *next_meta == c0 + metas_typed(a.subrange(0, i as int)),
            view_named(elaborated@) == spec_elab_telescope(a.subrange(0, i as int), c0),
        decreases variables@.len() - i,
    {
        let ghost pre = a.subrange(0, i + 1);
        proof {
            assert(pre.drop_last() =~= a.subrange(0, i as int));
            assert(pre.last() == a[i as int]);
            assert(cic_expr(a[i as int].1));
            lemma_metas_typed_mono(a, i + 1);
        }
        let arg_type = elaborate_expression_rec(&variables[i].1, &store, next_meta);
        let name = variables[i].0.clone();
        store = store.push_name(variables[i].0.as_str());
        let ghost before = elaborated@;
        elaborated.push((name, arg_type));
        proof {
            assert(typed_names(pre) =~= typed_names(a.subrange(0, i as int)).push(a[i as int].0));
            assert(view_named(elaborated@) =~= view_named(before).push((name@, arg_type@)));
        }
        i = i + 1;
    }
    proof {
        assert(a.subrange(0, variables@.len() as int) =~= a);
    }
    (elaborated, store)
}

/// The metavariable count of a prefix of named expressions is at most that of the whole.
proof fn lemma_metas_typed_mono(a: Seq<(Seq<char>, Expr)>, i: int)
    requires
        0 <= i <= a.len(),
    ensures
        metas_typed(a.subrange(0, i)) <= metas_typed(a),
    decreases a.len() - i,
{
    if i == a.len() {
        assert(a.subrange(0, i) =~= a);
    } else {
        lemma_metas_typed_mono(a.drop_last(), i);
        assert(a.drop_last().subrange(0, i) =~= a.subrange(0, i));
    }
}

/// The metavariable count of a prefix of tactics is at most that of the whole.
proof fn lemma_metas_tactics_mono(ts: Seq<Tac<Expr>>, i: int)
    requires
        0 <= i <= ts.len(),
    ensures
        metas_tactics(ts.subrange(0, i)) <= metas_tactics(ts),
    decreases ts.len() - i,
{
    if i == ts.len() {
        assert(ts.subrange(0, i) =~= ts);
    } else {
        lemma_metas_tactics_mono(ts.drop_last(), i);
        assert(ts.drop_last().subrange(0, i) =~= ts.subrange(0, i));
    }
}

/// Elaborates each named expression of `items` under `store`.
fn elaborate_named(items: &Vec<(String, Expression)>, store: &ElabStore, next_meta: &mut i32) -> (r: Vec<(String, CicTerm)>)
    requires
        cic_typed(view_typed(items@)),
        *old(next_meta) + metas_typed(view_typed(items@)) <= i32::MAX,
    ensures
        view_named(r@) == spec_elab_named(view_typed(items@), store@, *old(next_meta) as int),
        *final(next_meta) == *old(next_meta) + metas_typed(view_typed(items@)),
{
    let ghost c0 = *next_meta as int;
    let ghost a = view_typed(items@);
    let mut elaborated: Vec<(String, CicTerm)> = Vec::new();
    let mut i: usize = 0;
    proof {
        assert(view_named(elaborated@) =~= spec_elab_named(a.subrange(0, 0), store@, c0));
    }
    while i < items.len()
        invariant
            a == view_typed(items@),
            cic_typed(a),
            c0 + metas_typed(a) <= i32::MAX,
            i <= items@.len(),
            *next_meta == c0 + metas_typed(a.subrange(0, i as int)),
            view_named(elaborated@) == spec_elab_named(a.subrange(0, i as int), store@, c0),
        decreases items@.len() - i,
    {
        let ghost pre = a.subrange(0, i + 1);
        proof {
            assert(pre.drop_last() =~= a.subrange(0, i as int));
            assert(pre.last() == a[i as int]);
            assert(cic_expr(a[i as int].1));
            lemma_metas_typed_mono(a, i + 1);
        }
        let term = elaborate_expression_rec(&items[i].1, store, next_meta);
        let name = items[i].0.clone();
        let ghost before = elaborated@;
        elaborated.push((name, term));
        proof {
            assert(view_named(elaborated@) =~= view_named(before).push((name@, term@)));
        }
        i = i + 1;
    }
    proof {
        assert(a.subrange(0, items@.len() as int) =~= a);
    }
    elaborated
}

/// Elaborates a tactic over expressions, its metavariables numbered from `next_meta`.
fn elaborate_cic_tactic(tactic: &Tactic<Expression>, next_meta: &mut i32) -> (r: Tactic<CicTerm>)
    requires
        cic_tactic(tactic@),
        *old(next_meta) + metas_tactic(tactic@) <= i32::MAX,
    ensures
        r@ == spec_elab_tactic(tactic@, *old(next_meta) as int),
        *final(next_meta) == *old(next_meta) + metas_tactic(tactic@),
{
    let empty = ElabStore::empty();
    match tactic {
        Tactic::Begin() => Tactic::Begin(),
        Tactic::Qed() => Tactic::Qed(),
        Tactic::Intro(name, formula) => Tactic::Intro(name.clone(), elaborate_expression_rec(formula, &empty, next_meta)),
        Tactic::Exact(proof_term) => Tactic::Exact(elaborate_expression_rec(proof_term, &empty, next_meta)),
        Tactic::Apply(lemma) => Tactic::Apply(elaborate_expression_rec(lemma, &empty, next_meta)),
        Tactic::Induction(name) => Tactic::Induction(name.clone()),
    }
}

/// Elaborates a global definition, its type before its body.
pub fn elaborate_global(var_name: &String, var_type: &Option<Expression>, body: &Expression, next_meta: &mut i32) -> (r: Result<CicStm, LofError>)
    requires
        stm_parts_elaborable(Statement::Global(*var_name, *var_type, *body)),
        *old(next_meta) + metas_stm(Statement::Global(*var_name, *var_type, *body)) <= i32::MAX,
    ensures
        r matches Ok(s) && Some(s@) == spec_elab_stm(Statement::Global(*var_name, *var_type, *body), *old(next_meta) as int),
        *final(next_meta) == *old(next_meta) + metas_stm(Statement::Global(*var_name, *var_type, *body)),
{
    let empty = ElabStore::empty();
    let opt_type = match var_type {
        Some(type_exp) => Some(elaborate_expression_rec(type_exp, &empty, next_meta)),
        None => None,
    };
    let elaborated_body = elaborate_expression_rec(body, &empty, next_meta);
    Ok(CicStm::Global(var_name.clone(), opt_type, Box::new(elaborated_body)))
}

/// Elaborates a function definition: its arguments form a telescope that the
/// output type and the body are elaborated under.
pub fn elaborate_fun(
    fun_name: &String,
    args: &Vec<(String, Expression)>,
    out_type: &Expression,
    body: &Expression,
    is_rec: &bool,
    next_meta: &mut i32,
) -> (r: Result<CicStm, LofError>)
    requires
        stm_parts_elaborable(Statement::Fun(*fun_name, *args, Box::new(*out_type), Box::new(*body), *is_rec)),
        *old(next_meta) + metas_stm(Statement::Fun(*fun_name, *args, Box::new(*out_type), Box::new(*body), *is_rec))
            <= i32::MAX,
    ensures
        r matches Ok(s) && Some(s@) == spec_elab_stm(
            Statement::Fun(*fun_name, *args, Box::new(*out_type), Box::new(*body), *is_rec),
            *old(next_meta) as int,
        ),
        *final(next_meta) == *old(next_meta) + metas_stm(
            Statement::Fun(*fun_name, *args, Box::new(*out_type), Box::new(*body), *is_rec),
        ),
{
    let (elaborated_args, store) = map_typed_variables(args, next_meta);
    let elaborated_out_type = elaborate_expression_rec(out_type, &store, next_meta);
    let elaborated_body = elaborate_expression_rec(body, &store, next_meta);
    Ok(CicStm::Fun(fun_name.clone(), elaborated_args, Box::new(elaborated_out_type), Box::new(elaborated_body), *is_rec))
}

/// Elaborates an inductive definition: its parameters form a telescope that
/// the arity and the constructor types are elaborated under.
pub fn elaborate_inductive(
    inductive_name: &String,
    parameters: &Vec<(String, Expression)>,
    ariety: &Expression,
    constructors: &Vec<(String, Expression)>,
    next_meta: &mut i32,
) -> (r: Result<CicStm, LofError>)
    requires
        stm_parts_elaborable(Statement::Inductive(*inductive_name, *parameters, Box::new(*ariety), *constructors)),
        *old(next_meta) + metas_stm(Statement::Inductive(*inductive_name, *parameters, Box::new(*ariety), *constructors))
            <= i32::MAX,
    ensures
        r matches Ok(s) && Some(s@) == spec_elab_stm(
            Statement::Inductive(*inductive_name, *parameters, Box::new(*ariety), *constructors),
            *old(next_meta) as int,
        ),
        *final(next_meta) == *old(next_meta) + metas_stm(
            Statement::Inductive(*inductive_name, *parameters, Box::new(*ariety), *constructors),
        ),
{
    let (parameter_terms, store) = map_typed_variables(parameters, next_meta);
    let ariety_term = elaborate_expression_rec(ariety, &store, next_meta);
    let constructor_terms = elaborate_named(constructors, &store, next_meta);
    Ok(CicStm::InductiveDef(inductive_name.clone(), parameter_terms, Box::new(ariety_term), constructor_terms))
}

/// Elaborates an axiom.
pub fn elaborate_axiom(axiom_name: &String, formula: &Expression, next_meta: &mut i32) -> (r: Result<CicStm, LofError>)
    requires
        stm_parts_elaborable(Statement::Axiom(*axiom_name, Box::new(*formula))),
        *old(next_meta) + metas_stm(Statement::Axiom(*axiom_name, Box::new(*formula))) <= i32::MAX,
    ensures
        r matches Ok(s) && Some(s@) == spec_elab_stm(Statement::Axiom(*axiom_name, Box::new(*formula)), *old(next_meta) as int),
        *final(next_meta) == *old(next_meta) + metas_stm(Statement::Axiom(*axiom_name, Box::new(*formula))),
{
    let elaborated_formula = elaborate_expression_rec(formula, &ElabStore::empty(), next_meta);
    Ok(CicStm::Axiom(axiom_name.clone(), Box::new(elaborated_formula)))
}

/// Elaborates a theorem: its formula, then its proof term or its tactics in order.
pub fn elaborate_theorem(
    theorem_name: &String,
    formula: &Expression,
    theorem_proof: &Union<Expression, Vec<Tactic<Expression>>>,
    next_meta: &mut i32,
) -> (r: Result<CicStm, LofError>)
    requires
        stm_parts_elaborable(Statement::Theorem(*theorem_name, *formula, *theorem_proof)),
        *old(next_meta) + metas_stm(Statement::Theorem(*theorem_name, *formula, *theorem_proof)) <= i32::MAX,
    ensures
        r matches Ok(s) && Some(s@) == spec_elab_stm(
            Statement::Theorem(*theorem_name, *formula, *theorem_proof),
            *old(next_meta) as int,
        ),
        *final(next_meta) == *old(next_meta) + metas_stm(Statement::Theorem(*theorem_name, *formula, *theorem_proof)),
{
    let empty = ElabStore::empty();
    let elaborated_formula = elaborate_expression_rec(formula, &empty, next_meta);
    let elaborated_proof = match theorem_proof {
        Union::L(proof_term) => Union::L(elaborate_expression_rec(proof_term, &empty, next_meta)),
        Union::R(tactics) => {
            let ghost c0 = *next_meta as int;
            let ghost ts = view_expr_tactics(tactics@);
            let mut out: Vec<Tactic<CicTerm>> = Vec::new();
            let mut i: usize = 0;
            proof {
                assert(view_tactics(out@) =~= spec_elab_tactics(ts.subrange(0, 0), c0));
            }
            while i < tactics.len()
                invariant
                    ts == view_expr_tactics(tactics@),
                    forall|j: int| 0 <= j < tactics@.len() ==> cic_tactic(#[trigger] tactics@[j]@),
                    c0 + metas_tactics(ts) <= i32::MAX,
                    i <= tactics@.len(),
                    *next_meta == c0 + metas_tactics(ts.subrange(0, i as int)),
                    view_tactics(out@) == spec_elab_tactics(ts.subrange(0, i as int), c0),
                decreases tactics@.len() - i,
            {
                let ghost pre = ts.subrange(0, i + 1);
                proof {
                    assert(pre.drop_last() =~= ts.subrange(0, i as int));
                    assert(pre.last() == tactics@[i as int]@);
                    assert(cic_tactic(tactics@[i as int]@));
                    lemma_metas_tactics_mono(ts, i + 1);
                }
                let t = elaborate_cic_tactic(&tactics[i], next_meta);
                let ghost before = out@;
                out.push(t);
                proof {
                    assert(view_tactics(out@) =~= view_tactics(before).push(t@));
                }
                i = i + 1;
            }
            proof {
                assert(ts.subrange(0, tactics@.len() as int) =~= ts);
            }
            Union::R(out)
        },
    };
    Ok(CicStm::Theorem(theorem_name.clone(), Box::new(elaborated_formula), elaborated_proof))
}

/// Root statements and comments, which are not statements of the calculus themselves.
pub open spec fn is_structural(s: Statement) -> bool {
    ||| s is Comment
    ||| s is FileRoot
    ||| s is DirRoot
    ||| s is EmptyRoot
}

proof fn lemma_asts_elaborable_prefix(asts: Seq<LofAst>, i: int)
    requires
        asts_elaborable(asts),
        0 <= i <= asts.len(),
    ensures
        asts_elaborable(asts.subrange(0, i)),
    decreases asts.len() - i,
{
    if i < asts.len() {
        let init = asts.subrange(0, asts.len() - 1);
        lemma_asts_elaborable_prefix(init, i);
        assert(init.subrange(0, i) =~= asts.subrange(0, i));
    } else {
        assert(asts.subrange(0, i) =~= asts);
    }
}

/// Elaborates every node of a file, the metavariables numbered from
/// `next_meta` on: all of it, or an error gathering the messages of every
/// node that failed.
pub fn elaborate_ast_vector(root: &String, asts: &Vec<LofAst>, next_meta: &mut i32) -> (r: Result<Schedule, LofError>)
    requires
        asts_elaborable(asts@),
        *old(next_meta) + metas_asts(asts@) <= i32::MAX,
    ensures
        match spec_elab_ast_vector(asts@, *old(next_meta) as int) {
            Some(n) => r matches Ok(s) && s@ == n && *final(next_meta) == *old(next_meta) + metas_asts(asts@),
            None => r matches Err(e) && e is Aggregate,
        },
        *final(next_meta) <= *old(next_meta) + metas_asts(asts@),
    decreases asts, 0int,
{
    let ghost c0 = *next_meta as int;
    let mut errors: Vec<LofError> = Vec::new();
    let mut schedule = Schedule::new();
    let mut i: usize = 0;
    proof {
        assert(asts@.subrange(0, 0) =~= Seq::<LofAst>::empty());
    }
    while i < asts.len()
        invariant
            asts_elaborable(asts@),
            c0 + metas_asts(asts@) <= i32::MAX,
            i <= asts@.len(),
            *next_meta <= c0 + metas_asts(asts@.subrange(0, i as int)),
            match spec_elab_ast_vector(asts@.subrange(0, i as int), c0) {
                Some(n) => errors@.len() == 0 && schedule@ == n && *next_meta == c0 + metas_asts(
                    asts@.subrange(0, i as int),
                ),
                None => errors@.len() > 0,
            },
        decreases asts@.len() - i,
    {
        let ghost pre = asts@.subrange(0, i + 1);
        proof {
            lemma_asts_elaborable_prefix(asts@, i + 1);
            lemma_metas_asts_prefix(asts@, i + 1);
            assert(pre.subrange(0, pre.len() - 1) =~= asts@.subrange(0, i as int));
            assert(pre[pre.len() - 1] == asts@[i as int]);
            assert(decreases_to!(asts => asts@));
            assert(decreases_to!(asts@ => asts@[i as int]));
        }
        let saved = *next_meta;
        match &asts[i] {
            LofAst::Stm(stm) => {
                proof {
                    assert(decreases_to!(asts@[i as int] => *stm));
                    lemma_metas_nonneg(*stm);
                }
                match elaborate_statement(stm, next_meta) {
                    Err(message) => {
                        errors.push(message);
                        *next_meta = saved;
                    },
                    Ok(stms) => {
                        schedule.extend(stms);
                    },
                }
            },
            LofAst::Exp(exp) => {
                let term = elaborate_expression_rec(exp, &ElabStore::empty(), next_meta);
                schedule.add_expression(term);
            },
        }
        i = i + 1;
    }
    proof {
        assert(asts@.subrange(0, asts@.len() as int) =~= asts@);
    }
    if errors.len() == 0 {
        Ok(schedule)
    } else {
        Err(LofError::aggregate(&errors))
    }
}

/// Elaborates the nodes of the file at `file_path`.
pub fn elaborate_file_root(file_path: &String, asts: &Vec<LofAst>, next_meta: &mut i32) -> (r: Result<Schedule, LofError>)
    requires
        asts_elaborable(asts@),
        *old(next_meta) + metas_asts(asts@) <= i32::MAX,
    ensures
        match spec_elab_ast_vector(asts@, *old(next_meta) as int) {
            Some(n) => r matches Ok(s) && s@ == n && *final(next_meta) == *old(next_meta) + metas_asts(asts@),
            None => r matches Err(e) && e is Aggregate,
        },
        *final(next_meta) <= *old(next_meta) + metas_asts(asts@),
    decreases asts, 1int,
{
    elaborate_ast_vector(file_path, asts, next_meta)
}

/// Elaborates the files of the directory at `dir_path`, in order; a node that
/// is not a file is an error.
pub fn elaborate_dir_root(dir_path: &String, asts: &Vec<LofAst>, next_meta: &mut i32) -> (r: Result<Schedule, LofError>)
    requires
        asts_elaborable(asts@),
        *old(next_meta) + metas_asts(asts@) <= i32::MAX,
    ensures
        match spec_elab_dir(asts@, *old(next_meta) as int) {
            Some(n) => r matches Ok(s) && s@ == n && *final(next_meta) == *old(next_meta) + metas_asts(asts@),
            None => r matches Err(e) && (e is InvalidAstNode || e is Aggregate),
        },
        *final(next_meta) <= *old(next_meta) + metas_asts(asts@),
    decreases asts, 1int,
{
    let ghost c0 = *next_meta as int;
    let mut schedule = Schedule::new();
    let mut i: usize = 0;
    proof {
        assert(asts@.subrange(0, 0) =~= Seq::<LofAst>::empty());
    }
    while i < asts.len()
        invariant
            asts_elaborable(asts@),
            c0 + metas_asts(asts@) <= i32::MAX,
            i <= asts@.len(),
            c0 == *old(next_meta),
            spec_elab_dir(asts@.subrange(0, i as int), c0) == Some(schedule@),
            *next_meta == c0 + metas_asts(asts@.subrange(0, i as int)),
        decreases asts@.len() - i,
    {
        let ghost pre = asts@.subrange(0, i + 1);
        proof {
            lemma_asts_elaborable_prefix(asts@, i + 1);
            lemma_metas_asts_prefix(asts@, i + 1);
            lemma_metas_asts_prefix(asts@, i as int);
            assert(pre.subrange(0, pre.len() - 1) =~= asts@.subrange(0, i as int));
            assert(pre[pre.len() - 1] == asts@[i as int]);
            assert(decreases_to!(asts => asts@));
            assert(decreases_to!(asts@ => asts@[i as int]));
        }
        match &asts[i] {
            LofAst::Stm(Statement::FileRoot(file_path, file_content)) => {
                proof {
                    assert(decreases_to!(asts@[i as int] => *file_content));
                    assert(asts_elaborable(pre));
                    assert(stm_elaborable(Statement::FileRoot(*file_path, *file_content)));
                    assert(metas_statement(Statement::FileRoot(*file_path, *file_content)) == metas_asts(file_content@));
                    assert(metas_asts(pre) == metas_asts(asts@.subrange(0, i as int)) + metas_asts(file_content@));
                }
                let ghost before = *next_meta;
                let mut path = dir_path.clone();
                path.append("/");
                path.append(file_path.as_str());
                let content = elaborate_file_root(&path, file_content, next_meta);
                match content {
                    Ok(c) => {
                        schedule.extend(c);
                    },
                    Err(e) => {
                        proof {
                            assert(spec_elab_ast_vector(file_content@, before as int) is None);
                            assert(spec_elab_dir(pre, c0) is None);
                            lemma_dir_none_extends(asts@, i as int, c0);
                        }
                        return Err(e);
                    },
                }
            },
            _ => {
                proof {
                    lemma_dir_none_extends(asts@, i as int, c0);
                }
                let found = render_ast(&asts[i]);
                return Err(LofError::invalid_ast_node("FileRoot", found.as_str()));
            },
        }
        i = i + 1;
    }
    proof {
        assert(asts@.subrange(0, asts@.len() as int) =~= asts@);
    }
    Ok(schedule)
}

/// Once a prefix of a directory fails, the whole directory fails.
proof fn lemma_dir_none_extends(asts: Seq<LofAst>, i: int, c: int)
    requires
        0 <= i < asts.len(),
        spec_elab_dir(asts.subrange(0, i + 1), c) is None,
    ensures
        spec_elab_dir(asts, c) is None,
    decreases asts.len() - i,
{
    if i + 1 == asts.len() {
        assert(asts.subrange(0, i + 1) =~= asts);
    } else {
        let init = asts.subrange(0, asts.len() - 1);
        assert(init.subrange(0, i + 1) =~= asts.subrange(0, i + 1));
        lemma_dir_none_extends(init, i, c);
    }
}

/// Elaborates the nodes of a root that belongs to no file.
pub fn elaborate_empty(nodes: &Vec<LofAst>, next_meta: &mut i32) -> (r: Result<Schedule, LofError>)
    requires
        asts_elaborable(nodes@),
        *old(next_meta) + metas_asts(nodes@) <= i32::MAX,
    ensures
        match spec_elab_ast_vector(nodes@, *old(next_meta) as int) {
            Some(n) => r matches Ok(s) && s@ == n && *final(next_meta) == *old(next_meta) + metas_asts(nodes@),
            None => r matches Err(e) && e is Aggregate,
        },
        *final(next_meta) <= *old(next_meta) + metas_asts(nodes@),
    decreases nodes, 1int,
{
    let root = String::new();
    elaborate_ast_vector(&root, nodes, next_meta)
}

/// Elaborates a statement into the nodes of a program, its metavariables
/// numbered from `next_meta` on.
pub fn elaborate_statement(ast: &Statement, next_meta: &mut i32) -> (r: Result<Schedule, LofError>)
    requires
        stm_elaborable(*ast),
        *old(next_meta) + metas_statement(*ast) <= i32::MAX,
    ensures
        match spec_elab_statement(*ast, *old(next_meta) as int) {
            Some(n) => r matches Ok(s) && s@ == n && *final(next_meta) == *old(next_meta) + metas_statement(*ast),
            None => r is Err,
        },
        *final(next_meta) <= *old(next_meta) + metas_statement(*ast),
        !is_structural(*ast) && spec_elab_stm(*ast, *old(next_meta) as int) is None ==> (r matches Err(
            LofError::UnsupportedConstruct { theory, construct },
        ) && theory@ == "CIC"@ && construct@ == spec_render_stm(view_statement(*ast))),
    decreases ast, 2int,
{
    match ast {
        Statement::Comment() => Ok(Schedule::new()),
        Statement::FileRoot(file_path, asts) => elaborate_file_root(file_path, asts, next_meta),
        Statement::DirRoot(dir_path, asts) => elaborate_dir_root(dir_path, asts, next_meta),
        Statement::Axiom(axiom_name, formula) => Ok(Schedule::singleton_stm(elaborate_axiom(axiom_name, formula, next_meta)?)),
        Statement::Global(var_name, var_type, body) => Ok(
            Schedule::singleton_stm(elaborate_global(var_name, var_type, body, next_meta)?),
        ),
        Statement::Inductive(inductive_name, parameters, ariety, constructors) => Ok(
            Schedule::singleton_stm(elaborate_inductive(inductive_name, parameters, ariety, constructors, next_meta)?),
        ),
        Statement::Fun(fun_name, args, out_type, body, is_rec) => Ok(
            Schedule::singleton_stm(elaborate_fun(fun_name, args, out_type, body, is_rec, next_meta)?),
        ),
        Statement::EmptyRoot(nodes) => elaborate_empty(nodes, next_meta),
        Statement::Theorem(theorem_name, formula, theorem_proof) => Ok(
            Schedule::singleton_stm(elaborate_theorem(theorem_name, formula, theorem_proof, next_meta)?),
        ),
        _ => {
            let found = render_statement(ast);
            Err(LofError::unsupported_construct("CIC", found.as_str()))
        },
    }
}

/// `t` with the solution of each metavariable of `s` put in its place, in
/// order; each key of `s` is the index of its metavariable.
pub open spec fn spec_apply_so_substitution(t: Term, s: Seq<(Seq<char>, Term)>) -> Term
    decreases s.len(),
{
    if s.len() == 0 {
        t
    } else {
        spec_substitute_meta(
            spec_apply_so_substitution(t, s.drop_last()),
            spec_parse_i32(s.last().0).unwrap(),
            s.last().1,
        )
    }
}

/// `t` with each solution of `s` (metavariable index, term) put in place
/// of its metavariable, in order.
pub open spec fn spec_solve_metas(t: Term, s: Seq<(i32, Term)>) -> Term
    decreases s.len(),
{
    if s.len() == 0 {
        t
    } else {
        spec_substitute_meta(spec_solve_metas(t, s.drop_last()), s.last().0, s.last().1)
    }
}

/// The model of a list of metavariable solutions.
pub open spec fn view_solutions(s: Seq<(i32, CicTerm)>) -> Seq<(i32, Term)> {
    s.map_values(|p: (i32, CicTerm)| (p.0, p.1@))
}

/// The calculus of inductive constructions.
pub struct Cic;

impl Cic {
    /// Elaborates a closed expression of the calculus; its metavariables are
    /// numbered from `next_meta` on, which is left past the last one used.
    pub fn elaborate_expression(exp: &Expression, next_meta: &mut i32) -> (r: Result<CicTerm, LofError>)
        requires
            cic_expr(exp@),
            *old(next_meta) + metas(exp@) <= i32::MAX,
        ensures
            r matches Ok(t) && t@ == spec_elab(exp@, Seq::empty(), *old(next_meta) as int),
            *final(next_meta) == *old(next_meta) + metas(exp@),
    {
        Ok(elaborate_expression_rec(exp, &ElabStore::empty(), next_meta))
    }

    /// Elaborates a statement of the calculus into the nodes of a program,
    /// its metavariables numbered from `next_meta` on.
    pub fn elaborate_statement(stm: &Statement, next_meta: &mut i32) -> (r: Result<Schedule, LofError>)
        requires
            stm_elaborable(*stm),
            *old(next_meta) + metas_statement(*stm) <= i32::MAX,
        ensures
            match spec_elab_statement(*stm, *old(next_meta) as int) {
                Some(n) => r matches Ok(s) && s@ == n && *final(next_meta) == *old(next_meta) + metas_statement(*stm),
                None => r is Err,
            },
            *final(next_meta) <= *old(next_meta) + metas_statement(*stm),
    {
        elaborate_statement(stm, next_meta)
    }

    /// `exp` with each solution of `substitution` (metavariable index,
    /// term) put in place of its metavariable, in the order listed.
    pub fn term_solve_metas(exp: &CicTerm, substitution: &Vec<(i32, CicTerm)>) -> (r: CicTerm)
        ensures
            r@ == spec_solve_metas(exp@, view_solutions(substitution@)),
    {
        let ghost s = view_solutions(substitution@);
        let mut solved = copy_term(exp);
        let mut i: usize = 0;
        proof {
            assert(s.subrange(0, 0) =~= Seq::<(i32, Term)>::empty());
        }
        while i < substitution.len()
            invariant
                i <= substitution@.len(),
                s == view_solutions(substitution@),
                solved@ == spec_solve_metas(exp@, s.subrange(0, i as int)),
            decreases substitution@.len() - i,
        {
            proof {
                let pre = s.subrange(0, i + 1);
                assert(pre.drop_last() =~= s.subrange(0, i as int));
                assert(pre.last() == (substitution@[i as int].0, substitution@[i as int].1@));
            }
            solved = substitute_meta(&solved, &substitution[i].0, &substitution[i].1);
            i = i + 1;
        }
        proof {
            assert(s.subrange(0, s.len() as int) =~= s);
        }
        solved
    }

    /// `exp`, a type, with each solution of `substitution` put in place of
    /// its metavariable, in the order listed.
    pub fn type_solve_metas(exp: &CicTerm, substitution: &Vec<(i32, CicTerm)>) -> (r: CicTerm)
        ensures
            r@ == spec_solve_metas(exp@, view_solutions(substitution@)),
    {
        Cic::term_solve_metas(exp, substitution)
    }

    /// Elaborates a node of the AST into a program: an expression becomes a
    /// program of one node, a statement the program it elaborates to.
    pub fn elaborate_ast(ast: &LofAst, next_meta: &mut i32) -> (r: Result<Schedule, LofError>)
        requires
            match ast {
                LofAst::Exp(e) => cic_expr(e@) && *old(next_meta) + metas(e@) <= i32::MAX,
                LofAst::Stm(st) => stm_elaborable(*st) && *old(next_meta) + metas_statement(*st) <= i32::MAX,
            },
        ensures
            match ast {
                LofAst::Exp(e) => r matches Ok(s) && s@ == seq![Node::OfExp(spec_elab(e@, Seq::empty(), *old(next_meta) as int))]
                    && *final(next_meta) == *old(next_meta) + metas(e@),
                LofAst::Stm(st) => match spec_elab_statement(*st, *old(next_meta) as int) {
                    Some(n) => r matches Ok(s) && s@ == n && *final(next_meta) == *old(next_meta) + metas_statement(*st),
                    None => r is Err,
                },
            },
    {
        let mut schedule = Schedule::new();
        match ast {
            LofAst::Exp(exp) => {
                let exp = Cic::elaborate_expression(exp, next_meta)?;
                schedule.add_expression(exp);
            },
            LofAst::Stm(stm) => {
                let subschedule = match Cic::elaborate_statement(stm, next_meta) {
                    Ok(s) => s,
                    Err(e) => {
                        return Err(e);
                    },
                };
                schedule.extend(subschedule);
                proof {
                    assert(schedule@ =~= subschedule@);
                }
            },
        }
        Ok(schedule)
    }

    /// Elaborates a single node of the AST: an expression into a term, a
    /// statement into the first statement of the program it elaborates to.
    pub fn elaborate_node(node: &LofAst, next_meta: &mut i32) -> (r: Result<Union<CicTerm, CicStm>, LofError>)
        requires
            match node {
                LofAst::Exp(e) => cic_expr(e@) && *old(next_meta) + metas(e@) <= i32::MAX,
                LofAst::Stm(st) => stm_elaborable(*st) && *old(next_meta) + metas_statement(*st) <= i32::MAX && (
                spec_elab_statement(*st, *old(next_meta) as int) matches Some(n) ==> n.len() > 0),
            },
        ensures
            match node {
                LofAst::Exp(e) => r matches Ok(Union::L(t)) && t@ == spec_elab(e@, Seq::empty(), *old(next_meta) as int),
                LofAst::Stm(st) => match spec_elab_statement(*st, *old(next_meta) as int) {
                    Some(n) => match n[0] {
                        Node::OfStm(x) => r matches Ok(Union::R(y)) && y@ == x,
                        Node::OfExp(_) => r matches Err(LofError::Other(msg))
                            && msg@ == "elaborate_node: nested statements have no schedule concept yet"@,
                    },
                    None => r is Err,
                },
            },
    {
        match node {
            LofAst::Exp(exp) => {
                let t = Cic::elaborate_expression(exp, next_meta)?;
                Ok(Union::L(t))
            },
            LofAst::Stm(stm) => {
                let schedule = match Cic::elaborate_statement(stm, next_meta) {
                    Ok(s) => s,
                    Err(e) => {
                        return Err(e);
                    },
                };
                match schedule.take_first() {
                    Some(ProgramNode::OfStm(first)) => Ok(Union::R(first)),
                    Some(ProgramNode::OfExp(_)) => Err(
                        LofError::custom("elaborate_node: nested statements have no schedule concept yet"),
                    ),
                    None => {
                        proof {
                            assert(false);
                        }
                        Err(LofError::custom("elaborate_node: nested statements have no schedule concept yet"))
                    },
                }
            },
        }
    }

    /// Whether two terms are equal for the calculus: whether they unify.
    pub fn base_term_equality(term1: &CicTerm, term2: &CicTerm) -> (r: Result<(), LofError>)
        ensures
            match r {
                Ok(()) => spec_unify(seq![(term1@, term2@)]) is Unified,
                Err(e) => reports(Err(e), spec_unify(seq![(term1@, term2@)])),
            },
    {
        match cic_so_unification(term1, term2) {
            Ok(_) => Ok(()),
            Err(e) => Err(e),
        }
    }

    /// Whether two types are equal for the calculus: whether they unify.
    pub fn base_type_equality(type1: &CicTerm, type2: &CicTerm) -> (r: Result<(), LofError>)
        ensures
            match r {
                Ok(()) => spec_unify(seq![(type1@, type2@)]) is Unified,
                Err(e) => reports(Err(e), spec_unify(seq![(type1@, type2@)])),
            },
    {
        Cic::base_term_equality(type1, type2)
    }

    /// The index of a metavariable; `None` for any other term.
    pub fn meta_index(meta: &CicTerm) -> (r: Option<i32>)
        ensures
            match meta@ {
                Term::Meta(i) => r == Some(i),
                _ => r is None,
            },
    {
        match meta {
            CicTerm::Meta(index) => Some(*index),
            _ => None,
        }
    }

    /// Whether an expression is to be refined by unification before it is
    /// checked: always, in this calculus.
    pub fn needs_refinement(exp: &CicTerm) -> (r: bool)
        ensures
            r,
    {
        true
    }

    /// `term` with `body` in place of every use of the name `var_name`.
    pub fn substitute(term: &CicTerm, var_name: &str, body: &CicTerm) -> (r: CicTerm)
        ensures
            r@ == spec_rename(term@, var_name@, body@),
    {
        substitute(term, var_name, body)
    }

    /// `typ` with the solution of each metavariable of `substitution` put in
    /// its place, in the order the solutions were found (see
    /// [`spec_apply_so_substitution`]).
    pub fn apply_so_substitution(typ: &CicTerm, substitution: &Substitution) -> (r: CicTerm)
        requires
            forall|i: int| 0 <= i < substitution@.len() ==> spec_parse_i32(#[trigger] substitution@[i].0) is Some,
        ensures
            r@ == spec_apply_so_substitution(typ@, substitution@),
    {
        let mut solved = copy_term(typ);
        let mut i: usize = 0;
        proof {
            assert(substitution@.subrange(0, 0) =~= Seq::<(Seq<char>, Term)>::empty());
        }
        while i < substitution.len()
            invariant
                i <= substitution@.len(),
                forall|j: int| 0 <= j < substitution@.len() ==> spec_parse_i32(#[trigger] substitution@[j].0) is Some,
                solved@ == spec_apply_so_substitution(typ@, substitution@.subrange(0, i as int)),
            decreases substitution@.len() - i,
        {
            let name = substitution.name_at(i);
            let index = match parse_i32(name.as_str()) {
                Some(k) => k,
                None => {
                    proof {
                        assert(spec_parse_i32(substitution@[i as int].0) is Some);
                    }
                    0
                },
            };
            proof {
                let pre = substitution@.subrange(0, i + 1);
                assert(pre.drop_last() =~= substitution@.subrange(0, i as int));
                assert(pre.last() == substitution@[i as int]);
            }
            solved = substitute_meta(&solved, &index, substitution.value_at(i));
            i = i + 1;
        }
        proof {
            assert(substitution@.subrange(0, substitution@.len() as int) =~= substitution@);
        }
        solved
    }

    /// The environment every program starts from: the sorts `TYPE` and
    /// `PROP`, both of type `TYPE`.
    pub fn default_environment() -> (r: Environment)
        ensures
            r@.context == seq![("TYPE"@, Term::Sort("TYPE"@)), ("PROP"@, Term::Sort("TYPE"@))],
            r@.deltas.len() == 0,
            r@.predicates.len() == 0,
            r@.constructors.len() == 0,
            r@.theorem_proofs.len() == 0,
            r@.equivalences.len() == 0,
            r@.param_counts.len() == 0,
    {
        let type_sort = CicTerm::Sort(String::from_str("TYPE"));
        let axioms: Vec<(&str, &CicTerm)> = vec![("TYPE", &type_sort), ("PROP", &type_sort)];
        let defs: Vec<(&str, &CicTerm, &Option<CicTerm>)> = Vec::new();
        let ghost dv = defs@;
        let r = Environment::with_defaults(axioms, defs, Vec::new());
        proof {
            reveal_strlit("TYPE");
            reveal_strlit("PROP");
            let t = ("TYPE"@, Term::Sort("TYPE"@));
            let p = ("PROP"@, Term::Sort("TYPE"@));
            let e = Seq::<(Seq<char>, Term)>::empty();
            let ax = view_axioms(axioms@);
            assert(ax =~= seq![t, p]);
            assert(ax.drop_last() =~= seq![t]);
            assert(seq![t].drop_last() =~= e);
            assert(spec_insert_all(e, e) == e);
            assert(spec_without(e, "TYPE"@) == e);
            assert(e.push(t) =~= seq![t]);
            assert(spec_insert_all(e, seq![t]) == seq![t]);
            assert("TYPE"@[0] != "PROP"@[0]);
            assert(spec_without(e, "PROP"@) == e);
            assert(spec_without(seq![t], "PROP"@) == spec_without(e, "PROP"@).push(t));
            assert(e.push(t).push(p) =~= seq![t, p]);
            assert(spec_insert_all(e, ax) == seq![t, p]);
            assert(typed_defs(view_default_defs(dv)) =~= e);
        }
        r
    }

    /// The hole of a partial proof, to be filled by the next tactic.
    pub fn proof_hole() -> (r: CicTerm)
        ensures
            r@ == Term::Sort("THIS_IS_A_PARTIAL_PROOF_HOLE"@),
    {
        CicTerm::Sort(String::from_str("THIS_IS_A_PARTIAL_PROOF_HOLE"))
    }

    /// The target of a proof that has nothing left to prove.
    pub fn empty_target() -> (r: CicTerm)
        ensures
            r@ == Term::Sort("THIS_IS_AN_EMPTY_TERMINATION_PROOF_TARGET"@),
    {
        CicTerm::Sort(String::from_str("THIS_IS_AN_EMPTY_TERMINATION_PROOF_TARGET"))
    }
}

} // verus!
