//! Whether a node of the syntax tree can be elaborated into the calculus,
//! and how many metavariables that numbers: the test a caller makes before
//! elaborating with its metavariable counter.

use vstd::prelude::*;
use crate::cic::elaboration::{cic_expr, lemma_cic_app, lemma_cic_match, metas, metas_branches, metas_seq};
use crate::cic::statements::{
    asts_elaborable, cic_tactic, cic_typed, metas_asts, metas_statement, metas_stm, metas_tactic, metas_tactics,
    metas_typed, stm_elaborable, stm_parts_elaborable, view_expr_tactics, view_typed,
};
use crate::parser::api::{
    lemma_application_view, lemma_match_expr_view, view_expr_branches, view_exprs, Expr, Expression, LofAst, Statement,
    Tac, Tactic, Union,
};

verus! {

/// The most metavariables a node may number for the count to be reported.
pub const METAS_LIMIT: u64 = 4294967296;

/// `r` reports `ok` with `n` metavariables: `Some(n)` exactly when `ok`
/// holds and `n` is within the limit.
pub open spec fn reports_count(r: Option<u64>, ok: bool, n: int) -> bool {
    &&& r matches Some(k) ==> ok && k == n && k <= METAS_LIMIT
    &&& r is None ==> !(ok && n <= METAS_LIMIT)
}

/// The sum of two counts within the limit.
fn add_counts(a: Option<u64>, b: Option<u64>) -> (r: Option<u64>)
    ensures
        r == (if a is Some && b is Some && a->Some_0 + b->Some_0 <= METAS_LIMIT {
            Some((a->Some_0 + b->Some_0) as u64)
        } else {
            None
        }),
{
    match (a, b) {
        (Some(x), Some(y)) => if x <= METAS_LIMIT && y <= METAS_LIMIT - x {
            Some(x + y)
        } else {
            None
        },
        _ => None,
    }
}

proof fn lemma_metas_seq_prefix(es: Seq<Expr>, i: int)
    requires
        0 <= i <= es.len(),
    ensures
        metas_seq(es.subrange(0, i)) <= metas_seq(es),
    decreases es.len() - i,
{
    if i < es.len() {
        let init = es.subrange(0, es.len() - 1);
        lemma_metas_seq_prefix(init, i);
        assert(init.subrange(0, i) =~= es.subrange(0, i));
    } else {
        assert(es.subrange(0, i) =~= es);
    }
}

proof fn lemma_metas_branches_prefix(bs: Seq<(Expr, Expr)>, i: int)
    requires
        0 <= i <= bs.len(),
    ensures
        metas_branches(bs.subrange(0, i)) <= metas_branches(bs),
    decreases bs.len() - i,
{
    if i < bs.len() {
        let init = bs.subrange(0, bs.len() - 1);
        lemma_metas_branches_prefix(init, i);
        assert(init.subrange(0, i) =~= bs.subrange(0, i));
    } else {
        assert(bs.subrange(0, i) =~= bs);
    }
}

/// The metavariables of `e`, when it belongs to the calculus (see [`reports_count`]).
pub fn expression_metas(e: &Expression) -> (r: Option<u64>)
    ensures
        reports_count(r, cic_expr(e@), metas(e@) as int),
    decreases e,
{
    match e {
        Expression::VarUse(_) => Some(0),
        Expression::Inferator() => Some(1),
        Expression::Abstraction(_, a, b) => add_counts(expression_metas(a), expression_metas(b)),
        Expression::TypeProduct(_, a, b) => add_counts(expression_metas(a), expression_metas(b)),
        Expression::Arrow(a, b) => add_counts(expression_metas(a), expression_metas(b)),
        Expression::Application(f, args) => {
            proof {
                lemma_application_view(**f, *args);
            }
            let ghost es = view_exprs(args@);
            let mut total = match expression_metas(f) {
                Some(n) => n,
                None => {
                    return None;
                },
            };
            let mut i: usize = 0;
            proof {
                assert(es.subrange(0, 0) =~= Seq::<Expr>::empty());
            }
            while i < args.len()
                invariant
                    i <= args@.len(),
                    es == view_exprs(args@),
                    es.len() == args@.len(),
                    *e is Application && (*e)->Application_1 == *args,
                    e@ == Expr::App(Box::new(f@), es),
                    cic_expr(f@),
                    total == metas(f@) + metas_seq(es.subrange(0, i as int)),
                    total <= METAS_LIMIT,
                    forall|j: int| 0 <= j < i ==> cic_expr(#[trigger] es[j]),
                decreases args@.len() - i,
            {
                let ghost pre = es.subrange(0, i + 1);
                proof {
                    assert(decreases_to!(*e => (*e)->Application_1));
                    assert(decreases_to!(*args => args@));
                    assert(decreases_to!(args@ => args@[i as int]));
                    assert(pre.subrange(0, i as int) =~= es.subrange(0, i as int));
                    assert(es[i as int] == args@[i as int]@);
                    assert(pre[pre.len() - 1] == es[i as int]);
                    assert(metas_seq(pre) == metas_seq(es.subrange(0, i as int)) + metas(es[i as int]));
                    lemma_metas_seq_prefix(es, i + 1);
                }
                match add_counts(Some(total), expression_metas(&args[i])) {
                    Some(n) => {
                        total = n;
                    },
                    None => {
                        proof {
                            if cic_expr(e@) {
                                lemma_cic_app(f@, es, i as int);
                                assert(metas(e@) == metas(f@) + metas_seq(es));
                            }
                        }
                        return None;
                    },
                }
                i = i + 1;
            }
            proof {
                assert(es.subrange(0, es.len() as int) =~= es);
            }
            Some(total)
        },
        Expression::Match(m, branches) => {
            proof {
                lemma_match_expr_view(**m, *branches);
            }
            let ghost bs = view_expr_branches(branches@);
            let mut total = match expression_metas(m) {
                Some(n) => n,
                None => {
                    return None;
                },
            };
            let mut i: usize = 0;
            proof {
                assert(bs.subrange(0, 0) =~= Seq::<(Expr, Expr)>::empty());
            }
            while i < branches.len()
                invariant
                    i <= branches@.len(),
                    bs == view_expr_branches(branches@),
                    bs.len() == branches@.len(),
                    *e is Match && (*e)->Match_1 == *branches,
                    e@ == Expr::Match(Box::new(m@), bs),
                    cic_expr(m@),
                    total == metas(m@) + metas_branches(bs.subrange(0, i as int)),
                    total <= METAS_LIMIT,
                    forall|j: int| 0 <= j < i ==> cic_expr(#[trigger] bs[j].0) && cic_expr(bs[j].1),
                decreases branches@.len() - i,
            {
                let ghost pre = bs.subrange(0, i + 1);
                proof {
                    assert(decreases_to!(*e => (*e)->Match_1));
                    assert(decreases_to!(*branches => branches@));
                    assert(decreases_to!(branches@ => branches@[i as int]));
                    assert(pre.subrange(0, i as int) =~= bs.subrange(0, i as int));
                    assert(bs[i as int] == (branches@[i as int].0@, branches@[i as int].1@));
                    assert(pre[pre.len() - 1] == bs[i as int]);
                    assert(metas_branches(pre) == metas_branches(bs.subrange(0, i as int)) + metas(bs[i as int].0) + metas(
                        bs[i as int].1,
                    ));
                    lemma_metas_branches_prefix(bs, i + 1);
                }
                let pc = expression_metas(&branches[i].0);
                let bc = expression_metas(&branches[i].1);
                let pattern = add_counts(Some(total), pc);
                match add_counts(pattern, bc) {
                    Some(n) => {
                        proof {
                            assert(pc is Some && bc is Some);
                            assert(cic_expr(bs[i as int].0) && cic_expr(bs[i as int].1));
                        }
                        total = n;
                    },
                    None => {
                        proof {
                            if cic_expr(e@) {
                                lemma_cic_match(m@, bs, i as int);
                                assert(metas(e@) == metas(m@) + metas_branches(bs));
                            }
                        }
                        return None;
                    },
                }
                i = i + 1;
            }
            proof {
                assert(bs.subrange(0, bs.len() as int) =~= bs);
            }
            Some(total)
        },
        Expression::Let(_, ty, b, s) => {
            let t = match &**ty {
                Some(x) => expression_metas(x),
                None => Some(0),
            };
            add_counts(add_counts(t, expression_metas(b)), expression_metas(s))
        },
        Expression::Tuple(_) => None,
        Expression::Pipe(_) => None,
    }
}

proof fn lemma_metas_typed_prefix(a: Seq<(Seq<char>, Expr)>, i: int)
    requires
        0 <= i <= a.len(),
    ensures
        metas_typed(a.subrange(0, i)) <= metas_typed(a),
    decreases a.len() - i,
{
    if i < a.len() {
        lemma_metas_typed_prefix(a.drop_last(), i);
        assert(a.drop_last().subrange(0, i) =~= a.subrange(0, i));
    } else {
        assert(a.subrange(0, i) =~= a);
    }
}

/// The metavariables of the types of `items`, when they all belong to the calculus.
fn typed_metas(items: &Vec<(String, Expression)>) -> (r: Option<u64>)
    ensures
        reports_count(r, cic_typed(view_typed(items@)), metas_typed(view_typed(items@)) as int),
{
    let ghost a = view_typed(items@);
    let mut total: u64 = 0;
    let mut i: usize = 0;
    proof {
        assert(a.subrange(0, 0) =~= Seq::<(Seq<char>, Expr)>::empty());
    }
    while i < items.len()
        invariant
            i <= items@.len(),
            a == view_typed(items@),
            total == metas_typed(a.subrange(0, i as int)),
            total <= METAS_LIMIT,
            forall|j: int| 0 <= j < i ==> cic_expr(#[trigger] a[j].1),
        decreases items@.len() - i,
    {
        proof {
            assert(a.subrange(0, i + 1).drop_last() =~= a.subrange(0, i as int));
            assert(a[i as int].1 == items@[i as int].1@);
            lemma_metas_typed_prefix(a, i + 1);
        }
        match add_counts(Some(total), expression_metas(&items[i].1)) {
            Some(n) => {
                total = n;
            },
            None => {
                return None;
            },
        }
        i = i + 1;
    }
    proof {
        assert(a.subrange(0, a.len() as int) =~= a);
    }
    Some(total)
}

proof fn lemma_metas_tactics_prefix(ts: Seq<Tac<Expr>>, i: int)
    requires
        0 <= i <= ts.len(),
    ensures
        metas_tactics(ts.subrange(0, i)) <= metas_tactics(ts),
    decreases ts.len() - i,
{
    if i < ts.len() {
        lemma_metas_tactics_prefix(ts.drop_last(), i);
        assert(ts.drop_last().subrange(0, i) =~= ts.subrange(0, i));
    } else {
        assert(ts.subrange(0, i) =~= ts);
    }
}

/// The metavariables of `tactic`, when its expression belongs to the calculus.
fn tactic_metas(tactic: &Tactic<Expression>) -> (r: Option<u64>)
    ensures
        reports_count(r, cic_tactic(tactic@), metas_tactic(tactic@) as int),
{
    match tactic {
        Tactic::Intro(_, e) => expression_metas(e),
        Tactic::Exact(e) => expression_metas(e),
        Tactic::Apply(e) => expression_metas(e),
        _ => Some(0),
    }
}

/// The metavariables of `tactics`, when all their expressions belong to the calculus.
fn tactics_metas(tactics: &Vec<Tactic<Expression>>) -> (r: Option<u64>)
    ensures
        reports_count(
            r,
            forall|i: int| 0 <= i < tactics@.len() ==> cic_tactic(#[trigger] tactics@[i]@),
            metas_tactics(view_expr_tactics(tactics@)) as int,
        ),
{
    let ghost ts = view_expr_tactics(tactics@);
    let mut total: u64 = 0;
    let mut i: usize = 0;
    proof {
        assert(ts.subrange(0, 0) =~= Seq::<Tac<Expr>>::empty());
    }
    while i < tactics.len()
        invariant
            i <= tactics@.len(),
            ts == view_expr_tactics(tactics@),
            total == metas_tactics(ts.subrange(0, i as int)),
            total <= METAS_LIMIT,
            forall|j: int| 0 <= j < i ==> cic_tactic(#[trigger] tactics@[j]@),
        decreases tactics@.len() - i,
    {
        proof {
            assert(ts.subrange(0, i + 1).drop_last() =~= ts.subrange(0, i as int));
            assert(ts[i as int] == tactics@[i as int]@);
            lemma_metas_tactics_prefix(ts, i + 1);
        }
        match add_counts(Some(total), tactic_metas(&tactics[i])) {
            Some(n) => {
                total = n;
            },
            None => {
                return None;
            },
        }
        i = i + 1;
    }
    proof {
        assert(ts.subrange(0, ts.len() as int) =~= ts);
    }
    Some(total)
}

/// The metavariables of a statement that is not a root, when all its
/// expressions belong to the calculus.
fn stm_metas(s: &Statement) -> (r: Option<u64>)
    ensures
        reports_count(r, stm_parts_elaborable(*s), metas_stm(*s)),
{
    match s {
        Statement::Axiom(_, f) => expression_metas(f),
        Statement::Global(_, ty, body) => {
            let t = match ty {
                Some(x) => expression_metas(x),
                None => Some(0),
            };
            add_counts(t, expression_metas(body))
        },
        Statement::Fun(_, args, out, body, _) => add_counts(
            add_counts(typed_metas(args), expression_metas(out)),
            expression_metas(body),
        ),
        Statement::Inductive(_, params, ariety, ctors) => add_counts(
            add_counts(typed_metas(params), expression_metas(ariety)),
            typed_metas(ctors),
        ),
        Statement::Theorem(_, f, pf) => {
            let p = match pf {
                Union::L(x) => expression_metas(x),
                Union::R(ts) => tactics_metas(ts),
            };
            add_counts(expression_metas(f), p)
        },
        _ => Some(0),
    }
}

proof fn lemma_metas_asts_bound(asts: Seq<LofAst>, i: int)
    requires
        0 <= i < asts.len(),
    ensures
        metas_asts(asts.subrange(0, i + 1)) <= metas_asts(asts),
        metas_asts(asts.subrange(0, i)) >= 0,
{
    crate::cic::statements::lemma_metas_asts_prefix(asts, i + 1);
    crate::cic::statements::lemma_metas_asts_nonneg(asts.subrange(0, i));
}

/// The metavariables of a statement, roots included, when everything it
/// elaborates belongs to the calculus.
pub fn statement_metas(s: &Statement) -> (r: Option<u64>)
    ensures
        reports_count(r, stm_elaborable(*s), metas_statement(*s)),
    decreases s, 1int,
{
    match s {
        Statement::FileRoot(_, asts) => {
            proof {
                assert(decreases_to!(*s => *asts));
            }
            asts_metas(asts)
        },
        Statement::EmptyRoot(asts) => {
            proof {
                assert(decreases_to!(*s => *asts));
            }
            asts_metas(asts)
        },
        Statement::DirRoot(_, asts) => {
            proof {
                assert(decreases_to!(*s => *asts));
            }
            asts_metas(asts)
        },
        _ => stm_metas(s),
    }
}

/// The metavariables of the nodes `asts`, when everything they elaborate
/// belongs to the calculus.
pub fn asts_metas(asts: &Vec<LofAst>) -> (r: Option<u64>)
    ensures
        reports_count(r, asts_elaborable(asts@), metas_asts(asts@)),
    decreases asts, 0int,
{
    let mut total: u64 = 0;
    let mut i: usize = 0;
    proof {
        assert(asts@.subrange(0, 0) =~= Seq::<LofAst>::empty());
    }
    while i < asts.len()
        invariant
            i <= asts@.len(),
            total == metas_asts(asts@.subrange(0, i as int)),
            total <= METAS_LIMIT,
            asts_elaborable(asts@.subrange(0, i as int)),
        decreases asts@.len() - i,
    {
        let ghost pre = asts@.subrange(0, i + 1);
        proof {
            assert(pre.subrange(0, pre.len() - 1) =~= asts@.subrange(0, i as int));
            assert(pre[pre.len() - 1] == asts@[i as int]);
            assert(decreases_to!(asts => asts@));
            assert(decreases_to!(asts@ => asts@[i as int]));
            lemma_metas_asts_bound(asts@, i as int);
            lemma_asts_elaborable_cut(asts@, i as int);
        }
        let count = match &asts[i] {
            LofAst::Stm(stm) => {
                proof {
                    assert(decreases_to!(asts@[i as int] => *stm));
                    crate::cic::statements::lemma_metas_nonneg(*stm);
                }
                statement_metas(stm)
            },
            LofAst::Exp(exp) => expression_metas(exp),
        };
        match add_counts(Some(total), count) {
            Some(n) => {
                total = n;
            },
            None => {
                return None;
            },
        }
        i = i + 1;
    }
    proof {
        assert(asts@.subrange(0, asts@.len() as int) =~= asts@);
    }
    Some(total)
}

/// A node set that can be elaborated can be cut after any of its nodes.
proof fn lemma_asts_elaborable_cut(asts: Seq<LofAst>, i: int)
    requires
        0 <= i < asts.len(),
    ensures
        asts_elaborable(asts) ==> asts_elaborable(asts.subrange(0, i + 1)),
    decreases asts.len() - i,
{
    if i + 1 < asts.len() {
        let init = asts.subrange(0, asts.len() - 1);
        lemma_asts_elaborable_cut(init, i);
        assert(init.subrange(0, i + 1) =~= asts.subrange(0, i + 1));
    } else {
        assert(asts.subrange(0, i + 1) =~= asts);
    }
}

/// Whether `ast` can be elaborated with metavariables numbered from
/// `next_meta` on: everything it elaborates belongs to the calculus and the
/// numbers stay within `i32`.
pub fn can_elaborate(ast: &LofAst, next_meta: i32) -> (r: bool)
    ensures
        r == match ast {
            LofAst::Exp(e) => cic_expr(e@) && next_meta + metas(e@) <= i32::MAX,
            LofAst::Stm(st) => stm_elaborable(*st) && next_meta + metas_statement(*st) <= i32::MAX,
        },
{
    let count = match ast {
        LofAst::Exp(e) => expression_metas(e),
        LofAst::Stm(st) => {
            proof {
                crate::cic::statements::lemma_metas_nonneg(*st);
            }
            statement_metas(st)
        },
    };
    match count {
        Some(n) => (next_meta as i64) + (n as i64) <= 2147483647i64,
        None => false,
    }
}

} // verus!
