use vstd::prelude::*;
use crate::cic::model::{spec_apply_args, spec_arg_binder_names, spec_pattern_binder_names};
use crate::cic::term::{copy_term, lemma_match_view, no_branch, view_branches, CicTerm, NameKind, Term};
use crate::cic::utils::pattern_binder_names;
use crate::commons::utils::{spec_lookup, ElabStore};
use crate::parser::api::{
    copy_expression, copy_expression_branches, copy_expressions, lemma_application_view, lemma_match_expr_view,
    view_expr_branches, view_exprs, view_opt_expr, Expr, Expression,
};

verus! {

//########################### INDEXING

/// `t` with every non-local variable resolved against `store`: to the De
/// Bruijn index of its innermost binding, or to a constant when unbound.
/// A pattern's arguments bind over the pattern itself and its branch body.
pub open spec fn spec_index(t: Term, store: Seq<Seq<char>>) -> Term
    decreases t,
{
    match t {
        Term::Var(n, k) => if k == NameKind::Local() {
            t
        } else {
            match spec_lookup(store, n) {
                Some(d) => Term::Var(n, NameKind::Bound(d as i32)),
                None => Term::Var(n, NameKind::Const()),
            }
        },
        Term::Abs(n, a, b) => Term::Abs(n, Box::new(spec_index(*a, store)), Box::new(spec_index(*b, store.push(n)))),
        Term::Prod(n, a, b) => Term::Prod(n, Box::new(spec_index(*a, store)), Box::new(spec_index(*b, store.push(n)))),
        Term::App(l, r) => Term::App(Box::new(spec_index(*l, store)), Box::new(spec_index(*r, store))),
        Term::Let(n, ty, b, s) => Term::Let(
            n,
            match ty {
                Some(x) => Some(Box::new(spec_index(*x, store.push(n)))),
                None => None,
            },
            Box::new(spec_index(*b, store)),
            Box::new(spec_index(*s, store.push(n))),
        ),
        Term::Match(m, bs) => Term::Match(
            Box::new(spec_index(*m, store)),
            Seq::new(
                bs.len(),
                |i: int|
                    if 0 <= i < bs.len() {
                        (
                            spec_index(bs[i].0, store + spec_pattern_binder_names(bs[i].0)),
                            spec_index(bs[i].1, store + spec_pattern_binder_names(bs[i].0)),
                        )
                    } else {
                        no_branch()
                    },
            ),
        ),
        _ => t,
    }
}

/// Gives every variable of `term` its De Bruijn index with respect to the
/// binders of `store` and of `term` itself; unbound variables become constants.
pub fn index_variables_in_store(term: &CicTerm, store: &ElabStore) -> (r: CicTerm)
    ensures
        r@ == spec_index(term@, store@),
    decreases term,
{
    match term {
        CicTerm::Variable(name, NameKind::Local()) => copy_term(term),
        CicTerm::Variable(name, _) => match store.lookup_dbi(name.as_str()) {
            Some(dbi) => CicTerm::Variable(name.clone(), NameKind::Bound(dbi)),
            None => CicTerm::Variable(name.clone(), NameKind::Const()),
        },
        CicTerm::Abstraction(var_name, var_type, body) => {
            let var_type = index_variables_in_store(var_type, store);
            let inner = store.push_name(var_name.as_str());
            CicTerm::Abstraction(var_name.clone(), Box::new(var_type), Box::new(index_variables_in_store(body, &inner)))
        },
        CicTerm::Product(var_name, var_type, body) => {
            let var_type = index_variables_in_store(var_type, store);
            let inner = store.push_name(var_name.as_str());
            CicTerm::Product(var_name.clone(), Box::new(var_type), Box::new(index_variables_in_store(body, &inner)))
        },
        CicTerm::Let(var_name, var_type, body, scope) => {
            // the definition body lives in the outer scope: the name on the
            // right of `:=` refers to whatever was bound before this `let`
            let body = index_variables_in_store(body, store);
            let inner = store.push_name(var_name.as_str());
            let var_type = match &**var_type {
                Some(x) => Some(index_variables_in_store(x, &inner)),
                None => None,
            };
            CicTerm::Let(
                var_name.clone(),
                Box::new(var_type),
                Box::new(body),
                Box::new(index_variables_in_store(scope, &inner)),
            )
        },
        CicTerm::Application(left, right) => CicTerm::Application(
            Box::new(index_variables_in_store(left, store)),
            Box::new(index_variables_in_store(right, store)),
        ),
        CicTerm::Match(matched_term, branches) => {
            let matched = index_variables_in_store(matched_term, store);
            let mut out: Vec<(CicTerm, CicTerm)> = Vec::new();
            let mut i: usize = 0;
            while i < branches.len()
                invariant
                    *term == CicTerm::Match(*matched_term, *branches),
                    i <= branches@.len(),
                    out@.len() == i,
                    forall|j: int|
                        0 <= j < i ==> (#[trigger] out@[j]).0@ == spec_index(
                            branches@[j].0@,
                            store@ + spec_pattern_binder_names(branches@[j].0@),
                        ) && out@[j].1@ == spec_index(
                            branches@[j].1@,
                            store@ + spec_pattern_binder_names(branches@[j].0@),
                        ),
                decreases branches@.len() - i,
            {
                proof {
                    assert(decreases_to!(*term => (*term)->Match_1));
                    assert(decreases_to!(*branches => branches@));
                    assert(decreases_to!(branches@ => branches@[i as int]));
                }
                let names = pattern_binder_names(&branches[i].0);
                let branch_store = store.push_names(&names);
                let pattern = index_variables_in_store(&branches[i].0, &branch_store);
                let body = index_variables_in_store(&branches[i].1, &branch_store);
                out.push((pattern, body));
                i = i + 1;
            }
            proof {
                lemma_match_view(matched, out);
                lemma_match_view(**matched_term, *branches);
                assert(view_branches(out@) =~= (spec_index(term@, store@))->Match_1);
            }
            CicTerm::Match(Box::new(matched), out)
        },
        _ => copy_term(term),
    }
}

/// Gives every variable of a closed `term` its De Bruijn index; unbound
/// variables become constants.
pub fn index_variables(term: &CicTerm) -> (r: CicTerm)
    ensures
        r@ == spec_index(term@, Seq::empty()),
{
    index_variables_in_store(term, &ElabStore::empty())
}

//########################### EXPRESSIONS ELABORATION

/// A name made of at least two ASCII uppercase letters names a sort.
pub open spec fn is_sort_name(n: Seq<char>) -> bool {
    n.len() > 1 && forall|i: int| 0 <= i < n.len() ==> 'A' <= #[trigger] n[i] && n[i] <= 'Z'
}

/// Number of metavariables (inferred holes) of an expression.
pub open spec fn metas(e: Expr) -> nat
    decreases e,
{
    match e {
        Expr::Infer => 1,
        Expr::Abs(_, a, b) => metas(*a) + metas(*b),
        Expr::Prod(_, a, b) => metas(*a) + metas(*b),
        Expr::Arrow(a, b) => metas(*a) + metas(*b),
        Expr::App(f, args) => metas(*f) + metas_seq(args),
        Expr::Match(m, bs) => metas(*m) + metas_branches(bs),
        Expr::Let(_, ty, b, s) => match ty {
            Some(x) => metas(*x) + metas(*b) + metas(*s),
            None => metas(*b) + metas(*s),
        },
        _ => 0,
    }
}

/// Number of metavariables of a list of expressions.
pub open spec fn metas_seq(es: Seq<Expr>) -> nat
    decreases es,
{
    if es.len() == 0 {
        0
    } else {
        metas_seq(es.subrange(0, es.len() - 1)) + metas(es[es.len() - 1])
    }
}

/// Number of metavariables of a list of `(pattern, body)` branches.
pub open spec fn metas_branches(bs: Seq<(Expr, Expr)>) -> nat
    decreases bs,
{
    if bs.len() == 0 {
        0
    } else {
        metas_branches(bs.subrange(0, bs.len() - 1)) + metas(bs[bs.len() - 1].0) + metas(bs[bs.len() - 1].1)
    }
}

/// Number of metavariables of an optional type annotation.
pub open spec fn metas_opt(ty: Option<Box<Expr>>) -> nat {
    match ty {
        Some(x) => metas(*x),
        None => 0,
    }
}

/// Expressions of the calculus: no tuple and no pipe anywhere.
pub open spec fn cic_expr(e: Expr) -> bool
    decreases e,
{
    match e {
        Expr::Abs(_, a, b) => cic_expr(*a) && cic_expr(*b),
        Expr::Prod(_, a, b) => cic_expr(*a) && cic_expr(*b),
        Expr::Arrow(a, b) => cic_expr(*a) && cic_expr(*b),
        Expr::App(f, args) => cic_expr(*f) && forall|i: int| 0 <= i < args.len() ==> cic_expr(#[trigger] args[i]),
        Expr::Match(m, bs) => cic_expr(*m) && forall|i: int|
            0 <= i < bs.len() ==> cic_expr(#[trigger] bs[i].0) && cic_expr(bs[i].1),
        Expr::Let(_, ty, b, s) => {
            &&& match ty {
                Some(x) => cic_expr(*x),
                None => true,
            }
            &&& cic_expr(*b)
            &&& cic_expr(*s)
        },
        Expr::Tuple(_) => false,
        Expr::Pipe(_) => false,
        _ => true,
    }
}

/// The arguments of an application of the calculus belong to it.
pub proof fn lemma_cic_app(f: Expr, es: Seq<Expr>, i: int)
    requires
        cic_expr(Expr::App(Box::new(f), es)),
        0 <= i < es.len(),
    ensures
        cic_expr(es[i]),
{
    let t = Expr::App(Box::new(f), es);
    assert(t->App_1 == es);
    assert(t->App_1[i] == es[i]);
}

/// The patterns and bodies of a `match` of the calculus belong to it.
pub proof fn lemma_cic_match(m: Expr, bs: Seq<(Expr, Expr)>, i: int)
    requires
        cic_expr(Expr::Match(Box::new(m), bs)),
        0 <= i < bs.len(),
    ensures
        cic_expr(bs[i].0) && cic_expr(bs[i].1),
{
    let t = Expr::Match(Box::new(m), bs);
    assert(t->Match_1 == bs);
    assert(t->Match_1[i] == bs[i]);
}

/// The term a variable use stands for under `store`.
pub open spec fn spec_elab_var(n: Seq<char>, store: Seq<Seq<char>>) -> Term {
    if is_sort_name(n) {
        Term::Sort(n)
    } else {
        match spec_lookup(store, n) {
            Some(d) => Term::Var(n, NameKind::Bound(d as i32)),
            None => Term::Var(n, NameKind::Const()),
        }
    }
}

/// Elaboration of `e` under the binders `store`, its metavariables numbered
/// from `c` in the order they are met (left to right, outside in).
pub open spec fn spec_elab(e: Expr, store: Seq<Seq<char>>, c: int) -> Term
    decreases e,
{
    match e {
        Expr::VarUse(n) => spec_elab_var(n, store),
        Expr::Abs(n, a, b) => Term::Abs(
            n,
            Box::new(spec_elab(*a, store, c)),
            Box::new(spec_elab(*b, store.push(n), c + metas(*a))),
        ),
        Expr::Prod(n, a, b) => Term::Prod(
            n,
            Box::new(spec_elab(*a, store, c)),
            Box::new(spec_elab(*b, store.push(n), c + metas(*a))),
        ),
        Expr::Arrow(a, b) => Term::Prod(
            "_"@,
            Box::new(spec_elab(*a, store, c)),
            Box::new(spec_elab(*b, store.push("_"@), c + metas(*a))),
        ),
        Expr::App(f, args) => spec_apply_args(spec_elab(*f, store, c), spec_elab_args(args, store, c + metas(*f))),
        Expr::Match(m, bs) => spec_index(
            Term::Match(Box::new(spec_elab(*m, store, c)), spec_elab_branches(bs, store, c + metas(*m))),
            store,
        ),
        Expr::Let(n, ty, b, s) => Term::Let(
            n,
            match ty {
                Some(x) => Some(Box::new(spec_elab(*x, Seq::empty(), c))),
                None => None,
            },
            Box::new(spec_elab(*b, store, c + metas_opt(ty))),
            Box::new(spec_elab(*s, store.push(n), c + metas_opt(ty) + metas(*b))),
        ),
        Expr::Infer => Term::Meta(c as i32),
        _ => Term::Meta(0),
    }
}

/// Elaboration of a list of arguments, left to right.
pub open spec fn spec_elab_args(es: Seq<Expr>, store: Seq<Seq<char>>, c: int) -> Seq<Term>
    decreases es,
{
    if es.len() == 0 {
        Seq::empty()
    } else {
        let init = es.subrange(0, es.len() - 1);
        spec_elab_args(init, store, c).push(spec_elab(es[es.len() - 1], store, c + metas_seq(init)))
    }
}

/// Elaboration of a list of branches, each pattern before its body.
pub open spec fn spec_elab_branches(bs: Seq<(Expr, Expr)>, store: Seq<Seq<char>>, c: int) -> Seq<(Term, Term)>
    decreases bs,
{
    if bs.len() == 0 {
        Seq::empty()
    } else {
        let init = bs.subrange(0, bs.len() - 1);
        let k = c + metas_branches(init);
        let last = bs[bs.len() - 1];
        spec_elab_branches(init, store, c).push((spec_elab(last.0, store, k), spec_elab(last.1, store, k + metas(last.0))))
    }
}

/// `true` iff `var_name` names a sort.
fn is_sort(var_name: &str) -> (r: bool)
    ensures
        r == is_sort_name(var_name@),
{
    let n = var_name.unicode_len();
    if n <= 1 {
        return false;
    }
    let mut i: usize = 0;
    while i < n
        invariant
            n == var_name@.len(),
            i <= n,
            forall|j: int| 0 <= j < i ==> 'A' <= #[trigger] var_name@[j] && var_name@[j] <= 'Z',
        decreases n - i,
    {
        let c = var_name.get_char(i);
        if !('A' <= c && c <= 'Z') {
            return false;
        }
        i = i + 1;
    }
    true
}

/// The term a use of `var_name` stands for under `store`: a sort, a bound
/// variable, or a constant.
pub fn elaborate_var_use(var_name: &str, store: &ElabStore) -> (r: CicTerm)
    ensures
        r@ == spec_elab_var(var_name@, store@),
{
    if is_sort(var_name) {
        CicTerm::Sort(String::from_str(var_name))
    } else {
        match store.lookup_dbi(var_name) {
            Some(index) => CicTerm::Variable(String::from_str(var_name), NameKind::Bound(index)),
            None => CicTerm::Variable(String::from_str(var_name), NameKind::Const()),
        }
    }
}

/// Elaborates the expression `ast` under the binders of `store` into a term;
/// each `_` becomes a fresh metavariable numbered from `next_meta`.
pub fn elaborate_expression_rec(ast: &Expression, store: &ElabStore, next_meta: &mut i32) -> (r: CicTerm)
    requires
        cic_expr(ast@),
        *old(next_meta) + metas(ast@) <= i32::MAX,
    ensures
        r@ == spec_elab(ast@, store@, *old(next_meta) as int),
        *final(next_meta) == *old(next_meta) + metas(ast@),
    decreases ast,
{
    match ast {
        Expression::VarUse(var_name) => elaborate_var_use(var_name.as_str(), store),
        Expression::Abstraction(var_name, var_type, body) => {
            let var_type_term = elaborate_expression_rec(var_type, store, next_meta);
            let inner = store.push_name(var_name.as_str());
            let body_term = elaborate_expression_rec(body, &inner, next_meta);
            CicTerm::Abstraction(var_name.clone(), Box::new(var_type_term), Box::new(body_term))
        },
        Expression::TypeProduct(var_name, var_type, body) => {
            let type_term = elaborate_expression_rec(var_type, store, next_meta);
            let inner = store.push_name(var_name.as_str());
            let body_term = elaborate_expression_rec(body, &inner, next_meta);
            CicTerm::Product(var_name.clone(), Box::new(type_term), Box::new(body_term))
        },
        Expression::Arrow(domain, codomain) => {
            // an arrow is a product over the anonymous variable `_`
            let type_term = elaborate_expression_rec(domain, store, next_meta);
            let inner = store.push_name("_");
            let body_term = elaborate_expression_rec(codomain, &inner, next_meta);
            CicTerm::Product(String::from_str("_"), Box::new(type_term), Box::new(body_term))
        },
        Expression::Application(function, args) => {
            let ghost c0 = *next_meta as int;
            let ghost vargs = view_exprs(args@);
            proof {
                lemma_application_view(**function, *args);
            }
            let mut application = elaborate_expression_rec(function, store, next_meta);
            let ghost f_term = application@;
            let mut i: usize = 0;
            while i < args.len()
                invariant
                    *ast == Expression::Application(*function, *args),
                    ast@ == Expr::App(Box::new(function@), vargs),
                    vargs == view_exprs(args@),
                    cic_expr(ast@),
                    c0 + metas(ast@) <= i32::MAX,
                    metas(ast@) == metas(function@) + metas_seq(vargs),
                    i <= args@.len(),
                    *next_meta == c0 + metas(function@) + metas_seq(vargs.subrange(0, i as int)),
                    application@ == spec_apply_args(
                        f_term,
                        spec_elab_args(vargs.subrange(0, i as int), store@, c0 + metas(function@)),
                    ),
                decreases args@.len() - i,
            {
                proof {
                    assert(decreases_to!(*ast => (*ast)->Application_1));
                    assert(decreases_to!(*args => args@));
                    assert(decreases_to!(args@ => args@[i as int]));
                    let pre = vargs.subrange(0, i + 1);
                    assert(pre.subrange(0, i as int) =~= vargs.subrange(0, i as int));
                    assert(pre[i as int] == args@[i as int]@);
                    assert(cic_expr(vargs[i as int]));
                    lemma_metas_seq_prefix(vargs, i as int);
                }
                let arg = elaborate_expression_rec(&args[i], store, next_meta);
                proof {
                    let cf = c0 + metas(function@);
                    let pre = vargs.subrange(0, i + 1);
                    let done = spec_elab_args(vargs.subrange(0, i as int), store@, cf);
                    assert(spec_elab_args(pre, store@, cf) == done.push(arg@));
                    assert(done.push(arg@).drop_last() =~= done);
                }
                application = CicTerm::Application(Box::new(application), Box::new(arg));
                i = i + 1;
            }
            proof {
                assert(vargs.subrange(0, args@.len() as int) =~= vargs);
            }
            application
        },
        Expression::Let(var_name, var_type, body, scope) => {
            let ghost c0 = *next_meta as int;
            let elaborated_type = match &**var_type {
                Some(type_exp) => {
                    let empty = ElabStore::empty();
                    Some(elaborate_expression_rec(type_exp, &empty, next_meta))
                },
                None => None,
            };
            let body_term = elaborate_expression_rec(body, store, next_meta);
            let inner = store.push_name(var_name.as_str());
            let scope_term = elaborate_expression_rec(scope, &inner, next_meta);
            CicTerm::Let(var_name.clone(), Box::new(elaborated_type), Box::new(body_term), Box::new(scope_term))
        },
        Expression::Match(matched_exp, branches) => {
            let ghost c0 = *next_meta as int;
            let ghost vbs = view_expr_branches(branches@);
            proof {
                lemma_match_expr_view(**matched_exp, *branches);
            }
            let matched_term = elaborate_expression_rec(matched_exp, store, next_meta);
            let mut branch_terms: Vec<(CicTerm, CicTerm)> = Vec::new();
            let mut i: usize = 0;
            while i < branches.len()
                invariant
                    *ast == Expression::Match(*matched_exp, *branches),
                    ast@ == Expr::Match(Box::new(matched_exp@), vbs),
                    vbs == view_expr_branches(branches@),
                    cic_expr(ast@),
                    c0 + metas(ast@) <= i32::MAX,
                    metas(ast@) == metas(matched_exp@) + metas_branches(vbs),
                    i <= branches@.len(),
                    *next_meta == c0 + metas(matched_exp@) + metas_branches(vbs.subrange(0, i as int)),
                    view_branches(branch_terms@) == spec_elab_branches(
                        vbs.subrange(0, i as int),
                        store@,
                        c0 + metas(matched_exp@),
                    ),
                decreases branches@.len() - i,
            {
                proof {
                    assert(decreases_to!(*ast => (*ast)->Match_1));
                    assert(decreases_to!(*branches => branches@));
                    assert(decreases_to!(branches@ => branches@[i as int]));
                    let pre = vbs.subrange(0, i + 1);
                    assert(pre.subrange(0, i as int) =~= vbs.subrange(0, i as int));
                    assert(pre[i as int] == (branches@[i as int].0@, branches@[i as int].1@));
                    assert(cic_expr(vbs[i as int].0) && cic_expr(vbs[i as int].1));
                    lemma_metas_branches_prefix(vbs, i as int);
                }
                let pattern = elaborate_expression_rec(&branches[i].0, store, next_meta);
                let body_term = elaborate_expression_rec(&branches[i].1, store, next_meta);
                let ghost before = branch_terms@;
                branch_terms.push((pattern, body_term));
                proof {
                    assert(view_branches(branch_terms@) =~= view_branches(before).push((pattern@, body_term@)));
                }
                i = i + 1;
            }
            proof {
                assert(vbs.subrange(0, branches@.len() as int) =~= vbs);
                lemma_match_view(matched_term, branch_terms);
            }
            // the pattern arguments bind over the pattern and its body
            let unindexed = CicTerm::Match(Box::new(matched_term), branch_terms);
            index_variables_in_store(&unindexed, store)
        },
        Expression::Inferator() => {
            let index = *next_meta;
            *next_meta = *next_meta + 1;
            CicTerm::Meta(index)
        },
        Expression::Tuple(_) => {
            proof {
                assert(false);
            }
            CicTerm::Meta(0)
        },
        Expression::Pipe(_) => {
            proof {
                assert(false);
            }
            CicTerm::Meta(0)
        },
    }
}

/// The metavariable count of a prefix grows by the next element.
pub proof fn lemma_metas_seq_prefix(es: Seq<Expr>, i: int)
    requires
        0 <= i < es.len(),
    ensures
        metas_seq(es.subrange(0, i + 1)) == metas_seq(es.subrange(0, i)) + metas(es[i]),
        metas_seq(es.subrange(0, i + 1)) <= metas_seq(es),
{
    let pre = es.subrange(0, i + 1);
    assert(pre.subrange(0, pre.len() - 1) =~= es.subrange(0, i));
    lemma_metas_seq_mono(es, i + 1);
}

/// The metavariable count of a prefix is at most that of the whole list.
pub proof fn lemma_metas_seq_mono(es: Seq<Expr>, i: int)
    requires
        0 <= i <= es.len(),
    ensures
        metas_seq(es.subrange(0, i)) <= metas_seq(es),
    decreases es.len() - i,
{
    if i == es.len() {
        assert(es.subrange(0, i) =~= es);
    } else {
        let init = es.subrange(0, es.len() - 1);
        lemma_metas_seq_mono(init, i);
        assert(init.subrange(0, i) =~= es.subrange(0, i));
    }
}

/// The metavariable count of a branch prefix grows by the next branch.
pub proof fn lemma_metas_branches_prefix(bs: Seq<(Expr, Expr)>, i: int)
    requires
        0 <= i < bs.len(),
    ensures
        metas_branches(bs.subrange(0, i + 1)) == metas_branches(bs.subrange(0, i)) + metas(bs[i].0) + metas(bs[i].1),
        metas_branches(bs.subrange(0, i + 1)) <= metas_branches(bs),
{
    let pre = bs.subrange(0, i + 1);
    assert(pre.subrange(0, pre.len() - 1) =~= bs.subrange(0, i));
    lemma_metas_branches_mono(bs, i + 1);
}

/// The metavariable count of a branch prefix is at most that of all branches.
pub proof fn lemma_metas_branches_mono(bs: Seq<(Expr, Expr)>, i: int)
    requires
        0 <= i <= bs.len(),
    ensures
        metas_branches(bs.subrange(0, i)) <= metas_branches(bs),
    decreases bs.len() - i,
{
    if i == bs.len() {
        assert(bs.subrange(0, i) =~= bs);
    } else {
        let init = bs.subrange(0, bs.len() - 1);
        lemma_metas_branches_mono(init, i);
        assert(init.subrange(0, i) =~= bs.subrange(0, i));
    }
}

/// Every metavariable of `t` has an index in `[lo, hi)`.
pub open spec fn metas_within(t: Term, lo: int, hi: int) -> bool
    decreases t,
{
    match t {
        Term::Meta(i) => lo <= i < hi,
        Term::Abs(_, a, b) => metas_within(*a, lo, hi) && metas_within(*b, lo, hi),
        Term::Prod(_, a, b) => metas_within(*a, lo, hi) && metas_within(*b, lo, hi),
        Term::App(l, r) => metas_within(*l, lo, hi) && metas_within(*r, lo, hi),
        Term::Match(m, bs) => metas_within(*m, lo, hi) && forall|i: int|
            0 <= i < bs.len() ==> metas_within(#[trigger] bs[i].0, lo, hi) && metas_within(bs[i].1, lo, hi),
        Term::Let(_, ty, b, s) => {
            &&& match ty {
                Some(x) => metas_within(*x, lo, hi),
                None => true,
            }
            &&& metas_within(*b, lo, hi)
            &&& metas_within(*s, lo, hi)
        },
        _ => true,
    }
}

proof fn lemma_within_widen(t: Term, lo: int, hi: int, lo2: int, hi2: int)
    requires
        metas_within(t, lo, hi),
        lo2 <= lo,
        hi <= hi2,
    ensures
        metas_within(t, lo2, hi2),
    decreases t,
{
    match t {
        Term::Abs(_, a, b) => {
            lemma_within_widen(*a, lo, hi, lo2, hi2);
            lemma_within_widen(*b, lo, hi, lo2, hi2);
        },
        Term::Prod(_, a, b) => {
            lemma_within_widen(*a, lo, hi, lo2, hi2);
            lemma_within_widen(*b, lo, hi, lo2, hi2);
        },
        Term::App(l, r) => {
            lemma_within_widen(*l, lo, hi, lo2, hi2);
            lemma_within_widen(*r, lo, hi, lo2, hi2);
        },
        Term::Match(m, bs) => {
            lemma_within_widen(*m, lo, hi, lo2, hi2);
            assert forall|i: int| 0 <= i < bs.len() implies metas_within(#[trigger] bs[i].0, lo2, hi2) && metas_within(
                bs[i].1,
                lo2,
                hi2,
            ) by {
                assert(decreases_to!(t => t->Match_1));
                assert(t->Match_1[i] == bs[i]);
                lemma_within_widen(bs[i].0, lo, hi, lo2, hi2);
                lemma_within_widen(bs[i].1, lo, hi, lo2, hi2);
            }
        },
        Term::Let(_, ty, b, s) => {
            if let Some(x) = ty {
                lemma_within_widen(*x, lo, hi, lo2, hi2);
            }
            lemma_within_widen(*b, lo, hi, lo2, hi2);
            lemma_within_widen(*s, lo, hi, lo2, hi2);
        },
        _ => {},
    }
}

proof fn lemma_index_within(t: Term, store: Seq<Seq<char>>, lo: int, hi: int)
    requires
        metas_within(t, lo, hi),
    ensures
        metas_within(spec_index(t, store), lo, hi),
    decreases t,
{
    match t {
        Term::Abs(n, a, b) => {
            lemma_index_within(*a, store, lo, hi);
            lemma_index_within(*b, store.push(n), lo, hi);
        },
        Term::Prod(n, a, b) => {
            lemma_index_within(*a, store, lo, hi);
            lemma_index_within(*b, store.push(n), lo, hi);
        },
        Term::App(l, r) => {
            lemma_index_within(*l, store, lo, hi);
            lemma_index_within(*r, store, lo, hi);
        },
        Term::Match(m, bs) => {
            lemma_index_within(*m, store, lo, hi);
            let r = spec_index(t, store);
            assert forall|i: int| 0 <= i < bs.len() implies metas_within(#[trigger] r->Match_1[i].0, lo, hi)
                && metas_within(r->Match_1[i].1, lo, hi) by {
                assert(decreases_to!(t => t->Match_1));
                assert(t->Match_1[i] == bs[i]);
                lemma_index_within(bs[i].0, store + spec_pattern_binder_names(bs[i].0), lo, hi);
                lemma_index_within(bs[i].1, store + spec_pattern_binder_names(bs[i].0), lo, hi);
            }
        },
        Term::Let(n, ty, b, s) => {
            if let Some(x) = ty {
                lemma_index_within(*x, store.push(n), lo, hi);
            }
            lemma_index_within(*b, store, lo, hi);
            lemma_index_within(*s, store.push(n), lo, hi);
        },
        _ => {},
    }
}

proof fn lemma_apply_args_within(f: Term, args: Seq<Term>, lo: int, hi: int)
    requires
        metas_within(f, lo, hi),
        forall|i: int| 0 <= i < args.len() ==> metas_within(#[trigger] args[i], lo, hi),
    ensures
        metas_within(spec_apply_args(f, args), lo, hi),
    decreases args.len(),
{
    if args.len() > 0 {
        lemma_apply_args_within(f, args.drop_last(), lo, hi);
        assert(metas_within(args[args.len() - 1], lo, hi));
    }
}

proof fn lemma_elab_args_within(es: Seq<Expr>, store: Seq<Seq<char>>, c: int)
    requires
        forall|i: int| 0 <= i < es.len() ==> cic_expr(#[trigger] es[i]),
        0 <= c,
        c + metas_seq(es) <= i32::MAX,
    ensures
        spec_elab_args(es, store, c).len() == es.len(),
        forall|i: int|
            0 <= i < es.len() ==> metas_within(#[trigger] spec_elab_args(es, store, c)[i], c, c + metas_seq(es)),
    decreases es,
{
    if es.len() > 0 {
        let init = es.subrange(0, es.len() - 1);
        let last = es[es.len() - 1];
        assert forall|i: int| 0 <= i < init.len() implies cic_expr(#[trigger] init[i]) by {
            assert(init[i] == es[i]);
        }
        assert(decreases_to!(es => es[es.len() - 1]));
        lemma_elab_args_within(init, store, c);
        law_elaboration_numbers_fresh(last, store, c + metas_seq(init));
        let out = spec_elab_args(es, store, c);
        assert forall|i: int| 0 <= i < es.len() implies metas_within(#[trigger] out[i], c, c + metas_seq(es)) by {
            if i < init.len() {
                lemma_within_widen(spec_elab_args(init, store, c)[i], c, c + metas_seq(init), c, c + metas_seq(es));
            } else {
                lemma_within_widen(
                    spec_elab(last, store, c + metas_seq(init)),
                    c + metas_seq(init),
                    c + metas_seq(init) + metas(last),
                    c,
                    c + metas_seq(es),
                );
            }
        }
    }
}

proof fn lemma_elab_branches_within(bs: Seq<(Expr, Expr)>, store: Seq<Seq<char>>, c: int)
    requires
        forall|i: int| 0 <= i < bs.len() ==> cic_expr(#[trigger] bs[i].0) && cic_expr(bs[i].1),
        0 <= c,
        c + metas_branches(bs) <= i32::MAX,
    ensures
        spec_elab_branches(bs, store, c).len() == bs.len(),
        forall|i: int|
            0 <= i < bs.len() ==> metas_within(#[trigger] spec_elab_branches(bs, store, c)[i].0, c, c + metas_branches(bs))
                && metas_within(spec_elab_branches(bs, store, c)[i].1, c, c + metas_branches(bs)),
    decreases bs,
{
    if bs.len() > 0 {
        let init = bs.subrange(0, bs.len() - 1);
        let last = bs[bs.len() - 1];
        let k = c + metas_branches(init);
        assert forall|i: int| 0 <= i < init.len() implies cic_expr(#[trigger] init[i].0) && cic_expr(init[i].1) by {
            assert(init[i] == bs[i]);
        }
        assert(decreases_to!(bs => bs[bs.len() - 1]));
        lemma_elab_branches_within(init, store, c);
        law_elaboration_numbers_fresh(last.0, store, k);
        law_elaboration_numbers_fresh(last.1, store, k + metas(last.0));
        let hi = c + metas_branches(bs);
        let out = spec_elab_branches(bs, store, c);
        assert forall|i: int| 0 <= i < bs.len() implies metas_within(#[trigger] out[i].0, c, hi) && metas_within(
            out[i].1,
            c,
            hi,
        ) by {
            if i < init.len() {
                let o = spec_elab_branches(init, store, c)[i];
                lemma_within_widen(o.0, c, c + metas_branches(init), c, hi);
                lemma_within_widen(o.1, c, c + metas_branches(init), c, hi);
            } else {
                lemma_within_widen(spec_elab(last.0, store, k), k, k + metas(last.0), c, hi);
                lemma_within_widen(
                    spec_elab(last.1, store, k + metas(last.0)),
                    k + metas(last.0),
                    k + metas(last.0) + metas(last.1),
                    c,
                    hi,
                );
            }
        }
    }
}

/// Elaborating numbers fresh metavariables: every metavariable of the term
/// elaborated from `e` with the counter at `c` is numbered in
/// `[c, c + metas(e))`, so an elaboration that starts where the one before
/// it left the counter never reuses one of its numbers.
pub proof fn law_elaboration_numbers_fresh(e: Expr, store: Seq<Seq<char>>, c: int)
    requires
        cic_expr(e),
        0 <= c,
        c + metas(e) <= i32::MAX,
    ensures
        metas_within(spec_elab(e, store, c), c, c + metas(e)),
    decreases e,
{
    let hi = c + metas(e);
    match e {
        Expr::Abs(n, a, b) => {
            law_elaboration_numbers_fresh(*a, store, c);
            law_elaboration_numbers_fresh(*b, store.push(n), c + metas(*a));
            lemma_within_widen(spec_elab(*a, store, c), c, c + metas(*a), c, hi);
            lemma_within_widen(spec_elab(*b, store.push(n), c + metas(*a)), c + metas(*a), hi, c, hi);
        },
        Expr::Prod(n, a, b) => {
            law_elaboration_numbers_fresh(*a, store, c);
            law_elaboration_numbers_fresh(*b, store.push(n), c + metas(*a));
            lemma_within_widen(spec_elab(*a, store, c), c, c + metas(*a), c, hi);
            lemma_within_widen(spec_elab(*b, store.push(n), c + metas(*a)), c + metas(*a), hi, c, hi);
        },
        Expr::Arrow(a, b) => {
            law_elaboration_numbers_fresh(*a, store, c);
            law_elaboration_numbers_fresh(*b, store.push("_"@), c + metas(*a));
            lemma_within_widen(spec_elab(*a, store, c), c, c + metas(*a), c, hi);
            lemma_within_widen(spec_elab(*b, store.push("_"@), c + metas(*a)), c + metas(*a), hi, c, hi);
        },
        Expr::App(f, args) => {
            law_elaboration_numbers_fresh(*f, store, c);
            lemma_within_widen(spec_elab(*f, store, c), c, c + metas(*f), c, hi);
            assert forall|i: int| 0 <= i < args.len() implies cic_expr(#[trigger] args[i]) by {
                assert(decreases_to!(e => e->App_1));
                assert(e->App_1[i] == args[i]);
            }
            assert forall|i: int| 0 <= i < args.len() implies decreases_to!(e => #[trigger] args[i]) by {
                assert(decreases_to!(e => e->App_1));
                assert(e->App_1[i] == args[i]);
            }
            assert(decreases_to!(e => e->App_1));
            lemma_elab_args_within(args, store, c + metas(*f));
            let out = spec_elab_args(args, store, c + metas(*f));
            assert forall|i: int| 0 <= i < out.len() implies metas_within(#[trigger] out[i], c, hi) by {
                lemma_within_widen(out[i], c + metas(*f), hi, c, hi);
            }
            lemma_apply_args_within(spec_elab(*f, store, c), out, c, hi);
        },
        Expr::Match(m, bs) => {
            law_elaboration_numbers_fresh(*m, store, c);
            lemma_within_widen(spec_elab(*m, store, c), c, c + metas(*m), c, hi);
            assert forall|i: int| 0 <= i < bs.len() implies cic_expr(#[trigger] bs[i].0) && cic_expr(bs[i].1) by {
                assert(e->Match_1[i] == bs[i]);
            }
            assert(decreases_to!(e => e->Match_1));
            lemma_elab_branches_within(bs, store, c + metas(*m));
            let out = spec_elab_branches(bs, store, c + metas(*m));
            assert forall|i: int| 0 <= i < out.len() implies metas_within(#[trigger] out[i].0, c, hi) && metas_within(
                out[i].1,
                c,
                hi,
            ) by {
                lemma_within_widen(out[i].0, c + metas(*m), hi, c, hi);
                lemma_within_widen(out[i].1, c + metas(*m), hi, c, hi);
            }
            let t = Term::Match(Box::new(spec_elab(*m, store, c)), out);
            assert(t->Match_1 == out);
            lemma_index_within(t, store, c, hi);
        },
        Expr::Let(n, ty, b, s) => {
            let k = c + metas_opt(ty);
            if let Some(x) = ty {
                law_elaboration_numbers_fresh(*x, Seq::empty(), c);
                lemma_within_widen(spec_elab(*x, Seq::empty(), c), c, c + metas(*x), c, hi);
            }
            law_elaboration_numbers_fresh(*b, store, k);
            law_elaboration_numbers_fresh(*s, store.push(n), k + metas(*b));
            lemma_within_widen(spec_elab(*b, store, k), k, k + metas(*b), c, hi);
            lemma_within_widen(spec_elab(*s, store.push(n), k + metas(*b)), k + metas(*b), hi, c, hi);
        },
        _ => {},
    }
}

/// Elaborates a closed expression into a term; its metavariables are numbered
/// from `next_meta` on, which is left past the last one used.
pub fn elaborate_expression(ast: &Expression, next_meta: &mut i32) -> (r: CicTerm)
    requires
        cic_expr(ast@),
        *old(next_meta) + metas(ast@) <= i32::MAX,
    ensures
        r@ == spec_elab(ast@, Seq::empty(), *old(next_meta) as int),
        *final(next_meta) == *old(next_meta) + metas(ast@),
{
    elaborate_expression_rec(ast, &ElabStore::empty(), next_meta)
}

/// Elaborates `λvar_name:var_type. body` under the binders of `store`.
pub fn elaborate_abstraction(var_name: &str, var_type: &Expression, body: &Expression, store: &ElabStore) -> (r: CicTerm)
    requires
        cic_expr(var_type@) && cic_expr(body@),
        metas(var_type@) + metas(body@) <= i32::MAX,
    ensures
        r@ == spec_elab(Expr::Abs(var_name@, Box::new(var_type@), Box::new(body@)), store@, 0),
{
    let mut next_meta: i32 = 0;
    let var_type_term = elaborate_expression_rec(var_type, store, &mut next_meta);
    let body_term = elaborate_expression_rec(body, &store.push_name(var_name), &mut next_meta);
    CicTerm::Abstraction(String::from_str(var_name), Box::new(var_type_term), Box::new(body_term))
}

/// Elaborates `Πvar_name:var_type. body` under the binders of `store`.
pub fn elaborate_type_product(var_name: &str, var_type: &Expression, body: &Expression, store: &ElabStore) -> (r: CicTerm)
    requires
        cic_expr(var_type@) && cic_expr(body@),
        metas(var_type@) + metas(body@) <= i32::MAX,
    ensures
        r@ == spec_elab(Expr::Prod(var_name@, Box::new(var_type@), Box::new(body@)), store@, 0),
{
    let mut next_meta: i32 = 0;
    let type_term = elaborate_expression_rec(var_type, store, &mut next_meta);
    let body_term = elaborate_expression_rec(body, &store.push_name(var_name), &mut next_meta);
    CicTerm::Product(String::from_str(var_name), Box::new(type_term), Box::new(body_term))
}

/// Elaborates `domain -> codomain`, a product over the anonymous variable `_`.
pub fn elaborate_arrow(domain: &Expression, codomain: &Expression, store: &ElabStore) -> (r: CicTerm)
    requires
        cic_expr(domain@) && cic_expr(codomain@),
        metas(domain@) + metas(codomain@) <= i32::MAX,
    ensures
        r@ == spec_elab(Expr::Arrow(Box::new(domain@), Box::new(codomain@)), store@, 0),
{
    elaborate_type_product("_", domain, codomain, store)
}

/// Elaborates the application of `function` to `args`, left associated.
pub fn elaborate_application(function: &Expression, args: &Vec<Expression>, store: &ElabStore) -> (r: CicTerm)
    requires
        cic_expr(Expr::App(Box::new(function@), view_exprs(args@))),
        metas(Expr::App(Box::new(function@), view_exprs(args@))) <= i32::MAX,
    ensures
        r@ == spec_elab(Expr::App(Box::new(function@), view_exprs(args@)), store@, 0),
{
    let f = copy_expression(function);
    let a = copy_expressions(args);
    proof {
        lemma_application_view(f, a);
    }
    let application = Expression::Application(Box::new(f), a);
    let mut next_meta: i32 = 0;
    elaborate_expression_rec(&application, store, &mut next_meta)
}

/// Elaborates `let var_name (: var_type) := body in scope`; the definition
/// body does not see the name it defines.
pub fn elaborate_let(
    var_name: &str,
    var_type: &Option<Expression>,
    body: &Expression,
    scope: &Expression,
    store: &ElabStore,
) -> (r: CicTerm)
    requires
        cic_expr(Expr::Let(var_name@, view_opt_expr(*var_type), Box::new(body@), Box::new(scope@))),
        metas(Expr::Let(var_name@, view_opt_expr(*var_type), Box::new(body@), Box::new(scope@))) <= i32::MAX,
    ensures
        r@ == spec_elab(Expr::Let(var_name@, view_opt_expr(*var_type), Box::new(body@), Box::new(scope@)), store@, 0),
{
    let ty = match var_type {
        Some(t) => Some(copy_expression(t)),
        None => None,
    };
    let e = Expression::Let(
        String::from_str(var_name),
        Box::new(ty),
        Box::new(copy_expression(body)),
        Box::new(copy_expression(scope)),
    );
    let mut next_meta: i32 = 0;
    elaborate_expression_rec(&e, store, &mut next_meta)
}

/// Elaborates a `match`; the arguments of each pattern bind over the pattern
/// and its branch body.
pub fn elaborate_match(matched_exp: &Expression, branches: &Vec<(Expression, Expression)>, store: &ElabStore) -> (r: CicTerm)
    requires
        cic_expr(Expr::Match(Box::new(matched_exp@), view_expr_branches(branches@))),
        metas(Expr::Match(Box::new(matched_exp@), view_expr_branches(branches@))) <= i32::MAX,
    ensures
        r@ == spec_elab(Expr::Match(Box::new(matched_exp@), view_expr_branches(branches@)), store@, 0),
{
    let m = copy_expression(matched_exp);
    let bs = copy_expression_branches(branches);
    proof {
        lemma_match_expr_view(m, bs);
    }
    let e = Expression::Match(Box::new(m), bs);
    let mut next_meta: i32 = 0;
    elaborate_expression_rec(&e, store, &mut next_meta)
}

/// Indexing keeps the names a pattern binds.
pub proof fn lemma_index_keeps_binder_names(t: Term, store: Seq<Seq<char>>)
    ensures
        spec_pattern_binder_names(spec_index(t, store)) == spec_pattern_binder_names(t),
        spec_arg_binder_names(spec_index(t, store)) == spec_arg_binder_names(t),
    decreases t,
{
    match t {
        Term::App(l, r) => {
            lemma_index_keeps_binder_names(*l, store);
            lemma_index_keeps_binder_names(*r, store);
        },
        _ => {},
    }
}

/// Indexing an indexed term under the same binders changes nothing: the
/// index of a variable depends on its name and the enclosing binders alone.
pub proof fn law_index_idempotent(t: Term, store: Seq<Seq<char>>)
    ensures
        spec_index(spec_index(t, store), store) == spec_index(t, store),
    decreases t,
{
    match t {
        Term::Abs(n, a, b) => {
            law_index_idempotent(*a, store);
            law_index_idempotent(*b, store.push(n));
        },
        Term::Prod(n, a, b) => {
            law_index_idempotent(*a, store);
            law_index_idempotent(*b, store.push(n));
        },
        Term::App(l, r) => {
            law_index_idempotent(*l, store);
            law_index_idempotent(*r, store);
        },
        Term::Let(n, ty, b, s) => {
            if let Some(x) = ty {
                law_index_idempotent(*x, store.push(n));
            }
            law_index_idempotent(*b, store);
            law_index_idempotent(*s, store.push(n));
        },
        Term::Match(m, bs) => {
            law_index_idempotent(*m, store);
            let once = spec_index(t, store);
            let obs = once->Match_1;
            assert forall|i: int| 0 <= i < bs.len() implies #[trigger] spec_index(once, store)->Match_1[i] == obs[i] by {
                let inner = store + spec_pattern_binder_names(bs[i].0);
                lemma_index_keeps_binder_names(bs[i].0, inner);
                assert(obs[i].0 == spec_index(bs[i].0, inner));
                law_index_idempotent(bs[i].0, inner);
                law_index_idempotent(bs[i].1, inner);
            }
            assert(spec_index(once, store)->Match_1 =~= obs);
        },
        _ => {},
    }
}

} // verus!
