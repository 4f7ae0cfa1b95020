use vstd::prelude::*;
use vstd::string::*;
use crate::parser::api::{
    copy_expression, lemma_application_view, lemma_match_expr_view, lemma_tuple_view,
    view_expr_branches, view_exprs, Expr, Expression,
};

verus! {

/// `e` with every use of the variable `x` replaced by `a`.
pub open spec fn subst_var(e: Expr, x: Seq<char>, a: Expr) -> Expr
    decreases e,
{
    match e {
        Expr::VarUse(y) => if y == x {
            a
        } else {
            Expr::VarUse(y)
        },
        Expr::Abs(y, t, b) => Expr::Abs(y, Box::new(subst_var(*t, x, a)), Box::new(subst_var(*b, x, a))),
        Expr::Prod(y, t, b) => Expr::Prod(y, Box::new(subst_var(*t, x, a)), Box::new(subst_var(*b, x, a))),
        Expr::Arrow(t, b) => Expr::Arrow(Box::new(subst_var(*t, x, a)), Box::new(subst_var(*b, x, a))),
        Expr::App(f, args) => Expr::App(Box::new(subst_var(*f, x, a)), subst_vars(args, x, a)),
        Expr::Match(m, bs) => Expr::Match(Box::new(subst_var(*m, x, a)), subst_branches(bs, x, a)),
        Expr::Infer => Expr::Infer,
        Expr::Tuple(v) => Expr::Tuple(subst_vars(v, x, a)),
        Expr::Pipe(v) => Expr::Pipe(subst_vars(v, x, a)),
        Expr::Let(y, t, b, sc) => Expr::Let(
            y,
            match t {
                Some(tt) => Some(Box::new(subst_var(*tt, x, a))),
                None => None,
            },
            Box::new(subst_var(*b, x, a)),
            Box::new(subst_var(*sc, x, a)),
        ),
    }
}

/// [`subst_var`] on each expression of `es`.
pub open spec fn subst_vars(es: Seq<Expr>, x: Seq<char>, a: Expr) -> Seq<Expr>
    decreases es,
{
    if es.len() == 0 {
        Seq::empty()
    } else {
        subst_vars(es.subrange(0, es.len() - 1), x, a).push(subst_var(es[es.len() - 1], x, a))
    }
}

/// [`subst_var`] on each pattern and body of `bs`.
pub open spec fn subst_branches(bs: Seq<(Expr, Expr)>, x: Seq<char>, a: Expr) -> Seq<(Expr, Expr)>
    decreases bs,
{
    if bs.len() == 0 {
        Seq::empty()
    } else {
        let last = bs[bs.len() - 1];
        subst_branches(bs.subrange(0, bs.len() - 1), x, a).push(
            (subst_var(last.0, x, a), subst_var(last.1, x, a)),
        )
    }
}

/// The body of a notation with its placeholders bound to `args`: the last
/// binding is applied first, so that of two bindings of one placeholder
/// the later one wins.
pub open spec fn expand(body: Expr, args: Seq<(Seq<char>, Expr)>) -> Expr
    decreases args.len(),
{
    if args.len() == 0 {
        body
    } else {
        expand(subst_var(body, args.last().0, args.last().1), args.drop_last())
    }
}

/// [`subst_var`], computed.
pub fn substitute(e: &Expression, x: &str, a: &Expression) -> (r: Expression)
    ensures
        r@ == subst_var(e@, x@, a@),
    decreases e,
{
    match e {
        Expression::VarUse(y) => {
            if crate::text::str_eq(y.as_str(), x) {
                copy_expression(a)
            } else {
                Expression::VarUse(y.clone())
            }
        },
        Expression::Abstraction(y, t, b) => Expression::Abstraction(
            y.clone(),
            Box::new(substitute(t, x, a)),
            Box::new(substitute(b, x, a)),
        ),
        Expression::TypeProduct(y, t, b) => Expression::TypeProduct(
            y.clone(),
            Box::new(substitute(t, x, a)),
            Box::new(substitute(b, x, a)),
        ),
        Expression::Arrow(t, b) => Expression::Arrow(Box::new(substitute(t, x, a)), Box::new(substitute(b, x, a))),
        Expression::Application(f, args) => {
            let f2 = substitute(f, x, a);
            let args2 = substitute_all(args, x, a);
            proof {
                lemma_application_view(**f, *args);
                lemma_application_view(f2, args2);
            }
            Expression::Application(Box::new(f2), args2)
        },
        Expression::Match(m, bs) => {
            let m2 = substitute(m, x, a);
            let bs2 = substitute_branches(bs, x, a);
            proof {
                lemma_match_expr_view(**m, *bs);
                lemma_match_expr_view(m2, bs2);
            }
            Expression::Match(Box::new(m2), bs2)
        },
        Expression::Inferator() => Expression::Inferator(),
        Expression::Tuple(v) => {
            let v2 = substitute_all(v, x, a);
            proof {
                lemma_tuple_view(*v);
                lemma_tuple_view(v2);
            }
            Expression::Tuple(v2)
        },
        Expression::Pipe(v) => {
            let v2 = substitute_all(v, x, a);
            proof {
                lemma_tuple_view(*v);
                lemma_tuple_view(v2);
            }
            Expression::Pipe(v2)
        },
        Expression::Let(y, t, b, sc) => {
            let t2: Option<Expression> = match &**t {
                Some(tt) => Some(substitute(tt, x, a)),
                None => None,
            };
            Expression::Let(y.clone(), Box::new(t2), Box::new(substitute(b, x, a)), Box::new(substitute(sc, x, a)))
        },
    }
}

/// [`subst_vars`], computed.
pub fn substitute_all(es: &Vec<Expression>, x: &str, a: &Expression) -> (r: Vec<Expression>)
    ensures
        view_exprs(r@) == subst_vars(view_exprs(es@), x@, a@),
    decreases es,
{
    let mut out: Vec<Expression> = Vec::new();
    let mut i: usize = 0;
    while i < es.len()
        invariant
            i <= es.len(),
            view_exprs(out@) == subst_vars(view_exprs(es@).subrange(0, i as int), x@, a@),
        decreases es.len() - i,
    {
        proof {
            assert(decreases_to!(es => es@[i as int]));
        }
        let e2 = substitute(&es[i], x, a);
        out.push(e2);
        proof {
            let pre = view_exprs(es@).subrange(0, i + 1);
            assert(pre.subrange(0, pre.len() - 1) =~= view_exprs(es@).subrange(0, i as int));
            assert(view_exprs(out@) =~= subst_vars(pre, x@, a@));
        }
        i = i + 1;
    }
    assert(view_exprs(es@).subrange(0, es.len() as int) =~= view_exprs(es@));
    out
}

/// [`subst_branches`], computed.
pub fn substitute_branches(bs: &Vec<(Expression, Expression)>, x: &str, a: &Expression) -> (r: Vec<(Expression, Expression)>)
    ensures
        view_expr_branches(r@) == subst_branches(view_expr_branches(bs@), x@, a@),
    decreases bs,
{
    let mut out: Vec<(Expression, Expression)> = Vec::new();
    let mut i: usize = 0;
    while i < bs.len()
        invariant
            i <= bs.len(),
            view_expr_branches(out@) == subst_branches(view_expr_branches(bs@).subrange(0, i as int), x@, a@),
        decreases bs.len() - i,
    {
        proof {
            assert(decreases_to!(bs => bs@[i as int]));
        }
        let p2 = substitute(&bs[i].0, x, a);
        let b2 = substitute(&bs[i].1, x, a);
        out.push((p2, b2));
        proof {
            let pre = view_expr_branches(bs@).subrange(0, i + 1);
            assert(pre.subrange(0, pre.len() - 1) =~= view_expr_branches(bs@).subrange(0, i as int));
            assert(view_expr_branches(out@) =~= subst_branches(pre, x@, a@));
        }
        i = i + 1;
    }
    assert(view_expr_branches(bs@).subrange(0, bs.len() as int) =~= view_expr_branches(bs@));
    out
}

/// [`expand`], computed: `args` are the placeholder bindings in pattern order.
pub fn expand_notation(body: &Expression, args: &Vec<(String, Expression)>) -> (r: Expression)
    ensures
        r@ == expand(body@, args@.map_values(|p: (String, Expression)| (p.0@, p.1@))),
{
    let ghost m = args@.map_values(|p: (String, Expression)| (p.0@, p.1@));
    let mut out = copy_expression(body);
    let mut i = args.len();
    assert(m.subrange(0, args.len() as int) =~= m);
    while i > 0
        invariant
            i <= args.len(),
            m == args@.map_values(|p: (String, Expression)| (p.0@, p.1@)),
            expand(body@, m) == expand(out@, m.subrange(0, i as int)),
        decreases i,
    {
        let ghost pre = m.subrange(0, i as int);
        assert(pre.last() == (args@[i - 1].0@, args@[i - 1].1@));
        assert(pre.drop_last() =~= m.subrange(0, i - 1));
        out = substitute(&out, args[i - 1].0.as_str(), &args[i - 1].1);
        i = i - 1;
    }
    assert(m.subrange(0, 0).len() == 0);
    out
}

} // verus!
