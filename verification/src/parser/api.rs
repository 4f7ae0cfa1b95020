use vstd::prelude::*;
use crate::config::Config;

verus! {

/// One of two alternatives.
#[derive(Debug, PartialEq, Clone)]
pub enum Union<A, B> {
    L(A),
    R(B),
}

/// Surface expressions of the language, as the parser produces them.
#[derive(Debug, PartialEq)]
pub enum Expression {
    VarUse(String),
    /// (var_name, var_type, function_body)
    Abstraction(String, Box<Expression>, Box<Expression>),
    /// (var_name, var_type, dependent_type)
    TypeProduct(String, Box<Expression>, Box<Expression>),
    /// (domain, codomain)
    Arrow(Box<Expression>, Box<Expression>),
    /// function, args
    Application(Box<Expression>, Vec<Expression>),
    /// (matched_term, [ branch: (pattern, body) ])
    Match(Box<Expression>, Vec<(Expression, Expression)>),
    /// infer operator, elaborated to a metavariable
    Inferator(),
    /// [conjunted terms]
    Tuple(Vec<Expression>),
    /// [disjunted types]
    Pipe(Vec<Expression>),
    /// (var_name, var_type, definition_body, scope)
    Let(String, Box<Option<Expression>>, Box<Expression>, Box<Expression>),
}

/// Mathematical model of an [`Expression`]: names are character sequences.
#[verifier::ext_equal]
pub enum Expr {
    VarUse(Seq<char>),
    Abs(Seq<char>, Box<Expr>, Box<Expr>),
    Prod(Seq<char>, Box<Expr>, Box<Expr>),
    Arrow(Box<Expr>, Box<Expr>),
    App(Box<Expr>, Seq<Expr>),
    Match(Box<Expr>, Seq<(Expr, Expr)>),
    Infer,
    Tuple(Seq<Expr>),
    Pipe(Seq<Expr>),
    Let(Seq<char>, Option<Box<Expr>>, Box<Expr>, Box<Expr>),
}

pub open spec fn view_expression(e: Expression) -> Expr
    decreases e,
{
    match e {
        Expression::VarUse(n) => Expr::VarUse(n@),
        Expression::Abstraction(n, a, b) => Expr::Abs(n@, Box::new(view_expression(*a)), Box::new(view_expression(*b))),
        Expression::TypeProduct(n, a, b) => Expr::Prod(n@, Box::new(view_expression(*a)), Box::new(view_expression(*b))),
        Expression::Arrow(a, b) => Expr::Arrow(Box::new(view_expression(*a)), Box::new(view_expression(*b))),
        Expression::Application(f, args) => Expr::App(
            Box::new(view_expression(*f)),
            Seq::new(args@.len(), |i: int| if 0 <= i < args@.len() { view_expression(args@[i]) } else { Expr::Infer }),
        ),
        Expression::Match(m, bs) => Expr::Match(
            Box::new(view_expression(*m)),
            Seq::new(
                bs@.len(),
                |i: int|
                    if 0 <= i < bs@.len() {
                        (view_expression(bs@[i].0), view_expression(bs@[i].1))
                    } else {
                        (Expr::Infer, Expr::Infer)
                    },
            ),
        ),
        Expression::Inferator() => Expr::Infer,
        Expression::Tuple(v) => Expr::Tuple(
            Seq::new(v@.len(), |i: int| if 0 <= i < v@.len() { view_expression(v@[i]) } else { Expr::Infer }),
        ),
        Expression::Pipe(v) => Expr::Pipe(
            Seq::new(v@.len(), |i: int| if 0 <= i < v@.len() { view_expression(v@[i]) } else { Expr::Infer }),
        ),
        Expression::Let(n, ty, b, s) => Expr::Let(
            n@,
            match *ty {
                Some(x) => Some(Box::new(view_expression(x))),
                None => None,
            },
            Box::new(view_expression(*b)),
            Box::new(view_expression(*s)),
        ),
    }
}

impl View for Expression {
    type V = Expr;

    open spec fn view(&self) -> Expr {
        view_expression(*self)
    }
}

/// The model of a sequence of expressions.
pub open spec fn view_exprs(v: Seq<Expression>) -> Seq<Expr> {
    Seq::new(v.len(), |i: int| if 0 <= i < v.len() { v[i]@ } else { Expr::Infer })
}

/// The model of a sequence of `(pattern, body)` branches.
pub open spec fn view_expr_branches(bs: Seq<(Expression, Expression)>) -> Seq<(Expr, Expr)> {
    Seq::new(bs.len(), |i: int| if 0 <= i < bs.len() { (bs[i].0@, bs[i].1@) } else { (Expr::Infer, Expr::Infer) })
}

/// The model of an optional expression.
pub open spec fn view_opt_expr(o: Option<Expression>) -> Option<Box<Expr>> {
    match o {
        Some(x) => Some(Box::new(x@)),
        None => None,
    }
}

pub proof fn lemma_application_view(f: Expression, args: Vec<Expression>)
    ensures
        Expression::Application(Box::new(f), args)@ == Expr::App(Box::new(f@), view_exprs(args@)),
{
    assert(view_exprs(args@) =~= (Expression::Application(Box::new(f), args)@)->App_1);
}

pub proof fn lemma_match_expr_view(m: Expression, bs: Vec<(Expression, Expression)>)
    ensures
        Expression::Match(Box::new(m), bs)@ == Expr::Match(Box::new(m@), view_expr_branches(bs@)),
{
    assert(view_expr_branches(bs@) =~= (Expression::Match(Box::new(m), bs)@)->Match_1);
}

pub proof fn lemma_tuple_view(v: Vec<Expression>)
    ensures
        Expression::Tuple(v)@ == Expr::Tuple(view_exprs(v@)),
        Expression::Pipe(v)@ == Expr::Pipe(view_exprs(v@)),
{
    assert(view_exprs(v@) =~= (Expression::Tuple(v)@)->Tuple_0);
    assert(view_exprs(v@) =~= (Expression::Pipe(v)@)->Pipe_0);
}

impl Clone for Expression {
    fn clone(&self) -> (r: Self)
        ensures
            r@ == self@,
    {
        copy_expression(self)
    }
}

/// A deep copy of `e`.
pub fn copy_expression(e: &Expression) -> (r: Expression)
    ensures
        r@ == e@,
    decreases e,
{
    match e {
        Expression::VarUse(n) => Expression::VarUse(n.clone()),
        Expression::Abstraction(n, a, b) => Expression::Abstraction(
            n.clone(),
            Box::new(copy_expression(a)),
            Box::new(copy_expression(b)),
        ),
        Expression::TypeProduct(n, a, b) => Expression::TypeProduct(
            n.clone(),
            Box::new(copy_expression(a)),
            Box::new(copy_expression(b)),
        ),
        Expression::Arrow(a, b) => Expression::Arrow(Box::new(copy_expression(a)), Box::new(copy_expression(b))),
        Expression::Application(f, args) => {
            let f2 = copy_expression(f);
            let args2 = copy_expressions(args);
            proof {
                lemma_application_view(f2, args2);
                lemma_application_view(**f, *args);
            }
            Expression::Application(Box::new(f2), args2)
        },
        Expression::Match(m, bs) => {
            let m2 = copy_expression(m);
            let bs2 = copy_expression_branches(bs);
            proof {
                lemma_match_expr_view(m2, bs2);
                lemma_match_expr_view(**m, *bs);
            }
            Expression::Match(Box::new(m2), bs2)
        },
        Expression::Inferator() => Expression::Inferator(),
        Expression::Tuple(v) => {
            let v2 = copy_expressions(v);
            proof {
                lemma_tuple_view(v2);
                lemma_tuple_view(*v);
            }
            Expression::Tuple(v2)
        },
        Expression::Pipe(v) => {
            let v2 = copy_expressions(v);
            proof {
                lemma_tuple_view(v2);
                lemma_tuple_view(*v);
            }
            Expression::Pipe(v2)
        },
        Expression::Let(n, ty, b, s) => {
            let ty2 = match &**ty {
                Some(x) => Some(copy_expression(x)),
                None => None,
            };
            Expression::Let(n.clone(), Box::new(ty2), Box::new(copy_expression(b)), Box::new(copy_expression(s)))
        },
    }
}

/// A deep copy of a list of expressions.
pub fn copy_expressions(v: &Vec<Expression>) -> (r: Vec<Expression>)
    ensures
        view_exprs(r@) == view_exprs(v@),
    decreases v,
{
    let mut out: Vec<Expression> = Vec::new();
    let mut i: usize = 0;
    while i < v.len()
        invariant
            i <= v@.len(),
            out@.len() == i,
            forall|j: int| 0 <= j < i ==> (#[trigger] out@[j])@ == v@[j]@,
        decreases v@.len() - i,
    {
        proof {
            assert(decreases_to!(v => v@));
            assert(decreases_to!(v@ => v@[i as int]));
        }
        out.push(copy_expression(&v[i]));
        i = i + 1;
    }
    assert(view_exprs(out@) =~= view_exprs(v@));
    out
}

/// A deep copy of a list of `(pattern, body)` branches.
pub fn copy_expression_branches(bs: &Vec<(Expression, Expression)>) -> (r: Vec<(Expression, Expression)>)
    ensures
        view_expr_branches(r@) == view_expr_branches(bs@),
    decreases bs,
{
    let mut out: Vec<(Expression, Expression)> = Vec::new();
    let mut i: usize = 0;
    while i < bs.len()
        invariant
            i <= bs@.len(),
            out@.len() == i,
            forall|j: int| 0 <= j < i ==> (#[trigger] out@[j]).0@ == bs@[j].0@ && out@[j].1@ == bs@[j].1@,
        decreases bs@.len() - i,
    {
        proof {
            assert(decreases_to!(bs => bs@));
            assert(decreases_to!(bs@ => bs@[i as int]));
        }
        out.push((copy_expression(&bs[i].0), copy_expression(&bs[i].1)));
        i = i + 1;
    }
    assert(view_expr_branches(out@) =~= view_expr_branches(bs@));
    out
}

/// Steps of an interactive proof.
#[derive(Debug, PartialEq)]
pub enum Tactic<E> {
    Begin(),
    Qed(),
    Intro(String, E),
    Exact(E),
    Apply(E),
    Induction(String),
}

/// Mathematical model of a [`Tactic`].
pub enum Tac<V> {
    Begin,
    Qed,
    Intro(Seq<char>, V),
    Exact(V),
    Apply(V),
    Induction(Seq<char>),
}

impl<E: View> View for Tactic<E> {
    type V = Tac<E::V>;

    open spec fn view(&self) -> Tac<E::V> {
        match self {
            Tactic::Begin() => Tac::Begin,
            Tactic::Qed() => Tac::Qed,
            Tactic::Intro(n, e) => Tac::Intro(n@, e@),
            Tactic::Exact(e) => Tac::Exact(e@),
            Tactic::Apply(e) => Tac::Apply(e@),
            Tactic::Induction(n) => Tac::Induction(n@),
        }
    }
}

/// A deep copy of a tactic over expressions.
pub fn copy_tactic(t: &Tactic<Expression>) -> (r: Tactic<Expression>)
    ensures
        r@ == t@,
{
    match t {
        Tactic::Begin() => Tactic::Begin(),
        Tactic::Qed() => Tactic::Qed(),
        Tactic::Intro(n, e) => Tactic::Intro(n.clone(), copy_expression(e)),
        Tactic::Exact(e) => Tactic::Exact(copy_expression(e)),
        Tactic::Apply(e) => Tactic::Apply(copy_expression(e)),
        Tactic::Induction(n) => Tactic::Induction(n.clone()),
    }
}

/// Top level statements of the language.
#[derive(Debug, PartialEq)]
pub enum Statement {
    Comment(),
    FileRoot(String, Vec<LofAst>),
    DirRoot(String, Vec<LofAst>),
    EmptyRoot(Vec<LofAst>),
    Axiom(String, Box<Expression>),
    /// (theorem_name, formula, proof)
    Theorem(String, Expression, Union<Expression, Vec<Tactic<Expression>>>),
    /// (var_name, var_type, definition_body)
    Global(String, Option<Expression>, Expression),
    /// (fun_name, args, out_type, body, is_rec)
    Fun(String, Vec<(String, Expression)>, Box<Expression>, Box<Expression>, bool),
    /// type_name, [(param_name : param_type)], ariety, [( constr_name, constr_type )]
    Inductive(String, Vec<(String, Expression)>, Box<Expression>, Vec<(String, Expression)>),
    Auto(Expression),
    /// formulas
    Solve(Vec<Expression>),
    /// head, [subgoals]
    HClause(Expression, Vec<Expression>),
    /// (equivalence_name, type_a, type_b, forward, backward, section,
    /// retraction, dep_elim, opt_eta, dep_constr entries, iota entries)
    Equivalence(
        String,
        Box<Expression>,
        Box<Expression>,
        Box<Expression>,
        Box<Expression>,
        Box<Expression>,
        Box<Expression>,
        Box<Expression>,
        Option<Box<Expression>>,
        Vec<(String, Expression)>,
        Vec<(String, Expression)>,
    ),
    /// (new_name, new_formula_or_type, old_name, equivalence_name)
    Transport(String, Box<Expression>, String, String),
}

/// A node of the syntax tree: a statement or an expression.
#[derive(Debug, PartialEq)]
pub enum LofAst {
    Stm(Statement),
    Exp(Expression),
}

/// A user defined notation: the tokens of its pattern and the expression it stands for.
#[derive(Debug)]
pub struct Notation {
    pub pattern_tokens: Vec<String>,
    pub body: Expression,
}

/// The parser's state: its configuration and the notations defined so far,
/// ordered by precedence.
#[derive(Debug)]
pub struct LofParser {
    pub config: Config,
    pub custom_notations: Vec<(i32, Notation)>,
}

impl LofParser {
    /// A parser with `config` and no custom notation.
    pub fn new(config: Config) -> (r: LofParser)
        ensures
            r.config == config,
            r.custom_notations@.len() == 0,
    {
        LofParser { config, custom_notations: Vec::new() }
    }
}

} // verus!
