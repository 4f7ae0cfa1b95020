use vstd::prelude::*;
use vstd::string::*;
use crate::parser::api::{
    lemma_application_view, lemma_match_expr_view, lemma_tuple_view, view_expr_branches, view_exprs, Expr,
    Expression, LofAst, Statement, Tac, Tactic, Union,
};
use crate::parser::model::{view_ast, view_asts, view_named, view_statement, view_tactics, Ast, ProofModel, Stm};
use crate::text::{join, quote, spec_join, spec_quote};

verus! {

// Texts of syntax trees, in the shape of their constructors: a variant's
// name, then its fields between parentheses; names between double quotes,
// lists between square brackets.

/// The text of an expression.
pub open spec fn spec_render_expr(e: Expr) -> Seq<char>
    decreases e,
{
    match e {
        Expr::VarUse(n) => "VarUse("@ + spec_quote(n) + ")"@,
        Expr::Abs(n, t, b) => "Abstraction("@ + spec_quote(n) + ", "@ + spec_render_expr(*t) + ", "@ + spec_render_expr(*b)
            + ")"@,
        Expr::Prod(n, t, b) => "TypeProduct("@ + spec_quote(n) + ", "@ + spec_render_expr(*t) + ", "@ + spec_render_expr(*b)
            + ")"@,
        Expr::Arrow(a, b) => "Arrow("@ + spec_render_expr(*a) + ", "@ + spec_render_expr(*b) + ")"@,
        Expr::App(f, args) => "Application("@ + spec_render_expr(*f) + ", ["@ + spec_join(spec_render_exprs(args)) + "])"@,
        Expr::Match(m, bs) => "Match("@ + spec_render_expr(*m) + ", ["@ + spec_join(spec_render_branches(bs)) + "])"@,
        Expr::Infer => "Inferator"@,
        Expr::Tuple(v) => "Tuple(["@ + spec_join(spec_render_exprs(v)) + "])"@,
        Expr::Pipe(v) => "Pipe(["@ + spec_join(spec_render_exprs(v)) + "])"@,
        Expr::Let(n, t, b, s) => "Let("@ + spec_quote(n) + ", "@ + match t {
            Some(x) => "Some("@ + spec_render_expr(*x) + ")"@,
            None => "None"@,
        } + ", "@ + spec_render_expr(*b) + ", "@ + spec_render_expr(*s) + ")"@,
    }
}

/// The texts of `es`, in order.
pub open spec fn spec_render_exprs(es: Seq<Expr>) -> Seq<Seq<char>>
    decreases es,
{
    if es.len() == 0 {
        Seq::empty()
    } else {
        spec_render_exprs(es.subrange(0, es.len() - 1)).push(spec_render_expr(es[es.len() - 1]))
    }
}

/// The texts of `bs`, each `(pattern, body)`, in order.
pub open spec fn spec_render_branches(bs: Seq<(Expr, Expr)>) -> Seq<Seq<char>>
    decreases bs,
{
    if bs.len() == 0 {
        Seq::empty()
    } else {
        let last = bs[bs.len() - 1];
        spec_render_branches(bs.subrange(0, bs.len() - 1)).push(
            "("@ + spec_render_expr(last.0) + ", "@ + spec_render_expr(last.1) + ")"@,
        )
    }
}

/// The text of an optional expression.
pub open spec fn spec_render_opt(o: Option<Expr>) -> Seq<char> {
    match o {
        Some(x) => "Some("@ + spec_render_expr(x) + ")"@,
        None => "None"@,
    }
}

/// The texts of named expressions, each `("name", expression)`.
pub open spec fn spec_render_named(ns: Seq<(Seq<char>, Expr)>) -> Seq<Seq<char>> {
    Seq::new(ns.len(), |i: int| "("@ + spec_quote(ns[i].0) + ", "@ + spec_render_expr(ns[i].1) + ")"@)
}

/// The text of a tactic.
pub open spec fn spec_render_tactic(t: Tac<Expr>) -> Seq<char> {
    match t {
        Tac::Begin => "Begin"@,
        Tac::Qed => "Qed"@,
        Tac::Intro(n, e) => "Intro("@ + spec_quote(n) + ", "@ + spec_render_expr(e) + ")"@,
        Tac::Exact(e) => "Exact("@ + spec_render_expr(e) + ")"@,
        Tac::Apply(e) => "Apply("@ + spec_render_expr(e) + ")"@,
        Tac::Induction(n) => "Induction("@ + spec_quote(n) + ")"@,
    }
}

/// The text of a boolean.
pub open spec fn spec_render_bool(b: bool) -> Seq<char> {
    if b {
        "true"@
    } else {
        "false"@
    }
}

/// The text of a statement.
pub open spec fn spec_render_stm(st: Stm) -> Seq<char>
    decreases st,
{
    match st {
        Stm::Comment => "Comment"@,
        Stm::FileRoot(p, v) => "FileRoot("@ + spec_quote(p) + ", ["@ + spec_join(spec_render_asts(v)) + "])"@,
        Stm::DirRoot(p, v) => "DirRoot("@ + spec_quote(p) + ", ["@ + spec_join(spec_render_asts(v)) + "])"@,
        Stm::EmptyRoot(v) => "EmptyRoot(["@ + spec_join(spec_render_asts(v)) + "])"@,
        Stm::Axiom(n, f) => "Axiom("@ + spec_quote(n) + ", "@ + spec_render_expr(f) + ")"@,
        Stm::Theorem(n, f, p) => "Theorem("@ + spec_quote(n) + ", "@ + spec_render_expr(f) + ", "@ + match p {
            ProofModel::Term(t) => "L("@ + spec_render_expr(t) + ")"@,
            ProofModel::Tactics(ts) => "R(["@ + spec_join(Seq::new(ts.len(), |i: int| spec_render_tactic(ts[i]))) + "])"@,
        } + ")"@,
        Stm::Global(n, t, b) => "Global("@ + spec_quote(n) + ", "@ + spec_render_opt(t) + ", "@ + spec_render_expr(b) + ")"@,
        Stm::Fun(n, args, o, b, r) => "Fun("@ + spec_quote(n) + ", ["@ + spec_join(spec_render_named(args)) + "], "@
            + spec_render_expr(o) + ", "@ + spec_render_expr(b) + ", "@ + spec_render_bool(r) + ")"@,
        Stm::Inductive(n, ps, a, cs) => "Inductive("@ + spec_quote(n) + ", ["@ + spec_join(spec_render_named(ps)) + "], "@
            + spec_render_expr(a) + ", ["@ + spec_join(spec_render_named(cs)) + "])"@,
        Stm::Auto(f) => "Auto("@ + spec_render_expr(f) + ")"@,
        Stm::Solve(gs) => "Solve(["@ + spec_join(spec_render_exprs(gs)) + "])"@,
        Stm::HClause(h, gs) => "HClause("@ + spec_render_expr(h) + ", ["@ + spec_join(spec_render_exprs(gs)) + "])"@,
        Stm::Equivalence(n, a, b, f, g, sec, ret, de, eta, dc, io) => "Equivalence("@ + spec_quote(n) + ", "@
            + spec_render_seven(seq![a, b, f, g, sec, ret, de], 7) + spec_render_opt(eta) + ", ["@
            + spec_join(spec_render_named(dc)) + "], ["@ + spec_join(spec_render_named(io)) + "])"@,
        Stm::Transport(n, t, o, e) => "Transport("@ + spec_quote(n) + ", "@ + spec_render_expr(t) + ", "@ + spec_quote(o)
            + ", "@ + spec_quote(e) + ")"@,
    }
}

/// The texts of `v`, in order.
pub open spec fn spec_render_asts(v: Seq<Ast>) -> Seq<Seq<char>>
    decreases v,
{
    if v.len() == 0 {
        Seq::empty()
    } else {
        spec_render_asts(v.subrange(0, v.len() - 1)).push(spec_render_ast(v[v.len() - 1]))
    }
}

/// The text of a node.
pub open spec fn spec_render_ast(a: Ast) -> Seq<char>
    decreases a,
{
    match a {
        Ast::Stm(s) => "Stm("@ + spec_render_stm(s) + ")"@,
        Ast::Exp(e) => "Exp("@ + spec_render_expr(e) + ")"@,
    }
}

/// `prefix`, the texts of `parts` separated by commas, then `suffix`.
fn bracket(prefix: &str, parts: &Vec<String>, suffix: &str) -> (r: String)
    ensures
        r@ == prefix@ + spec_join(parts@.map_values(|p: String| p@)) + suffix@,
{
    let mut out = String::from_str(prefix);
    out.append(join(parts).as_str());
    out.append(suffix);
    out
}

/// The texts of `es`, in order.
fn render_expressions(es: &Vec<Expression>) -> (r: Vec<String>)
    ensures
        r@.map_values(|p: String| p@) == spec_render_exprs(view_exprs(es@)),
    decreases es,
{
    let ghost vs = view_exprs(es@);
    let mut out: Vec<String> = Vec::new();
    let mut i: usize = 0;
    while i < es.len()
        invariant
            i <= es@.len(),
            vs == view_exprs(es@),
            out@.map_values(|p: String| p@) == spec_render_exprs(vs.subrange(0, i as int)),
        decreases es@.len() - i,
    {
        proof {
            assert(decreases_to!(es => es@));
            assert(decreases_to!(es@ => es@[i as int]));
            let pre = vs.subrange(0, i + 1);
            assert(pre.subrange(0, pre.len() - 1) =~= vs.subrange(0, i as int));
            assert(pre[pre.len() - 1] == es@[i as int]@);
        }
        let ghost before = out@.map_values(|p: String| p@);
        out.push(render_expression(&es[i]));
        proof {
            assert(out@.map_values(|p: String| p@) =~= before.push(spec_render_expr(es@[i as int]@)));
        }
        i = i + 1;
    }
    assert(vs.subrange(0, es@.len() as int) =~= vs);
    out
}

/// The texts of `bs`, in order.
fn render_branches(bs: &Vec<(Expression, Expression)>) -> (r: Vec<String>)
    ensures
        r@.map_values(|p: String| p@) == spec_render_branches(view_expr_branches(bs@)),
    decreases bs,
{
    let ghost vs = view_expr_branches(bs@);
    let mut out: Vec<String> = Vec::new();
    let mut i: usize = 0;
    while i < bs.len()
        invariant
            i <= bs@.len(),
            vs == view_expr_branches(bs@),
            out@.map_values(|p: String| p@) == spec_render_branches(vs.subrange(0, i as int)),
        decreases bs@.len() - i,
    {
        proof {
            assert(decreases_to!(bs => bs@));
            assert(decreases_to!(bs@ => bs@[i as int]));
            let pre = vs.subrange(0, i + 1);
            assert(pre.subrange(0, pre.len() - 1) =~= vs.subrange(0, i as int));
            assert(pre[pre.len() - 1] == (bs@[i as int].0@, bs@[i as int].1@));
        }
        let ghost before = out@.map_values(|p: String| p@);
        let mut one = String::from_str("(");
        one.append(render_expression(&bs[i].0).as_str());
        one.append(", ");
        one.append(render_expression(&bs[i].1).as_str());
        one.append(")");
        out.push(one);
        proof {
            assert(out@.map_values(|p: String| p@) =~= before.push(
                "("@ + spec_render_expr(bs@[i as int].0@) + ", "@ + spec_render_expr(bs@[i as int].1@) + ")"@,
            ));
        }
        i = i + 1;
    }
    assert(vs.subrange(0, bs@.len() as int) =~= vs);
    out
}

/// [`spec_render_expr`], computed.
pub fn render_expression(e: &Expression) -> (r: String)
    ensures
        r@ == spec_render_expr(e@),
    decreases e,
{
    match e {
        Expression::VarUse(n) => {
            let mut out = String::from_str("VarUse(");
            out.append(quote(n.as_str()).as_str());
            out.append(")");
            assert(out@ =~= spec_render_expr(e@));
            out
        },
        Expression::Abstraction(n, t, b) => {
            let mut out = String::from_str("Abstraction(");
            out.append(quote(n.as_str()).as_str());
            out.append(", ");
            out.append(render_expression(t).as_str());
            out.append(", ");
            out.append(render_expression(b).as_str());
            out.append(")");
            assert(out@ =~= spec_render_expr(e@));
            out
        },
        Expression::TypeProduct(n, t, b) => {
            let mut out = String::from_str("TypeProduct(");
            out.append(quote(n.as_str()).as_str());
            out.append(", ");
            out.append(render_expression(t).as_str());
            out.append(", ");
            out.append(render_expression(b).as_str());
            out.append(")");
            assert(out@ =~= spec_render_expr(e@));
            out
        },
        Expression::Arrow(a, b) => {
            let mut out = String::from_str("Arrow(");
            out.append(render_expression(a).as_str());
            out.append(", ");
            out.append(render_expression(b).as_str());
            out.append(")");
            assert(out@ =~= spec_render_expr(e@));
            out
        },
        Expression::Application(f, args) => {
            proof {
                assert(decreases_to!(*e => (*e)->Application_1));
            }
            let mut out = String::from_str("Application(");
            out.append(render_expression(f).as_str());
            let parts = render_expressions(args);
            let tail = bracket(", [", &parts, "])");
            out.append(tail.as_str());
            proof {
                lemma_application_view(**f, *args);
                assert(out@ =~= spec_render_expr(e@));
            }
            out
        },
        Expression::Match(m, bs) => {
            proof {
                assert(decreases_to!(*e => (*e)->Match_1));
            }
            let mut out = String::from_str("Match(");
            out.append(render_expression(m).as_str());
            let parts = render_branches(bs);
            let tail = bracket(", [", &parts, "])");
            out.append(tail.as_str());
            proof {
                lemma_match_expr_view(**m, *bs);
                assert(out@ =~= spec_render_expr(e@));
            }
            out
        },
        Expression::Inferator() => {
            let out = String::from_str("Inferator");
            assert(out@ =~= spec_render_expr(e@));
            out
        },
        Expression::Tuple(v) => {
            proof {
                assert(decreases_to!(*e => (*e)->Tuple_0));
            }
            let parts = render_expressions(v);
            let out = bracket("Tuple([", &parts, "])");
            proof {
                lemma_tuple_view(*v);
                assert(out@ =~= spec_render_expr(e@));
            }
            out
        },
        Expression::Pipe(v) => {
            proof {
                assert(decreases_to!(*e => (*e)->Pipe_0));
            }
            let parts = render_expressions(v);
            let out = bracket("Pipe([", &parts, "])");
            proof {
                lemma_tuple_view(*v);
                assert(out@ =~= spec_render_expr(e@));
            }
            out
        },
        Expression::Let(n, t, b, s) => {
            let mut out = String::from_str("Let(");
            out.append(quote(n.as_str()).as_str());
            out.append(", ");
            match &**t {
                Some(x) => {
                    out.append("Some(");
                    out.append(render_expression(x).as_str());
                    out.append(")");
                },
                None => {
                    out.append("None");
                },
            }
            out.append(", ");
            out.append(render_expression(b).as_str());
            out.append(", ");
            out.append(render_expression(s).as_str());
            out.append(")");
            assert(out@ =~= spec_render_expr(e@));
            out
        },
    }
}

/// [`spec_render_opt`], computed.
fn render_opt(o: &Option<Expression>) -> (r: String)
    ensures
        r@ == spec_render_opt(match o {
            Some(x) => Some(x@),
            None => None,
        }),
{
    match o {
        Some(x) => {
            let mut out = String::from_str("Some(");
            out.append(render_expression(x).as_str());
            out.append(")");
            out
        },
        None => String::from_str("None"),
    }
}

/// The texts of named expressions, in order.
fn render_named(ns: &Vec<(String, Expression)>) -> (r: Vec<String>)
    ensures
        r@.map_values(|p: String| p@) == spec_render_named(view_named(ns@)),
{
    let mut out: Vec<String> = Vec::new();
    let mut i: usize = 0;
    while i < ns.len()
        invariant
            i <= ns@.len(),
            out@.len() == i,
            forall|j: int| 0 <= j < i ==> (#[trigger] out@[j])@ == "("@ + spec_quote(ns@[j].0@) + ", "@
                + spec_render_expr(ns@[j].1@) + ")"@,
        decreases ns@.len() - i,
    {
        let mut one = String::from_str("(");
        one.append(quote(ns[i].0.as_str()).as_str());
        one.append(", ");
        one.append(render_expression(&ns[i].1).as_str());
        one.append(")");
        out.push(one);
        i = i + 1;
    }
    assert(out@.map_values(|p: String| p@) =~= spec_render_named(view_named(ns@)));
    out
}

/// The texts of tactics, in order.
fn render_tactics(ts: &Vec<Tactic<Expression>>) -> (r: Vec<String>)
    ensures
        r@.map_values(|p: String| p@) == Seq::new(view_tactics(ts@).len(), |i: int| spec_render_tactic(view_tactics(ts@)[i])),
{
    let mut out: Vec<String> = Vec::new();
    let mut i: usize = 0;
    while i < ts.len()
        invariant
            i <= ts@.len(),
            out@.len() == i,
            forall|j: int| 0 <= j < i ==> (#[trigger] out@[j])@ == spec_render_tactic(ts@[j]@),
        decreases ts@.len() - i,
    {
        let one = match &ts[i] {
            Tactic::Begin() => String::from_str("Begin"),
            Tactic::Qed() => String::from_str("Qed"),
            Tactic::Intro(n, e) => {
                let mut o = String::from_str("Intro(");
                o.append(quote(n.as_str()).as_str());
                o.append(", ");
                o.append(render_expression(e).as_str());
                o.append(")");
                o
            },
            Tactic::Exact(e) => {
                let mut o = String::from_str("Exact(");
                o.append(render_expression(e).as_str());
                o.append(")");
                o
            },
            Tactic::Apply(e) => {
                let mut o = String::from_str("Apply(");
                o.append(render_expression(e).as_str());
                o.append(")");
                o
            },
            Tactic::Induction(n) => {
                let mut o = String::from_str("Induction(");
                o.append(quote(n.as_str()).as_str());
                o.append(")");
                o
            },
        };
        assert(one@ =~= spec_render_tactic(ts@[i as int]@));
        out.push(one);
        i = i + 1;
    }
    assert(out@.map_values(|p: String| p@) =~= Seq::new(view_tactics(ts@).len(), |i: int| spec_render_tactic(view_tactics(ts@)[i])));
    out
}

/// The texts of nodes, in order.
fn render_asts(v: &Vec<LofAst>) -> (r: Vec<String>)
    ensures
        r@.map_values(|p: String| p@) == spec_render_asts(view_asts(v@)),
    decreases v,
{
    let mut out: Vec<String> = Vec::new();
    let mut i: usize = 0;
    while i < v.len()
        invariant
            i <= v@.len(),
            out@.map_values(|p: String| p@) == spec_render_asts(view_asts(v@.subrange(0, i as int))),
        decreases v@.len() - i,
    {
        proof {
            assert(decreases_to!(v => v@));
            assert(decreases_to!(v@ => v@[i as int]));
            let pre = v@.subrange(0, i + 1);
            assert(pre.subrange(0, pre.len() - 1) =~= v@.subrange(0, i as int));
            assert(view_asts(pre) == view_asts(v@.subrange(0, i as int)).push(view_ast(v@[i as int])));
            assert(view_asts(pre).subrange(0, view_asts(pre).len() - 1) =~= view_asts(v@.subrange(0, i as int)));
        }
        let ghost before = out@.map_values(|p: String| p@);
        out.push(render_ast(&v[i]));
        proof {
            assert(out@.map_values(|p: String| p@) =~= before.push(spec_render_ast(view_ast(v@[i as int]))));
        }
        i = i + 1;
    }
    assert(v@.subrange(0, v@.len() as int) =~= v@);
    out
}

/// [`spec_render_ast`], computed.
pub fn render_ast(a: &LofAst) -> (r: String)
    ensures
        r@ == spec_render_ast(view_ast(*a)),
    decreases a,
{
    match a {
        LofAst::Stm(st) => {
            let mut out = String::from_str("Stm(");
            out.append(render_statement(st).as_str());
            out.append(")");
            assert(out@ =~= spec_render_ast(view_ast(*a)));
            out
        },
        LofAst::Exp(e) => {
            let mut out = String::from_str("Exp(");
            out.append(render_expression(e).as_str());
            out.append(")");
            assert(out@ =~= spec_render_ast(view_ast(*a)));
            out
        },
    }
}

/// The text of a theorem.
fn render_theorem(n: &String, f: &Expression, p: &Union<Expression, Vec<Tactic<Expression>>>) -> (r: String)
    ensures
        r@ == spec_render_stm(Stm::Theorem(
            n@,
            f@,
            match p {
                Union::L(t) => ProofModel::Term(t@),
                Union::R(ts) => ProofModel::Tactics(view_tactics(ts@)),
            },
        )),
{
    let mut out = String::from_str("Theorem(");
    out.append(quote(n.as_str()).as_str());
    out.append(", ");
    out.append(render_expression(f).as_str());
    out.append(", ");
    match p {
        Union::L(t) => {
            out.append("L(");
            out.append(render_expression(t).as_str());
            out.append(")");
        },
        Union::R(ts) => {
            let parts = render_tactics(ts);
            out.append(bracket("R([", &parts, "])").as_str());
        },
    }
    out.append(")");
    let ghost pm = match p {
        Union::L(t) => ProofModel::Term(t@),
        Union::R(ts) => ProofModel::Tactics(view_tactics(ts@)),
    };
    assert(out@ =~= spec_render_stm(Stm::Theorem(n@, f@, pm)));
    out
}

/// The text of a function definition.
fn render_fun(n: &String, args: &Vec<(String, Expression)>, o: &Expression, b: &Expression, r: bool) -> (out: String)
    ensures
        out@ == spec_render_stm(Stm::Fun(n@, view_named(args@), o@, b@, r)),
{
    let mut out = String::from_str("Fun(");
    out.append(quote(n.as_str()).as_str());
    let parts = render_named(args);
    out.append(bracket(", [", &parts, "], ").as_str());
    out.append(render_expression(o).as_str());
    out.append(", ");
    out.append(render_expression(b).as_str());
    out.append(", ");
    out.append(if r { "true" } else { "false" });
    out.append(")");
    assert(out@ =~= spec_render_stm(Stm::Fun(n@, view_named(args@), o@, b@, r)));
    out
}

/// The text of an inductive definition.
fn render_inductive(n: &String, ps: &Vec<(String, Expression)>, a: &Expression, cs: &Vec<(String, Expression)>) -> (out: String)
    ensures
        out@ == spec_render_stm(Stm::Inductive(n@, view_named(ps@), a@, view_named(cs@))),
{
    let mut out = String::from_str("Inductive(");
    out.append(quote(n.as_str()).as_str());
    let parts = render_named(ps);
    out.append(bracket(", [", &parts, "], ").as_str());
    out.append(render_expression(a).as_str());
    let cparts = render_named(cs);
    out.append(bracket(", [", &cparts, "])").as_str());
    assert(out@ =~= spec_render_stm(Stm::Inductive(n@, view_named(ps@), a@, view_named(cs@))));
    out
}

/// The texts of the first `k` expressions of `es`, each followed by `, `.
pub open spec fn spec_render_seven(es: Seq<Expr>, k: int) -> Seq<char>
    decreases k,
{
    if k <= 0 {
        Seq::empty()
    } else {
        spec_render_seven(es, k - 1) + spec_render_expr(es[k - 1]) + ", "@
    }
}

/// The text of an equivalence.
fn render_equivalence(
    n: &String,
    seven: &Vec<&Expression>,
    eta: &Option<Box<Expression>>,
    dc: &Vec<(String, Expression)>,
    io: &Vec<(String, Expression)>,
) -> (out: String)
    requires
        seven.len() == 7,
    ensures
        out@ == spec_render_stm(Stm::Equivalence(
            n@,
            seven@[0]@,
            seven@[1]@,
            seven@[2]@,
            seven@[3]@,
            seven@[4]@,
            seven@[5]@,
            seven@[6]@,
            match eta {
                Some(e) => Some(e@),
                None => None,
            },
            view_named(dc@),
            view_named(io@),
        )),
{
    let mut out = String::from_str("Equivalence(");
    out.append(quote(n.as_str()).as_str());
    out.append(", ");
    let mut i: usize = 0;
    while i < 7
        invariant
            seven.len() == 7,
            i <= 7,
            out@ == "Equivalence("@ + spec_quote(n@) + ", "@ + spec_render_seven(seven@.map_values(|e: &Expression| e@), i as int),
        decreases 7 - i,
    {
        out.append(render_expression(seven[i]).as_str());
        out.append(", ");
        i = i + 1;
    }
    let eta_text = match eta {
        Some(x) => {
            let mut o = String::from_str("Some(");
            o.append(render_expression(x).as_str());
            o.append(")");
            o
        },
        None => String::from_str("None"),
    };
    let ghost eta_m: Option<Expr> = match eta {
        Some(e) => Some(e@),
        None => None,
    };
    assert(eta_text@ == spec_render_opt(eta_m));
    let ghost before = out@;
    out.append(eta_text.as_str());
    let dparts = render_named(dc);
    out.append(bracket(", [", &dparts, "], [").as_str());
    let iparts = render_named(io);
    out.append(join(&iparts).as_str());
    out.append("])");
    proof {
        let m = seven@.map_values(|e: &Expression| e@);
        assert(seq![m[0], m[1], m[2], m[3], m[4], m[5], m[6]] =~= m);
        assert(out@ =~= spec_render_stm(Stm::Equivalence(
            n@,
            m[0], m[1], m[2], m[3], m[4], m[5], m[6],
            eta_m,
            view_named(dc@),
            view_named(io@),
        )));
    }
    out
}

/// [`spec_render_stm`], computed.
#[verifier::rlimit(40)]
pub fn render_statement(st: &Statement) -> (r: String)
    ensures
        r@ == spec_render_stm(view_statement(*st)),
    decreases st,
{
    let ghost m = view_statement(*st);
    let out = match st {
        Statement::Comment() => {
            let out = String::from_str("Comment");
            assert(out@ =~= spec_render_stm(m));
            out
        },
        Statement::FileRoot(p, v) => {
            proof {
                assert(decreases_to!(*st => (*st)->FileRoot_1));
            }
            let mut out = String::from_str("FileRoot(");
            out.append(quote(p.as_str()).as_str());
            let parts = render_asts(v);
            out.append(bracket(", [", &parts, "])").as_str());
            assert(out@ =~= spec_render_stm(m));
            out
        },
        Statement::DirRoot(p, v) => {
            proof {
                assert(decreases_to!(*st => (*st)->DirRoot_1));
            }
            let mut out = String::from_str("DirRoot(");
            out.append(quote(p.as_str()).as_str());
            let parts = render_asts(v);
            out.append(bracket(", [", &parts, "])").as_str());
            assert(out@ =~= spec_render_stm(m));
            out
        },
        Statement::EmptyRoot(v) => {
            proof {
                assert(decreases_to!(*st => (*st)->EmptyRoot_0));
            }
            let parts = render_asts(v);
            let out = bracket("EmptyRoot([", &parts, "])");
            assert(out@ =~= spec_render_stm(m));
            out
        },
        Statement::Axiom(n, f) => {
            let mut out = String::from_str("Axiom(");
            out.append(quote(n.as_str()).as_str());
            out.append(", ");
            out.append(render_expression(f).as_str());
            out.append(")");
            assert(out@ =~= spec_render_stm(m));
            out
        },
        Statement::Theorem(n, f, p) => render_theorem(n, f, p),
        Statement::Global(n, t, b) => {
            let mut out = String::from_str("Global(");
            out.append(quote(n.as_str()).as_str());
            out.append(", ");
            out.append(render_opt(t).as_str());
            out.append(", ");
            out.append(render_expression(b).as_str());
            out.append(")");
            assert(out@ =~= spec_render_stm(m));
            out
        },
        Statement::Fun(n, args, o, b, r) => render_fun(n, args, o, b, *r),
        Statement::Inductive(n, ps, a, cs) => render_inductive(n, ps, a, cs),
        Statement::Auto(f) => {
            let mut out = String::from_str("Auto(");
            out.append(render_expression(f).as_str());
            out.append(")");
            assert(out@ =~= spec_render_stm(m));
            out
        },
        Statement::Solve(gs) => {
            let parts = render_expressions(gs);
            let out = bracket("Solve([", &parts, "])");
            assert(out@ =~= spec_render_stm(m));
            out
        },
        Statement::HClause(h, gs) => {
            let mut out = String::from_str("HClause(");
            out.append(render_expression(h).as_str());
            let parts = render_expressions(gs);
            out.append(bracket(", [", &parts, "])").as_str());
            assert(out@ =~= spec_render_stm(m));
            out
        },
        Statement::Equivalence(n, a, b, f, g, sec, ret, de, eta, dc, io) => {
            let seven: Vec<&Expression> = vec![&**a, &**b, &**f, &**g, &**sec, &**ret, &**de];
            render_equivalence(n, &seven, eta, dc, io)
        },
        Statement::Transport(n, t, o, e) => {
            let mut out = String::from_str("Transport(");
            out.append(quote(n.as_str()).as_str());
            out.append(", ");
            out.append(render_expression(t).as_str());
            out.append(", ");
            out.append(quote(o.as_str()).as_str());
            out.append(", ");
            out.append(quote(e.as_str()).as_str());
            out.append(")");
            assert(out@ =~= spec_render_stm(m));
            out
        },
    };
    out
}

} // verus!
