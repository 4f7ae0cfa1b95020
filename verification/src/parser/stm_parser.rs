use vstd::prelude::*;
use vstd::string::*;
use crate::config::{id_to_system, Config};
use crate::error::LofError;
use crate::parser::api::{view_exprs, Expr, Expression, LofAst, LofParser, Statement, Tac, Tactic, Union};
use crate::parser::expressions::{res, within};
use crate::parser::grammar::{spec_expression, spec_local, spec_opt_typed, spec_parens, spec_type_expression};
use crate::parser::lexer::{
    has_tag, identifier_at, keyword_at, lemma_skip_spaces_bounds, lemma_skip_ws_bounds, lit_at, litc_at,
    skip_spaces, skip_spaces_at, skip_ws, skip_ws_at, spec_identifier, tag_at, ws1_lit_at,
};
use crate::parser::model::{
    lemma_view_asts_empty, lemma_view_asts_push, view_ast, view_asts, view_named, view_statement, view_tactics,
    Ast, ProofModel, Stm,
};
use crate::parser::stm_grammar::{
    tac_lit, tac_keyword, ws1_identifier, spec_tactic, spec_tactics, is_proof_step, drop_markers, spec_interactive, spec_comment, line_end, spec_global, spec_axiom, spec_typed_param, spec_params_rest, spec_params, spec_function, spec_constructor, spec_constructors, spec_inductive, spec_theorem, spec_auto, spec_types_rest, spec_types, spec_solve, spec_hclause, spec_field, spec_entry, spec_entries, spec_block, spec_equiv_head, spec_equiv_fields, spec_equivalence, spec_transport, spec_plain_statement, spec_late_statement, spec_notation_stm, spec_statement, spec_theory_block, spec_node, spec_nodes,
};
use crate::text::str_chars;

verus! {

/// The model of a statement parse result.
pub open spec fn sres(r: Option<(usize, Statement)>) -> Option<(int, Stm)> {
    match r {
        Some((q, st)) => Some((q as int, view_statement(st))),
        None => None,
    }
}

/// A statement parse result that lies within the input, from `pos` on.
pub open spec fn swithin(r: Option<(usize, Statement)>, pos: usize, len: nat) -> bool {
    r matches Some((q, _)) ==> pos <= q <= len
}

proof fn lemma_named_cons(x: (String, Expression), b: Seq<(String, Expression)>)
    ensures
        view_named(seq![x] + b) == seq![(x.0@, x.1@)] + view_named(b),
{
    assert(view_named(seq![x] + b) =~= seq![(x.0@, x.1@)] + view_named(b));
}

proof fn lemma_named_empty()
    ensures
        view_named(Seq::<(String, Expression)>::empty()) == Seq::<(Seq<char>, Expr)>::empty(),
{
    assert(view_named(Seq::<(String, Expression)>::empty()) =~= Seq::<(Seq<char>, Expr)>::empty());
}

proof fn lemma_exprs_cons(x: Expression, b: Seq<Expression>)
    ensures
        view_exprs(seq![x] + b) == seq![x@] + view_exprs(b),
        view_exprs(Seq::<Expression>::empty()) == Seq::<Expr>::empty(),
{
    assert(view_exprs(seq![x] + b) =~= seq![x@] + view_exprs(b));
    assert(view_exprs(Seq::<Expression>::empty()) =~= Seq::<Expr>::empty());
}

proof fn lemma_tactics_cons(x: Tactic<Expression>, b: Seq<Tactic<Expression>>)
    ensures
        view_tactics(seq![x] + b) == seq![x@] + view_tactics(b),
        view_tactics(Seq::<Tactic<Expression>>::empty()) == Seq::<Tac<Expr>>::empty(),
{
    assert(view_tactics(seq![x] + b) =~= seq![x@] + view_tactics(b));
    assert(view_tactics(Seq::<Tactic<Expression>>::empty()) =~= Seq::<Tac<Expr>>::empty());
}

proof fn lemma_view_asts_cons(a: LofAst, b: Seq<LofAst>)
    ensures
        view_asts(seq![a] + b) == seq![view_ast(a)] + view_asts(b),
    decreases b.len(),
{
    if b.len() == 0 {
        assert(seq![a] + b =~= Seq::<LofAst>::empty().push(a));
        lemma_view_asts_push(Seq::empty(), a);
        assert(seq![view_ast(a)] + view_asts(b) =~= seq![view_ast(a)]);
    } else {
        let init = b.drop_last();
        lemma_view_asts_cons(a, init);
        assert(seq![a] + b =~= (seq![a] + init).push(b.last()));
        assert(b =~= init.push(b.last()));
        lemma_view_asts_push(seq![a] + init, b.last());
        lemma_view_asts_push(init, b.last());
        assert(seq![view_ast(a)] + view_asts(b) =~= (seq![view_ast(a)] + view_asts(init)).push(view_ast(b.last())));
    }
}

/// [`tac_lit`], computed.
fn tac_lit_at(s: &Vec<char>, pos: usize, t: &str) -> (r: Option<usize>)
    requires
        pos <= s.len(),
    ensures
        tac_lit(s@, pos as int, t@) matches Some(q) ==> pos <= q <= s.len(),
        r == (match tac_lit(s@, pos as int, t@) {
            Some(q) => Some(q as usize),
            None => None::<usize>,
        }),
{
    let p = skip_spaces_at(s, pos);
    proof {
        lemma_skip_spaces_bounds(s@, pos as int);
    }
    if tag_at(s, p, t) {
        Some(p + t.unicode_len())
    } else {
        None
    }
}

/// [`tac_keyword`], computed.
fn tac_keyword_at(s: &Vec<char>, pos: usize, t: &str) -> (r: Option<usize>)
    requires
        pos <= s.len(),
    ensures
        tac_keyword(s@, pos as int, t@) matches Some(q) ==> pos <= q <= s.len(),
        r == (match tac_keyword(s@, pos as int, t@) {
            Some(q) => Some(q as usize),
            None => None::<usize>,
        }),
{
    match tac_lit_at(s, pos, t) {
        Some(q) => {
            let p = skip_spaces_at(s, q);
            proof {
                lemma_skip_spaces_bounds(s@, q as int);
            }
            if p > q {
                Some(p)
            } else {
                None
            }
        },
        None => None,
    }
}

/// [`ws1_identifier`], computed.
fn ws1_identifier_at(s: &Vec<char>, pos: usize) -> (r: Option<(usize, String)>)
    requires
        pos <= s.len(),
    ensures
        r matches Some((q, w)) ==> ws1_identifier(s@, pos as int) == Some((q as int, w@)) && pos < q <= s.len(),
        r is None ==> ws1_identifier(s@, pos as int) is None,
{
    let p = skip_ws_at(s, pos);
    proof {
        lemma_skip_ws_bounds(s@, pos as int);
    }
    if p > pos {
        identifier_at(s, p)
    } else {
        None
    }
}

/// [`spec_comment`], computed.
fn comment_at(s: &Vec<char>, pos: usize) -> (r: Option<(usize, Statement)>)
    requires
        pos <= s.len(),
    ensures
        sres(r) == spec_comment(s@, pos as int),
        swithin(r, pos, s@.len()),
{
    let p = skip_spaces_at(s, pos);
    proof {
        lemma_skip_spaces_bounds(s@, pos as int);
    }
    if p < s.len() && s[p] == '#' {
        let mut e = p + 1;
        while e < s.len() && s[e] != '\n'
            invariant
                p + 1 <= e <= s.len(),
                line_end(s@, p + 1) == line_end(s@, e as int),
            decreases s.len() - e,
        {
            e = e + 1;
        }
        let q = if e < s.len() {
            e + 1
        } else {
            e
        };
        Some((q, Statement::Comment()))
    } else {
        None
    }
}

/// A run of statements that reads the characters `s`, with the notations of a parser.
impl LofParser {
    /// [`spec_tactic`], computed.
    fn tactic_at(&self, s: &Vec<char>, pos: usize) -> (r: Option<(usize, Tactic<Expression>)>)
        requires
            pos <= s.len(),
        ensures
            match r {
                Some((q, t)) => spec_tactic(self.notations(), s@, pos as int) == Some((q as int, t@)) && pos <= q
                    <= s.len(),
                None => spec_tactic(self.notations(), s@, pos as int) is None,
            },
    {
        if let Some(q) = tac_lit_at(s, pos, "begin") {
            return Some((q, Tactic::Begin()));
        }
        if let Some(q) = tac_lit_at(s, pos, "qed.") {
            return Some((q, Tactic::Qed()));
        }
        if let Some(p1) = tac_keyword_at(s, pos, "intro") {
            match self.opt_typed_from(s, p1) {
                Some((q, x, t)) => {
                    let ty = match t {
                        Some(tt) => tt,
                        None => Expression::Inferator(),
                    };
                    return Some((q, Tactic::Intro(x, ty)));
                },
                None => {},
            }
        }
        if let Some(p1) = tac_keyword_at(s, pos, "apply") {
            match self.expression_from(s, p1) {
                Some((q, e)) => {
                    return Some((q, Tactic::Apply(e)));
                },
                None => {},
            }
        }
        if let Some(p1) = tac_keyword_at(s, pos, "exact") {
            match self.expression_from(s, p1) {
                Some((q, e)) => {
                    return Some((q, Tactic::Exact(e)));
                },
                None => {},
            }
        }
        match tac_keyword_at(s, pos, "induction") {
            Some(p1) => match identifier_at(s, p1) {
                Some((q, x)) => Some((q, Tactic::Induction(x))),
                None => None,
            },
            None => None,
        }
    }

    /// [`spec_tactics`], computed.
    fn tactics_at(&self, s: &Vec<char>, pos: usize) -> (r: (usize, Vec<Tactic<Expression>>))
        requires
            pos <= s.len(),
        ensures
            r.0 == spec_tactics(self.notations(), s@, pos as int).0,
            view_tactics(r.1@) == spec_tactics(self.notations(), s@, pos as int).1,
            pos <= r.0 <= s.len(),
        decreases s@.len() - pos,
    {
        proof {
            lemma_tactics_cons(Tactic::Begin(), Seq::empty());
        }
        match self.tactic_at(s, pos) {
            Some((q, t)) => {
                if !(pos < q && q <= s.len()) {
                    return (pos, Vec::new());
                }
                let (q2, rest) = self.tactics_at(s, q);
                let ghost rest0 = rest@;
                let mut out: Vec<Tactic<Expression>> = Vec::new();
                out.push(t);
                let mut rest = rest;
                out.append(&mut rest);
                proof {
                    lemma_tactics_cons(out@[0], rest0);
                    assert(out@ =~= seq![out@[0]] + rest0);
                }
                (q2, out)
            },
            None => (pos, Vec::new()),
        }
    }

    /// [`spec_interactive`], computed: the steps without `begin` and `qed.`.
    fn interactive_at(&self, s: &Vec<char>, pos: usize) -> (r: Option<(usize, Vec<Tactic<Expression>>)>)
        requires
            pos <= s.len(),
        ensures
            match r {
                Some((q, ts)) => spec_interactive(self.notations(), s@, pos as int) == Some((q as int, view_tactics(ts@)))
                    && pos <= q <= s.len(),
                None => spec_interactive(self.notations(), s@, pos as int) is None,
            },
    {
        let p1 = match tac_lit_at(s, pos, "begin") {
            Some(q) => q,
            None => {
                return None;
            },
        };
        let (q, ts) = self.tactics_at(s, p1);
        let ghost all = view_tactics(ts@);
        let mut ts = ts;
        let n = ts.len();
        let mut kept: Vec<Tactic<Expression>> = Vec::new();
        let mut rev: Vec<Tactic<Expression>> = Vec::new();
        proof {
            assert(all.subrange(0, n as int) =~= all);
            assert(view_tactics(rev@).reverse() =~= Seq::<Tac<Expr>>::empty());
            assert(drop_markers(all) + Seq::<Tac<Expr>>::empty() =~= drop_markers(all));
        }
        while ts.len() > 0
            invariant
                ts.len() <= n,
                n == all.len(),
                view_tactics(ts@) == all.subrange(0, ts.len() as int),
                drop_markers(all) == drop_markers(all.subrange(0, ts.len() as int)) + view_tactics(rev@).reverse(),
            decreases ts.len(),
        {
            let ghost before = view_tactics(ts@);
            let t = ts.pop().unwrap();
            let ghost k = ts.len() as int;
            proof {
                assert(before[k] == t@);
                assert(view_tactics(ts@) =~= all.subrange(0, k));
                let pre = all.subrange(0, k + 1);
                assert(pre.drop_last() =~= all.subrange(0, k));
                assert(pre.last() == t@);
            }
            let is_step = match &t {
                Tactic::Begin() => false,
                Tactic::Qed() => false,
                _ => true,
            };
            if is_step {
                let ghost rv = view_tactics(rev@);
                rev.push(t);
                proof {
                    assert(view_tactics(rev@) =~= rv.push(t@));
                    assert(rv.push(t@).reverse() =~= seq![t@] + rv.reverse());
                    let pre = all.subrange(0, k + 1);
                    assert(drop_markers(pre) == drop_markers(all.subrange(0, k)).push(t@));
                    assert(drop_markers(all.subrange(0, k)).push(t@) + rv.reverse() =~= drop_markers(all.subrange(0, k))
                        + (seq![t@] + rv.reverse()));
                }
            } else {
                proof {
                    let pre = all.subrange(0, k + 1);
                    assert(drop_markers(pre) == drop_markers(all.subrange(0, k)));
                }
            }
        }
        proof {
            assert(all.subrange(0, 0) =~= Seq::<Tac<Expr>>::empty());
        }
        while rev.len() > 0
            invariant
                drop_markers(all) == view_tactics(kept@) + view_tactics(rev@).reverse(),
            decreases rev.len(),
        {
            let ghost rv = view_tactics(rev@);
            let ghost kv = view_tactics(kept@);
            let t = rev.pop().unwrap();
            proof {
                assert(rv.last() == t@);
                assert(view_tactics(rev@) =~= rv.drop_last());
                assert(rv.reverse() =~= seq![t@] + rv.drop_last().reverse());
            }
            kept.push(t);
            proof {
                assert(view_tactics(kept@) =~= kv.push(t@));
                assert(kv + (seq![t@] + rv.drop_last().reverse()) =~= kv.push(t@) + rv.drop_last().reverse());
            }
        }
        proof {
            assert(view_tactics(rev@).reverse() =~= Seq::<Tac<Expr>>::empty());
            assert(view_tactics(kept@) + Seq::<Tac<Expr>>::empty() =~= view_tactics(kept@));
        }
        Some((q, kept))
    }
}

impl LofParser {
    /// [`spec_global`], computed.
    fn global_at(&self, s: &Vec<char>, pos: usize) -> (r: Option<(usize, Statement)>)
        requires
            pos <= s.len(),
        ensures
            sres(r) == spec_global(self.notations(), s@, pos as int),
            swithin(r, pos, s@.len()),
    {
        let p1 = keyword_at(s, pos, "global")?;
        let (p2, x, t) = self.opt_typed_from(s, p1)?;
        let p3 = lit_at(s, p2, ":=")?;
        let (p4, b) = self.expression_from(s, p3)?;
        let p5 = litc_at(s, p4, ';')?;
        Some((p5, Statement::Global(x, t, b)))
    }

    /// [`spec_axiom`], computed.
    fn axiom_at(&self, s: &Vec<char>, pos: usize) -> (r: Option<(usize, Statement)>)
        requires
            pos <= s.len(),
        ensures
            sres(r) == spec_axiom(self.notations(), s@, pos as int),
            swithin(r, pos, s@.len()),
    {
        let p1 = keyword_at(s, pos, "axiom")?;
        let (p2, x) = identifier_at(s, p1)?;
        let p3 = lit_at(s, p2, ":")?;
        let (p4, f) = self.expression_from(s, p3)?;
        let p5 = litc_at(s, p4, ';')?;
        Some((p5, Statement::Axiom(x, Box::new(f))))
    }

    /// [`spec_typed_param`], computed.
    fn typed_param_at(&self, s: &Vec<char>, pos: usize) -> (r: Option<(usize, (String, Expression))>)
        requires
            pos <= s.len(),
        ensures
            match r {
                Some((q, p)) => spec_typed_param(self.notations(), s@, pos as int) == Some((q as int, (p.0@, p.1@)))
                    && pos <= q <= s.len(),
                None => spec_typed_param(self.notations(), s@, pos as int) is None,
            },
    {
        let (p1, x) = identifier_at(s, pos)?;
        let p2 = lit_at(s, p1, ":")?;
        let (p3, t) = self.type_expression_from(s, p2)?;
        Some((p3, (x, t)))
    }

    /// [`spec_params_rest`], computed.
    fn params_rest_at(&self, s: &Vec<char>, pos: usize) -> (r: (usize, Vec<(String, Expression)>))
        requires
            pos <= s.len(),
        ensures
            r.0 == spec_params_rest(self.notations(), s@, pos as int).0,
            view_named(r.1@) == spec_params_rest(self.notations(), s@, pos as int).1,
            pos <= r.0 <= s.len(),
        decreases s@.len() - pos,
    {
        proof {
            lemma_named_empty();
        }
        match litc_at(s, pos, ',') {
            Some(q) => match self.typed_param_at(s, q) {
                Some((q2, p)) => {
                    if !(pos < q2 && q2 <= s.len()) {
                        return (pos, Vec::new());
                    }
                    let (q3, rest) = self.params_rest_at(s, q2);
                    let ghost rest0 = rest@;
                    let mut out: Vec<(String, Expression)> = Vec::new();
                    out.push(p);
                    let mut rest = rest;
                    out.append(&mut rest);
                    proof {
                        lemma_named_cons(out@[0], rest0);
                        assert(out@ =~= seq![out@[0]] + rest0);
                    }
                    (q3, out)
                },
                None => (pos, Vec::new()),
            },
            None => (pos, Vec::new()),
        }
    }

    /// [`spec_params`], computed.
    fn params_at(&self, s: &Vec<char>, pos: usize) -> (r: (usize, Vec<(String, Expression)>))
        requires
            pos <= s.len(),
        ensures
            r.0 == spec_params(self.notations(), s@, pos as int).0,
            view_named(r.1@) == spec_params(self.notations(), s@, pos as int).1,
            pos <= r.0 <= s.len(),
    {
        proof {
            lemma_named_empty();
        }
        match litc_at(s, pos, '(') {
            Some(p1) => match self.typed_param_at(s, p1) {
                Some((p2, first)) => {
                    let (p3, rest) = self.params_rest_at(s, p2);
                    let p4 = match litc_at(s, p3, ',') {
                        Some(q) => q,
                        None => p3,
                    };
                    match litc_at(s, p4, ')') {
                        Some(p5) => {
                            let ghost rest0 = rest@;
                            let mut out: Vec<(String, Expression)> = Vec::new();
                            out.push(first);
                            let mut rest = rest;
                            out.append(&mut rest);
                            proof {
                                lemma_named_cons(out@[0], rest0);
                                assert(out@ =~= seq![out@[0]] + rest0);
                            }
                            (p5, out)
                        },
                        None => (pos, Vec::new()),
                    }
                },
                None => (pos, Vec::new()),
            },
            None => (pos, Vec::new()),
        }
    }

    /// [`spec_function`], computed.
    fn function_at(&self, s: &Vec<char>, pos: usize) -> (r: Option<(usize, Statement)>)
        requires
            pos <= s.len(),
        ensures
            sres(r) == spec_function(self.notations(), s@, pos as int),
            swithin(r, pos, s@.len()),
    {
        let p1 = lit_at(s, pos, "fun")?;
        let (p2, is_rec) = match ws1_lit_at(s, p1, "rec") {
            Some(q) => (q, true),
            None => (p1, false),
        };
        let (p3, x) = ws1_identifier_at(s, p2)?;
        let (p4, params) = self.params_at(s, p3);
        let p5 = lit_at(s, p4, ":")?;
        let (p6, out) = self.type_expression_from(s, p5)?;
        let p7 = lit_at(s, p6, "{")?;
        let (p8, body) = self.local_from(s, p7)?;
        let p9 = lit_at(s, p8, "}")?;
        Some((p9, Statement::Fun(x, params, Box::new(out), Box::new(body), is_rec)))
    }

    /// [`spec_constructors`], computed.
    fn constructors_at(&self, s: &Vec<char>, pos: usize) -> (r: (usize, Vec<(String, Expression)>))
        requires
            pos <= s.len(),
        ensures
            r.0 == spec_constructors(self.notations(), s@, pos as int).0,
            view_named(r.1@) == spec_constructors(self.notations(), s@, pos as int).1,
            pos <= r.0 <= s.len(),
        decreases s@.len() - pos,
    {
        proof {
            lemma_named_empty();
        }
        let c = match litc_at(s, pos, '|') {
            Some(p1) => self.typed_param_at(s, p1),
            None => None,
        };
        match c {
            Some((q, c)) => {
                if !(pos < q && q <= s.len()) {
                    return (pos, Vec::new());
                }
                let (q2, rest) = self.constructors_at(s, q);
                let ghost rest0 = rest@;
                let mut out: Vec<(String, Expression)> = Vec::new();
                out.push(c);
                let mut rest = rest;
                out.append(&mut rest);
                proof {
                    lemma_named_cons(out@[0], rest0);
                    assert(out@ =~= seq![out@[0]] + rest0);
                }
                (q2, out)
            },
            None => (pos, Vec::new()),
        }
    }

    /// [`spec_inductive`], computed.
    fn inductive_at(&self, s: &Vec<char>, pos: usize) -> (r: Option<(usize, Statement)>)
        requires
            pos <= s.len(),
        ensures
            sres(r) == spec_inductive(self.notations(), s@, pos as int),
            swithin(r, pos, s@.len()),
    {
        let p1 = keyword_at(s, pos, "inductive")?;
        let (p2, x) = identifier_at(s, p1)?;
        let (p3, params) = self.params_at(s, p2);
        let p4 = lit_at(s, p3, ":")?;
        let (p5, arity) = self.type_expression_from(s, p4)?;
        let p6 = lit_at(s, p5, "{")?;
        let (p7, cs) = self.constructors_at(s, p6);
        let p8 = litc_at(s, p7, '}')?;
        Some((p8, Statement::Inductive(x, params, Box::new(arity), cs)))
    }

    /// [`spec_theorem`], computed.
    fn theorem_at(&self, s: &Vec<char>, pos: usize) -> (r: Option<(usize, Statement)>)
        requires
            pos <= s.len(),
        ensures
            sres(r) == spec_theorem(self.notations(), s@, pos as int),
            swithin(r, pos, s@.len()),
    {
        let p1 = match keyword_at(s, pos, "theorem") {
            Some(q) => q,
            None => match keyword_at(s, pos, "lemma") {
                Some(q) => q,
                None => keyword_at(s, pos, "proposition")?,
            },
        };
        let (p2, x) = identifier_at(s, p1)?;
        let p3 = lit_at(s, p2, ":")?;
        let (p4, f) = self.expression_from(s, p3)?;
        let p5 = lit_at(s, p4, ":=")?;
        let p6 = skip_ws_at(s, p5);
        proof {
            lemma_skip_ws_bounds(s@, p5 as int);
        }
        match self.parens_from(s, p6) {
            Some((q, t)) => Some((q, Statement::Theorem(x, f, Union::L(t)))),
            None => {
                let (q, ts) = self.interactive_at(s, p6)?;
                Some((q, Statement::Theorem(x, f, Union::R(ts))))
            },
        }
    }

    /// [`spec_auto`], computed.
    fn auto_at(&self, s: &Vec<char>, pos: usize) -> (r: Option<(usize, Statement)>)
        requires
            pos <= s.len(),
        ensures
            sres(r) == spec_auto(self.notations(), s@, pos as int),
            swithin(r, pos, s@.len()),
    {
        let p1 = keyword_at(s, pos, "auto")?;
        let (p2, f) = self.expression_from(s, p1)?;
        let p3 = lit_at(s, p2, ";")?;
        Some((p3, Statement::Auto(f)))
    }

    /// [`spec_types_rest`], computed.
    fn types_rest_at(&self, s: &Vec<char>, pos: usize) -> (r: (usize, Vec<Expression>))
        requires
            pos <= s.len(),
        ensures
            r.0 == spec_types_rest(self.notations(), s@, pos as int).0,
            view_exprs(r.1@) == spec_types_rest(self.notations(), s@, pos as int).1,
            pos <= r.0 <= s.len(),
        decreases s@.len() - pos,
    {
        proof {
            lemma_exprs_cons(Expression::Inferator(), Seq::empty());
        }
        match lit_at(s, pos, ",") {
            Some(q) => match self.type_expression_from(s, q) {
                Some((q2, t)) => {
                    if !(pos < q2 && q2 <= s.len()) {
                        return (pos, Vec::new());
                    }
                    let (q3, rest) = self.types_rest_at(s, q2);
                    let ghost rest0 = rest@;
                    let mut out: Vec<Expression> = Vec::new();
                    out.push(t);
                    let mut rest = rest;
                    out.append(&mut rest);
                    proof {
                        lemma_exprs_cons(out@[0], rest0);
                        assert(out@ =~= seq![out@[0]] + rest0);
                    }
                    (q3, out)
                },
                None => (pos, Vec::new()),
            },
            None => (pos, Vec::new()),
        }
    }

    /// [`spec_types`], computed.
    fn types_at(&self, s: &Vec<char>, pos: usize) -> (r: Option<(usize, Vec<Expression>)>)
        requires
            pos <= s.len(),
        ensures
            match r {
                Some((q, v)) => spec_types(self.notations(), s@, pos as int) == Some((q as int, view_exprs(v@)))
                    && pos <= q <= s.len(),
                None => spec_types(self.notations(), s@, pos as int) is None,
            },
    {
        let (p1, t) = self.type_expression_from(s, pos)?;
        let (p2, rest) = self.types_rest_at(s, p1);
        let ghost rest0 = rest@;
        let mut out: Vec<Expression> = Vec::new();
        out.push(t);
        let mut rest = rest;
        out.append(&mut rest);
        proof {
            lemma_exprs_cons(out@[0], rest0);
            assert(out@ =~= seq![out@[0]] + rest0);
        }
        Some((p2, out))
    }

    /// [`spec_solve`], computed.
    fn solve_at(&self, s: &Vec<char>, pos: usize) -> (r: Option<(usize, Statement)>)
        requires
            pos <= s.len(),
        ensures
            sres(r) == spec_solve(self.notations(), s@, pos as int),
            swithin(r, pos, s@.len()),
    {
        let p1 = lit_at(s, pos, "solve")?;
        let p2 = skip_ws_at(s, p1);
        proof {
            lemma_skip_ws_bounds(s@, p1 as int);
        }
        if !(p2 > p1) {
            return None;
        }
        let (q, gs) = self.types_at(s, p2)?;
        Some((q, Statement::Solve(gs)))
    }

    /// [`spec_hclause`], computed.
    fn hclause_at(&self, s: &Vec<char>, pos: usize) -> (r: Option<(usize, Statement)>)
        requires
            pos <= s.len(),
        ensures
            sres(r) == spec_hclause(self.notations(), s@, pos as int),
            swithin(r, pos, s@.len()),
    {
        proof {
            lemma_exprs_cons(Expression::Inferator(), Seq::empty());
        }
        let p1 = lit_at(s, pos, "hclause")?;
        let (p2, h) = self.type_expression_from(s, p1)?;
        let (p3, gs) = match lit_at(s, p2, "<-") {
            Some(q) => match self.types_at(s, q) {
                Some((q2, gs)) => (q2, gs),
                None => (p2, Vec::new()),
            },
            None => (p2, Vec::new()),
        };
        let p4 = lit_at(s, p3, ";")?;
        Some((p4, Statement::HClause(h, gs)))
    }

    /// [`spec_field`], computed.
    fn field_at(&self, s: &Vec<char>, pos: usize, key: &str) -> (r: Option<(usize, Expression)>)
        requires
            pos <= s.len(),
        ensures
            res(r) == spec_field(self.notations(), s@, pos as int, key@),
            within(r, pos, s@.len()),
    {
        let p1 = lit_at(s, pos, key)?;
        let p2 = lit_at(s, p1, ":=")?;
        let (p3, e) = self.expression_from(s, p2)?;
        let p4 = litc_at(s, p3, ';')?;
        Some((p4, e))
    }

    /// [`spec_entries`], computed.
    fn entries_at(&self, s: &Vec<char>, pos: usize) -> (r: (usize, Vec<(String, Expression)>))
        requires
            pos <= s.len(),
        ensures
            r.0 == spec_entries(self.notations(), s@, pos as int).0,
            view_named(r.1@) == spec_entries(self.notations(), s@, pos as int).1,
            pos <= r.0 <= s.len(),
        decreases s@.len() - pos,
    {
        proof {
            lemma_named_empty();
        }
        let e = match litc_at(s, pos, '|') {
            Some(p1) => match identifier_at(s, p1) {
                Some((p2, x)) => match lit_at(s, p2, "=>") {
                    Some(p3) => match self.type_expression_from(s, p3) {
                        Some((p4, t)) => Some((p4, (x, t))),
                        None => None,
                    },
                    None => None,
                },
                None => None,
            },
            None => None,
        };
        assert(match e {
            Some((q, x)) => spec_entry(self.notations(), s@, pos as int) == Some((q as int, (x.0@, x.1@))),
            None => spec_entry(self.notations(), s@, pos as int) is None,
        });
        match e {
            Some((q, x)) => {
                if !(pos < q && q <= s.len()) {
                    return (pos, Vec::new());
                }
                let (q2, rest) = self.entries_at(s, q);
                let ghost rest0 = rest@;
                let mut out: Vec<(String, Expression)> = Vec::new();
                out.push(x);
                let mut rest = rest;
                out.append(&mut rest);
                proof {
                    lemma_named_cons(out@[0], rest0);
                    assert(out@ =~= seq![out@[0]] + rest0);
                }
                (q2, out)
            },
            None => (pos, Vec::new()),
        }
    }

    /// [`spec_block`], computed.
    fn block_at(&self, s: &Vec<char>, pos: usize, name: &str) -> (r: Option<(usize, Vec<(String, Expression)>)>)
        requires
            pos <= s.len(),
        ensures
            match r {
                Some((q, v)) => spec_block(self.notations(), s@, pos as int, name@) == Some((q as int, view_named(v@)))
                    && pos <= q <= s.len(),
                None => spec_block(self.notations(), s@, pos as int, name@) is None,
            },
    {
        let p1 = lit_at(s, pos, name)?;
        let p2 = lit_at(s, p1, "{")?;
        let (p3, es) = self.entries_at(s, p2);
        let p4 = litc_at(s, p3, '}')?;
        Some((p4, es))
    }

    /// [`spec_equiv_head`], computed.
    fn equiv_head_at(&self, s: &Vec<char>, pos: usize) -> (r: Option<(usize, String, Expression, Expression)>)
        requires
            pos <= s.len(),
        ensures
            match r {
                Some((q, x, a, b)) => spec_equiv_head(self.notations(), s@, pos as int) == Some((q as int, x@, a@, b@))
                    && pos <= q <= s.len(),
                None => spec_equiv_head(self.notations(), s@, pos as int) is None,
            },
    {
        let p1 = keyword_at(s, pos, "equivalence")?;
        let (p2, x) = identifier_at(s, p1)?;
        let p3 = lit_at(s, p2, ":")?;
        let (p4, a) = self.type_expression_from(s, p3)?;
        let p5 = lit_at(s, p4, "<->")?;
        let (p6, b) = self.type_expression_from(s, p5)?;
        let p7 = lit_at(s, p6, "{")?;
        Some((p7, x, a, b))
    }

    /// [`spec_equiv_fields`], computed.
    fn equiv_fields_at(&self, s: &Vec<char>, pos: usize) -> (r: Option<(usize, Expression, Expression, Expression, Expression, Expression, Option<Box<Expression>>)>)
        requires
            pos <= s.len(),
        ensures
            match r {
                Some((q, f, g, sec, ret, de, eta)) => spec_equiv_fields(self.notations(), s@, pos as int) == Some((
                    q as int,
                    seq![f@, g@, sec@, ret@, de@],
                    match eta {
                        Some(e) => Some(e@),
                        None => None,
                    },
                )) && pos <= q <= s.len(),
                None => spec_equiv_fields(self.notations(), s@, pos as int) is None,
            },
    {
        let (q1, f) = self.field_at(s, pos, "forward")?;
        let (q2, g) = self.field_at(s, q1, "backward")?;
        let (q3, sec) = self.field_at(s, q2, "section")?;
        let (q4, ret) = self.field_at(s, q3, "retraction")?;
        let (q5, de) = self.field_at(s, q4, "dep_elim")?;
        match self.field_at(s, q5, "eta") {
            Some((q, e)) => Some((q, f, g, sec, ret, de, Some(Box::new(e)))),
            None => Some((q5, f, g, sec, ret, de, None)),
        }
    }

    /// [`spec_equivalence`], computed.
    fn equivalence_at(&self, s: &Vec<char>, pos: usize) -> (r: Option<(usize, Statement)>)
        requires
            pos <= s.len(),
        ensures
            sres(r) == spec_equivalence(self.notations(), s@, pos as int),
            swithin(r, pos, s@.len()),
    {
        let (p7, x, a, b) = self.equiv_head_at(s, pos)?;
        let (q6, f, g, sec, ret, de, eta) = self.equiv_fields_at(s, p7)?;
        let (q7, dc) = self.block_at(s, q6, "dep_constr")?;
        let (q8, io) = self.block_at(s, q7, "iota")?;
        let q9 = lit_at(s, q8, "}")?;
        Some((
            q9,
            Statement::Equivalence(
                x,
                Box::new(a),
                Box::new(b),
                Box::new(f),
                Box::new(g),
                Box::new(sec),
                Box::new(ret),
                Box::new(de),
                eta,
                dc,
                io,
            ),
        ))
    }

    /// [`spec_transport`], computed.
    fn transport_at(&self, s: &Vec<char>, pos: usize) -> (r: Option<(usize, Statement)>)
        requires
            pos <= s.len(),
        ensures
            sres(r) == spec_transport(self.notations(), s@, pos as int),
            swithin(r, pos, s@.len()),
    {
        let p1 = keyword_at(s, pos, "transport")?;
        let (p2, x) = identifier_at(s, p1)?;
        let p3 = lit_at(s, p2, ":")?;
        let (p4, t) = self.expression_from(s, p3)?;
        let p5 = lit_at(s, p4, "from")?;
        let (p6, old_name) = ws1_identifier_at(s, p5)?;
        let p7 = lit_at(s, p6, "using")?;
        let (p8, eq) = ws1_identifier_at(s, p7)?;
        let p9 = litc_at(s, p8, ';')?;
        Some((p9, Statement::Transport(x, Box::new(t), old_name, eq)))
    }

    /// [`spec_plain_statement`], computed.
    fn plain_statement_at(&self, s: &Vec<char>, pos: usize) -> (r: Option<(usize, Statement)>)
        requires
            pos <= s.len(),
        ensures
            sres(r) == spec_plain_statement(self.notations(), s@, pos as int),
            swithin(r, pos, s@.len()),
    {
        let r = comment_at(s, pos);
        if r.is_some() {
            return r;
        }
        let r = self.global_at(s, pos);
        if r.is_some() {
            return r;
        }
        let r = self.axiom_at(s, pos);
        if r.is_some() {
            return r;
        }
        let r = self.inductive_at(s, pos);
        if r.is_some() {
            return r;
        }
        let r = self.theorem_at(s, pos);
        if r.is_some() {
            return r;
        }
        self.function_at(s, pos)
    }

    /// [`spec_late_statement`], computed.
    fn late_statement_at(&self, s: &Vec<char>, pos: usize) -> (r: Option<(usize, Statement)>)
        requires
            pos <= s.len(),
        ensures
            sres(r) == spec_late_statement(self.notations(), s@, pos as int),
            swithin(r, pos, s@.len()),
    {
        let r = self.auto_at(s, pos);
        if r.is_some() {
            return r;
        }
        let r = self.solve_at(s, pos);
        if r.is_some() {
            return r;
        }
        let r = self.hclause_at(s, pos);
        if r.is_some() {
            return r;
        }
        let r = self.equivalence_at(s, pos);
        if r.is_some() {
            return r;
        }
        self.transport_at(s, pos)
    }
}

impl LofParser {
    /// [`spec_statement`], computed: also defines the notations that the
    /// statement (or a theory block in it) defines.
    fn statement_at(&mut self, s: &Vec<char>, pos: usize) -> (r: Option<(usize, Statement)>)
        requires
            pos <= s.len(),
        ensures
            sres(r) == spec_statement(old(self).config, old(self).notations(), s@, pos as int).0,
            final(self).notations() == spec_statement(old(self).config, old(self).notations(), s@, pos as int).1,
            final(self).config == old(self).config,
            swithin(r, pos, s@.len()),
        decreases s@.len() - pos, 2int,
    {
        let r = self.plain_statement_at(s, pos);
        if r.is_some() {
            return r;
        }
        let r = self.theory_block_at(s, pos);
        if r.is_some() {
            return r;
        }
        let r = self.notation_at(s, pos);
        if r.is_some() {
            return r;
        }
        self.late_statement_at(s, pos)
    }

    /// [`spec_theory_block`], computed.
    fn theory_block_at(&mut self, s: &Vec<char>, pos: usize) -> (r: Option<(usize, Statement)>)
        requires
            pos <= s.len(),
        ensures
            sres(r) == spec_theory_block(old(self).config, old(self).notations(), s@, pos as int).0,
            final(self).notations() == spec_theory_block(old(self).config, old(self).notations(), s@, pos as int).1,
            final(self).config == old(self).config,
            swithin(r, pos, s@.len()),
        decreases s@.len() - pos, 1int,
    {
        let p1 = lit_at(s, pos, "!theory_block")?;
        let (p2, system) = ws1_identifier_at(s, p1)?;
        let (p3, nodes) = self.nodes_at(s, p2);
        let p4 = lit_at(s, p3, "!end_block")?;
        match id_to_system(system.as_str()) {
            Ok(ts) => {
                if ts == self.config.system {
                    Some((p4, Statement::EmptyRoot(nodes)))
                } else {
                    proof {
                        lemma_view_asts_empty();
                    }
                    Some((p4, Statement::EmptyRoot(Vec::new())))
                }
            },
            Err(_) => None,
        }
    }

    /// [`spec_node`], computed.
    fn node_at(&mut self, s: &Vec<char>, pos: usize) -> (r: Option<(usize, LofAst)>)
        requires
            pos <= s.len(),
        ensures
            match r {
                Some((q, a)) => spec_node(old(self).config, old(self).notations(), s@, pos as int).0 == Some((
                    q as int,
                    view_ast(a),
                )) && pos <= q <= s.len(),
                None => spec_node(old(self).config, old(self).notations(), s@, pos as int).0 is None,
            },
            final(self).notations() == spec_node(old(self).config, old(self).notations(), s@, pos as int).1,
            final(self).config == old(self).config,
        decreases s@.len() - pos, 3int,
    {
        match self.expression_from(s, pos) {
            Some((q, e)) => {
                return Some((q, LofAst::Exp(e)));
            },
            None => {},
        }
        match self.statement_at(s, pos) {
            Some((q, st)) => Some((q, LofAst::Stm(st))),
            None => None,
        }
    }

    /// [`spec_nodes`], computed.
    fn nodes_at(&mut self, s: &Vec<char>, pos: usize) -> (r: (usize, Vec<LofAst>))
        requires
            pos <= s.len(),
        ensures
            r.0 == spec_nodes(old(self).config, old(self).notations(), s@, pos as int).0,
            view_asts(r.1@) == spec_nodes(old(self).config, old(self).notations(), s@, pos as int).1,
            final(self).notations() == spec_nodes(old(self).config, old(self).notations(), s@, pos as int).2,
            final(self).config == old(self).config,
            pos <= r.0 <= s.len(),
        decreases s@.len() - pos, 4int,
    {
        proof {
            lemma_view_asts_empty();
        }
        match self.node_at(s, pos) {
            Some((q, a)) => {
                if !(pos < q && q <= s.len()) {
                    return (pos, Vec::new());
                }
                let (q2, rest) = self.nodes_at(s, q);
                let ghost rest0 = rest@;
                let mut out: Vec<LofAst> = Vec::new();
                out.push(a);
                let mut rest = rest;
                out.append(&mut rest);
                proof {
                    lemma_view_asts_cons(out@[0], rest0);
                    assert(out@ =~= seq![out@[0]] + rest0);
                }
                (q2, out)
            },
            None => (pos, Vec::new()),
        }
    }

    /// Parses a statement at the start of `input`; a notation it defines is
    /// added after those defined so far.
    pub fn parse_statement<'a>(&mut self, input: &'a str) -> (r: Result<(&'a str, Statement), LofError>)
        ensures
            match spec_statement(old(self).config, old(self).notations(), input@, 0).0 {
                Some((q, st)) => r matches Ok((rest, x)) && rest@ == input@.subrange(q, input@.len() as int)
                    && view_statement(x) == st,
                None => r is Err,
            },
            final(self).notations() == spec_statement(old(self).config, old(self).notations(), input@, 0).1,
            final(self).config == old(self).config,
    {
        let s = str_chars(input);
        match self.statement_at(&s, 0) {
            Some((q, st)) => Ok((input.substring_char(q, s.len()), st)),
            None => Err(LofError::parse_error(input, "Tag")),
        }
    }

    /// Parses a theory block at the start of `input`.
    pub fn parse_theory_block<'a>(&mut self, input: &'a str) -> (r: Result<(&'a str, Statement), LofError>)
        ensures
            match spec_theory_block(old(self).config, old(self).notations(), input@, 0).0 {
                Some((q, st)) => r matches Ok((rest, x)) && rest@ == input@.subrange(q, input@.len() as int)
                    && view_statement(x) == st,
                None => r is Err,
            },
            final(self).notations() == spec_theory_block(old(self).config, old(self).notations(), input@, 0).1,
            final(self).config == old(self).config,
    {
        let s = str_chars(input);
        match self.theory_block_at(&s, 0) {
            Some((q, st)) => Ok((input.substring_char(q, s.len()), st)),
            None => Err(LofError::parse_error(input, "Tag")),
        }
    }

    /// Parses a node (an expression, or else a statement) at the start of `input`.
    pub fn parse_node<'a>(&mut self, input: &'a str) -> (r: Result<(&'a str, LofAst), LofError>)
        ensures
            match spec_node(old(self).config, old(self).notations(), input@, 0).0 {
                Some((q, a)) => r matches Ok((rest, x)) && rest@ == input@.subrange(q, input@.len() as int)
                    && view_ast(x) == a,
                None => r is Err,
            },
            final(self).notations() == spec_node(old(self).config, old(self).notations(), input@, 0).1,
            final(self).config == old(self).config,
    {
        let s = str_chars(input);
        match self.node_at(&s, 0) {
            Some((q, a)) => Ok((input.substring_char(q, s.len()), a)),
            None => Err(LofError::parse_error(input, "Tag")),
        }
    }

    /// Parses as many nodes as follow one another at the start of `input`:
    /// the rest of the input and the nodes.
    pub fn parse_nodes<'a>(&mut self, input: &'a str) -> (r: (&'a str, Vec<LofAst>))
        ensures
            r.0@ == input@.subrange(spec_nodes(old(self).config, old(self).notations(), input@, 0).0, input@.len() as int),
            view_asts(r.1@) == spec_nodes(old(self).config, old(self).notations(), input@, 0).1,
            final(self).notations() == spec_nodes(old(self).config, old(self).notations(), input@, 0).2,
            final(self).config == old(self).config,
    {
        let s = str_chars(input);
        let (q, nodes) = self.nodes_at(&s, 0);
        (input.substring_char(q, s.len()), nodes)
    }

    /// Parses the source text of the file at `filepath`: the input left after
    /// its nodes, and the file's root holding them.
    pub fn parse_source_text(&mut self, filepath: &str, source: &str) -> (r: (String, LofAst))
        ensures
            r.0@ == source@.subrange(spec_nodes(old(self).config, old(self).notations(), source@, 0).0, source@.len() as int),
            view_ast(r.1) == Ast::Stm(Stm::FileRoot(filepath@, spec_nodes(old(self).config, old(self).notations(), source@, 0).1)),
            final(self).notations() == spec_nodes(old(self).config, old(self).notations(), source@, 0).2,
            final(self).config == old(self).config,
    {
        let (rest, nodes) = self.parse_nodes(source);
        (String::from_str(rest), LofAst::Stm(Statement::FileRoot(String::from_str(filepath), nodes)))
    }

    /// Parses one step of an interactive proof at the start of `input`.
    pub fn parse_tactic<'a>(&self, input: &'a str) -> (r: Result<(&'a str, Tactic<Expression>), LofError>)
        ensures
            match spec_tactic(self.notations(), input@, 0) {
                Some((q, t)) => r matches Ok((rest, x)) && rest@ == input@.subrange(q, input@.len() as int) && x@ == t,
                None => r is Err,
            },
    {
        let s = str_chars(input);
        match self.tactic_at(&s, 0) {
            Some((q, t)) => Ok((input.substring_char(q, s.len()), t)),
            None => Err(LofError::parse_error(input, "Tag")),
        }
    }

    /// Parses an interactive proof at the start of `input`: its steps, without
    /// the `begin` and `qed.` markers.
    pub fn parse_interactive_proof<'a>(&self, input: &'a str) -> (r: Result<(&'a str, Vec<Tactic<Expression>>), LofError>)
        ensures
            match spec_interactive(self.notations(), input@, 0) {
                Some((q, ts)) => r matches Ok((rest, x)) && rest@ == input@.subrange(q, input@.len() as int)
                    && view_tactics(x@) == ts,
                None => r is Err,
            },
    {
        let s = str_chars(input);
        match self.interactive_at(&s, 0) {
            Some((q, ts)) => Ok((input.substring_char(q, s.len()), ts)),
            None => Err(LofError::parse_error(input, "Tag")),
        }
    }
}

} // verus!
