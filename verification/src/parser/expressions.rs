use vstd::prelude::*;
use vstd::string::*;
use crate::error::LofError;
use crate::parser::api::{
    lemma_application_view, lemma_match_expr_view, lemma_tuple_view, view_expr_branches, view_exprs,
    Expr, Expression, LofParser,
};
use crate::parser::grammar::{
    spec_abs, spec_app, spec_applicable, spec_arg_group, spec_arg_rest, spec_args, spec_argument,
    spec_arrow, spec_binder, spec_branch, spec_branches, spec_custom_from, spec_expression, spec_let,
    spec_local, spec_match, spec_meta, spec_non_custom, spec_opt_typed, spec_parens, spec_pattern,
    spec_pipe, spec_pipe_tail, spec_tokens, spec_tuple, spec_tuple_rest, spec_type_abs,
    spec_type_expression, spec_var,
};
use crate::parser::lexer::{
    identifier_at, keyword_at, lemma_skip_ws_bounds, lit_at, litc_at, skip_ws, skip_ws_at, ws1_lit_at,
};
use crate::parser::notation::{expand, expand_notation};
use crate::text::str_chars;

verus! {

/// The model of a parse result: the position after what was read and the
/// expression built.
pub open spec fn res(r: Option<(usize, Expression)>) -> Option<(int, Expr)> {
    match r {
        Some((q, e)) => Some((q as int, e@)),
        None => None,
    }
}

/// The model of placeholder bindings.
pub open spec fn view_args(v: Seq<(String, Expression)>) -> Seq<(Seq<char>, Expr)> {
    v.map_values(|p: (String, Expression)| (p.0@, p.1@))
}

/// A parse result that lies within the input, from `pos` on.
pub open spec fn within(r: Option<(usize, Expression)>, pos: usize, len: nat) -> bool {
    r matches Some((q, _)) ==> pos <= q <= len
}

proof fn lemma_view_exprs_concat(a: Seq<Expression>, b: Seq<Expression>)
    ensures
        view_exprs(a + b) == view_exprs(a) + view_exprs(b),
        view_exprs(Seq::<Expression>::empty()) == Seq::<Expr>::empty(),
{
    assert(view_exprs(a + b) =~= view_exprs(a) + view_exprs(b));
    assert(view_exprs(Seq::<Expression>::empty()) =~= Seq::<Expr>::empty());
}

proof fn lemma_view_exprs_cons(e: Expression, b: Seq<Expression>)
    ensures
        view_exprs(seq![e] + b) == seq![e@] + view_exprs(b),
{
    assert(view_exprs(seq![e] + b) =~= seq![e@] + view_exprs(b));
}

proof fn lemma_view_branches_cons(x: (Expression, Expression), b: Seq<(Expression, Expression)>)
    ensures
        view_expr_branches(seq![x] + b) == seq![(x.0@, x.1@)] + view_expr_branches(b),
{
    assert(view_expr_branches(seq![x] + b) =~= seq![(x.0@, x.1@)] + view_expr_branches(b));
}

proof fn lemma_view_branches_empty()
    ensures
        view_expr_branches(Seq::<(Expression, Expression)>::empty()) == Seq::<(Expr, Expr)>::empty(),
{
    assert(view_expr_branches(Seq::<(Expression, Expression)>::empty()) =~= Seq::<(Expr, Expr)>::empty());
}

proof fn lemma_view_args_cons(x: (String, Expression), b: Seq<(String, Expression)>)
    ensures
        view_args(seq![x] + b) == seq![(x.0@, x.1@)] + view_args(b),
{
    assert(view_args(seq![x] + b) =~= seq![(x.0@, x.1@)] + view_args(b));
}

proof fn lemma_view_args_empty()
    ensures
        view_args(Seq::<(String, Expression)>::empty()) == Seq::<(Seq<char>, Expr)>::empty(),
{
    assert(view_args(Seq::<(String, Expression)>::empty()) =~= Seq::<(Seq<char>, Expr)>::empty());
}

/// [`spec_meta`], computed.
fn meta_at(s: &Vec<char>, pos: usize) -> (r: Option<(usize, Expression)>)
    requires
        pos <= s.len(),
    ensures
        res(r) == spec_meta(s@, pos as int),
        within(r, pos, s@.len()),
{
    match litc_at(s, pos, '?') {
        Some(q) => Some((q, Expression::Inferator())),
        None => None,
    }
}

/// [`spec_var`], computed.
fn var_at(s: &Vec<char>, pos: usize) -> (r: Option<(usize, Expression)>)
    requires
        pos <= s.len(),
    ensures
        res(r) == spec_var(s@, pos as int),
        within(r, pos, s@.len()),
{
    match identifier_at(s, pos) {
        Some((q, w)) => Some((q, Expression::VarUse(w))),
        None => None,
    }
}

impl LofParser {
    /// The notations defined so far, each as its pattern tokens and its body.
    pub open spec fn notations(&self) -> Seq<(Seq<Seq<char>>, Expr)> {
        Seq::new(
            self.custom_notations@.len(),
            |i: int|
                (
                    self.custom_notations@[i].1.pattern_tokens@.map_values(|t: String| t@),
                    self.custom_notations@[i].1.body@,
                ),
        )
    }

    /// [`spec_expression`], computed.
    fn expression_at(&self, s: &Vec<char>, pos: usize) -> (r: Option<(usize, Expression)>)
        requires
            pos <= s.len(),
        ensures
            res(r) == spec_expression(self.notations(), s@, pos as int),
            within(r, pos, s@.len()),
        decreases s@.len() - pos, 10int, 0int,
    {
        let r = meta_at(s, pos);
        if r.is_some() {
            return r;
        }
        let r = self.abs_at(s, pos);
        if r.is_some() {
            return r;
        }
        let r = self.type_abs_at(s, pos);
        if r.is_some() {
            return r;
        }
        let r = self.arrow_at(s, pos);
        if r.is_some() {
            return r;
        }
        let r = self.let_at(s, pos);
        if r.is_some() {
            return r;
        }
        let r = self.match_at(s, pos);
        if r.is_some() {
            return r;
        }
        let r = self.custom_from_at(0, s, pos);
        if r.is_some() {
            return r;
        }
        let r = self.app_at(s, pos);
        if r.is_some() {
            return r;
        }
        let r = self.parens_at(s, pos);
        if r.is_some() {
            return r;
        }
        let r = self.tuple_at(s, pos);
        if r.is_some() {
            return r;
        }
        let r = self.pipe_at(s, pos);
        if r.is_some() {
            return r;
        }
        var_at(s, pos)
    }

    /// [`spec_local`], computed.
    fn local_at(&self, s: &Vec<char>, pos: usize) -> (r: Option<(usize, Expression)>)
        requires
            pos <= s.len(),
        ensures
            res(r) == spec_local(self.notations(), s@, pos as int),
            within(r, pos, s@.len()),
        decreases s@.len() - pos, 11int, 0int,
    {
        let r = self.let_at(s, pos);
        if r.is_some() {
            return r;
        }
        self.expression_at(s, pos)
    }

    /// [`spec_type_expression`], computed.
    fn type_expression_at(&self, s: &Vec<char>, pos: usize) -> (r: Option<(usize, Expression)>)
        requires
            pos <= s.len(),
        ensures
            res(r) == spec_type_expression(self.notations(), s@, pos as int),
            within(r, pos, s@.len()),
        decreases s@.len() - pos, 5int, 0int,
    {
        let r = self.arrow_at(s, pos);
        if r.is_some() {
            return r;
        }
        let r = self.parens_at(s, pos);
        if r.is_some() {
            return r;
        }
        let r = self.app_at(s, pos);
        if r.is_some() {
            return r;
        }
        let r = var_at(s, pos);
        if r.is_some() {
            return r;
        }
        self.type_abs_at(s, pos)
    }

    /// [`spec_non_custom`], computed.
    fn non_custom_at(&self, s: &Vec<char>, pos: usize) -> (r: Option<(usize, Expression)>)
        requires
            pos <= s.len(),
        ensures
            res(r) == spec_non_custom(self.notations(), s@, pos as int),
            within(r, pos, s@.len()),
        decreases s@.len() - pos, 7int, 0int,
    {
        let r = meta_at(s, pos);
        if r.is_some() {
            return r;
        }
        let r = self.abs_at(s, pos);
        if r.is_some() {
            return r;
        }
        let r = self.type_abs_at(s, pos);
        if r.is_some() {
            return r;
        }
        let r = self.arrow_at(s, pos);
        if r.is_some() {
            return r;
        }
        let r = self.app_at(s, pos);
        if r.is_some() {
            return r;
        }
        let r = self.pipe_at(s, pos);
        if r.is_some() {
            return r;
        }
        let r = var_at(s, pos);
        if r.is_some() {
            return r;
        }
        let r = self.parens_at(s, pos);
        if r.is_some() {
            return r;
        }
        let r = self.tuple_at(s, pos);
        if r.is_some() {
            return r;
        }
        self.match_at(s, pos)
    }

    /// [`spec_custom_from`], computed.
    fn custom_from_at(&self, k: usize, s: &Vec<char>, pos: usize) -> (r: Option<(usize, Expression)>)
        requires
            pos <= s.len(),
        ensures
            res(r) == spec_custom_from(self.notations(), k as int, s@, pos as int),
            within(r, pos, s@.len()),
        decreases s@.len() - pos, 9int, self.notations().len() - k,
    {
        if k >= self.custom_notations.len() {
            return None;
        }
        let ghost n = self.notations();
        match self.tokens_at(k, 0, s, pos) {
            Some((q, args)) => {
                let body = expand_notation(&self.custom_notations[k].1.body, &args);
                Some((q, body))
            },
            None => self.custom_from_at(k + 1, s, pos),
        }
    }

    /// [`spec_tokens`] for the pattern of the `k`-th notation, computed.
    fn tokens_at(&self, k: usize, i: usize, s: &Vec<char>, pos: usize) -> (r: Option<(usize, Vec<(String, Expression)>)>)
        requires
            pos <= s.len(),
            k < self.custom_notations.len(),
            i <= self.custom_notations@[k as int].1.pattern_tokens.len(),
        ensures
            match r {
                Some((q, v)) => spec_tokens(self.notations(), self.notations()[k as int].0, i as int, s@, pos as int)
                    == Some((q as int, view_args(v@))) && pos <= q <= s.len(),
                None => spec_tokens(self.notations(), self.notations()[k as int].0, i as int, s@, pos as int) is None,
            },
        decreases s@.len() - pos, 8int, self.notations()[k as int].0.len() - i,
    {
        let ghost n = self.notations();
        let ghost toks = n[k as int].0;
        let tokens = &self.custom_notations[k].1.pattern_tokens;
        assert(toks == tokens@.map_values(|t: String| t@));
        if i == tokens.len() {
            proof {
                lemma_view_args_empty();
            }
            return Some((pos, Vec::new()));
        }
        let tok = &tokens[i];
        assert(toks[i as int] == tok@);
        let placeholder = tok.as_str().unicode_len() > 0 && tok.as_str().get_char(0) == '_';
        if placeholder {
            match self.non_custom_at(s, pos) {
                Some((q, e)) => {
                    if !(pos < q && q <= s.len()) {
                        return None;
                    }
                    match self.tokens_at(k, i + 1, s, q) {
                        Some((r, rest)) => {
                            let ghost rest0 = rest@;
                            let mut out: Vec<(String, Expression)> = Vec::new();
                            out.push((tok.clone(), e));
                            let mut rest = rest;
                            out.append(&mut rest);
                            proof {
                                lemma_view_args_cons(out@[0], rest0);
                                assert(out@ =~= seq![out@[0]] + rest0);
                            }
                            Some((r, out))
                        },
                        None => None,
                    }
                },
                None => None,
            }
        } else {
            match lit_at(s, pos, tok.as_str()) {
                Some(q) => self.tokens_at(k, i + 1, s, q),
                None => None,
            }
        }
    }

    /// [`spec_argument`], computed.
    fn argument_at(&self, s: &Vec<char>, pos: usize) -> (r: Option<(usize, Expression)>)
        requires
            pos <= s.len(),
        ensures
            res(r) == spec_argument(self.notations(), s@, pos as int),
            within(r, pos, s@.len()),
        decreases s@.len() - pos, 10int, 0int,
    {
        let r = self.custom_from_at(0, s, pos);
        if r.is_some() {
            return r;
        }
        let r = self.app_at(s, pos);
        if r.is_some() {
            return r;
        }
        let r = var_at(s, pos);
        if r.is_some() {
            return r;
        }
        let r = meta_at(s, pos);
        if r.is_some() {
            return r;
        }
        self.parens_at(s, pos)
    }

    /// [`spec_applicable`], computed.
    fn applicable_at(&self, s: &Vec<char>, pos: usize) -> (r: Option<(usize, Expression)>)
        requires
            pos <= s.len(),
        ensures
            res(r) == spec_applicable(self.notations(), s@, pos as int),
            within(r, pos, s@.len()),
        decreases s@.len() - pos, 2int, 0int,
    {
        let r = var_at(s, pos);
        if r.is_some() {
            return r;
        }
        let r = self.abs_at(s, pos);
        if r.is_some() {
            return r;
        }
        let r = self.type_abs_at(s, pos);
        if r.is_some() {
            return r;
        }
        self.parens_at(s, pos)
    }

    /// [`spec_app`], computed.
    fn app_at(&self, s: &Vec<char>, pos: usize) -> (r: Option<(usize, Expression)>)
        requires
            pos <= s.len(),
        ensures
            res(r) == spec_app(self.notations(), s@, pos as int),
            within(r, pos, s@.len()),
        decreases s@.len() - pos, 3int, 0int,
    {
        match self.applicable_at(s, pos) {
            Some((p1, f)) => {
                if !(pos < p1 && p1 <= s.len()) {
                    return None;
                }
                let (p2, args) = self.args_at(s, p1);
                if args.len() > 0 {
                    proof {
                        lemma_application_view(f, args);
                    }
                    Some((p2, Expression::Application(Box::new(f), args)))
                } else {
                    None
                }
            },
            None => None,
        }
    }

    /// [`spec_args`], computed.
    fn args_at(&self, s: &Vec<char>, pos: usize) -> (r: (usize, Vec<Expression>))
        requires
            pos <= s.len(),
        ensures
            r.0 == spec_args(self.notations(), s@, pos as int).0,
            view_exprs(r.1@) == spec_args(self.notations(), s@, pos as int).1,
            pos <= r.0 <= s.len(),
        decreases s@.len() - pos, 1int, 0int,
    {
        proof {
            lemma_view_exprs_concat(Seq::empty(), Seq::empty());
        }
        match self.arg_group_at(s, pos) {
            Some((p1, g)) => {
                if !(pos < p1 && p1 <= s.len()) {
                    return (pos, Vec::new());
                }
                let (p2, more) = self.args_at(s, p1);
                let ghost g0 = g@;
                let ghost m0 = more@;
                let mut g = g;
                let mut more = more;
                g.append(&mut more);
                proof {
                    lemma_view_exprs_concat(g0, m0);
                }
                (p2, g)
            },
            None => (pos, Vec::new()),
        }
    }

    /// [`spec_arg_group`], computed.
    fn arg_group_at(&self, s: &Vec<char>, pos: usize) -> (r: Option<(usize, Vec<Expression>)>)
        requires
            pos <= s.len(),
        ensures
            match r {
                Some((q, v)) => spec_arg_group(self.notations(), s@, pos as int) == Some((q as int, view_exprs(v@)))
                    && pos <= q <= s.len(),
                None => spec_arg_group(self.notations(), s@, pos as int) is None,
            },
        decreases s@.len() - pos, 0int, 0int,
    {
        match litc_at(s, pos, '(') {
            Some(p1) => {
                match self.argument_at(s, p1) {
                    Some((p2, a)) => {
                        if !(pos < p2 && p2 <= s.len()) {
                            return None;
                        }
                        let (p3, rest) = self.arg_rest_at(s, p2);
                        let p4 = match litc_at(s, p3, ',') {
                            Some(q) => q,
                            None => p3,
                        };
                        match litc_at(s, p4, ')') {
                            Some(p5) => {
                                let ghost rest0 = rest@;
                                let mut out: Vec<Expression> = Vec::new();
                                out.push(a);
                                let mut rest = rest;
                                out.append(&mut rest);
                                proof {
                                    lemma_view_exprs_cons(out@[0], rest0);
                                    assert(out@ =~= seq![out@[0]] + rest0);
                                }
                                Some((p5, out))
                            },
                            None => None,
                        }
                    },
                    None => None,
                }
            },
            None => {
                let p = skip_ws_at(s, pos);
                proof {
                    lemma_skip_ws_bounds(s@, pos as int);
                }
                if p > pos {
                    let a = match var_at(s, p) {
                        Some(x) => Some(x),
                        None => meta_at(s, p),
                    };
                    match a {
                        Some((q, e)) => {
                            let mut out: Vec<Expression> = Vec::new();
                            out.push(e);
                            proof {
                                lemma_view_exprs_cons(out@[0], Seq::empty());
                                assert(out@ =~= seq![out@[0]] + Seq::<Expression>::empty());
                                lemma_view_exprs_concat(Seq::empty(), Seq::empty());
                            }
                            Some((q, out))
                        },
                        None => None,
                    }
                } else {
                    None
                }
            },
        }
    }

    /// [`spec_arg_rest`], computed.
    fn arg_rest_at(&self, s: &Vec<char>, pos: usize) -> (r: (usize, Vec<Expression>))
        requires
            pos <= s.len(),
        ensures
            r.0 == spec_arg_rest(self.notations(), s@, pos as int).0,
            view_exprs(r.1@) == spec_arg_rest(self.notations(), s@, pos as int).1,
            pos <= r.0 <= s.len(),
        decreases s@.len() - pos, 0int, 0int,
    {
        proof {
            lemma_view_exprs_concat(Seq::empty(), Seq::empty());
        }
        match litc_at(s, pos, ',') {
            Some(q) => {
                match self.argument_at(s, q) {
                    Some((q2, a)) => {
                        if !(pos < q2 && q2 <= s.len()) {
                            return (pos, Vec::new());
                        }
                        let (q3, rest) = self.arg_rest_at(s, q2);
                        let ghost rest0 = rest@;
                        let mut out: Vec<Expression> = Vec::new();
                        out.push(a);
                        let mut rest = rest;
                        out.append(&mut rest);
                        proof {
                            lemma_view_exprs_cons(out@[0], rest0);
                            assert(out@ =~= seq![out@[0]] + rest0);
                        }
                        (q3, out)
                    },
                    None => (pos, Vec::new()),
                }
            },
            None => (pos, Vec::new()),
        }
    }

    /// [`spec_parens`], computed.
    fn parens_at(&self, s: &Vec<char>, pos: usize) -> (r: Option<(usize, Expression)>)
        requires
            pos <= s.len(),
        ensures
            res(r) == spec_parens(self.notations(), s@, pos as int),
            within(r, pos, s@.len()),
        decreases s@.len() - pos, 1int, 0int,
    {
        match litc_at(s, pos, '(') {
            Some(p1) => match self.expression_at(s, p1) {
                Some((p2, e)) => match litc_at(s, p2, ')') {
                    Some(p3) => Some((p3, e)),
                    None => None,
                },
                None => None,
            },
            None => None,
        }
    }

    /// [`spec_tuple`], computed.
    fn tuple_at(&self, s: &Vec<char>, pos: usize) -> (r: Option<(usize, Expression)>)
        requires
            pos <= s.len(),
        ensures
            res(r) == spec_tuple(self.notations(), s@, pos as int),
            within(r, pos, s@.len()),
        decreases s@.len() - pos, 1int, 0int,
    {
        match litc_at(s, pos, '(') {
            Some(p1) => match self.expression_at(s, p1) {
                Some((p2, e0)) => {
                    if !(pos < p2 && p2 <= s.len()) {
                        return None;
                    }
                    let (p3, rest) = self.tuple_rest_at(s, p2);
                    let p4 = match litc_at(s, p3, ',') {
                        Some(q) => q,
                        None => p3,
                    };
                    match litc_at(s, p4, ')') {
                        Some(p5) => {
                            let ghost rest0 = rest@;
                            let mut out: Vec<Expression> = Vec::new();
                            out.push(e0);
                            let mut rest = rest;
                            out.append(&mut rest);
                            proof {
                                lemma_view_exprs_cons(out@[0], rest0);
                                assert(out@ =~= seq![out@[0]] + rest0);
                                lemma_tuple_view(out);
                            }
                            Some((p5, Expression::Tuple(out)))
                        },
                        None => None,
                    }
                },
                None => None,
            },
            None => None,
        }
    }

    /// [`spec_tuple_rest`], computed.
    fn tuple_rest_at(&self, s: &Vec<char>, pos: usize) -> (r: (usize, Vec<Expression>))
        requires
            pos <= s.len(),
        ensures
            r.0 == spec_tuple_rest(self.notations(), s@, pos as int).0,
            view_exprs(r.1@) == spec_tuple_rest(self.notations(), s@, pos as int).1,
            pos <= r.0 <= s.len(),
        decreases s@.len() - pos, 0int, 0int,
    {
        proof {
            lemma_view_exprs_concat(Seq::empty(), Seq::empty());
        }
        match litc_at(s, pos, ',') {
            Some(q) => match self.expression_at(s, q) {
                Some((q2, e)) => {
                    if !(pos < q2 && q2 <= s.len()) {
                        return (pos, Vec::new());
                    }
                    let (q3, rest) = self.tuple_rest_at(s, q2);
                    let ghost rest0 = rest@;
                    let mut out: Vec<Expression> = Vec::new();
                    out.push(e);
                    let mut rest = rest;
                    out.append(&mut rest);
                    proof {
                        lemma_view_exprs_cons(out@[0], rest0);
                        assert(out@ =~= seq![out@[0]] + rest0);
                    }
                    (q3, out)
                },
                None => (pos, Vec::new()),
            },
            None => (pos, Vec::new()),
        }
    }

    /// [`spec_binder`], computed.
    fn binder_at(&self, s: &Vec<char>, pos: usize) -> (r: Option<(usize, String, Expression)>)
        requires
            pos <= s.len(),
        ensures
            match r {
                Some((q, x, t)) => spec_binder(self.notations(), s@, pos as int) == Some((q as int, x@, t@))
                    && pos <= q <= s.len(),
                None => spec_binder(self.notations(), s@, pos as int) is None,
            },
        decreases s@.len() - pos, 0int, 0int,
    {
        match identifier_at(s, pos) {
            Some((p1, name)) => match litc_at(s, p1, ':') {
                Some(p2) => match self.type_expression_at(s, p2) {
                    Some((p3, ty)) => Some((p3, name, ty)),
                    None => None,
                },
                None => None,
            },
            None => None,
        }
    }

    /// [`spec_abs`], computed.
    fn abs_at(&self, s: &Vec<char>, pos: usize) -> (r: Option<(usize, Expression)>)
        requires
            pos <= s.len(),
        ensures
            res(r) == spec_abs(self.notations(), s@, pos as int),
            within(r, pos, s@.len()),
        decreases s@.len() - pos, 1int, 0int,
    {
        let p1 = match lit_at(s, pos, "λ") {
            Some(q) => q,
            None => match lit_at(s, pos, "\\lambda ") {
                Some(q) => q,
                None => {
                    return None;
                },
            },
        };
        if !(pos < p1 && p1 <= s.len()) {
            return None;
        }
        let ghost sb = spec_binder(self.notations(), s@, p1 as int);
        let (p2, name, ty) = match self.binder_at(s, p1) {
            Some((q, x, t)) => (q, x, t),
            None => {
                let it = String::from_str("it");
                let unit = String::from_str("Unit");
                assert(it@ == "it"@ && unit@ == "Unit"@);
                (p1, it, Expression::VarUse(unit))
            },
        };
        let ghost expected: (int, Seq<char>, Expr) = match sb {
            Some((q, x, t)) => (q, x, t),
            None => (p1 as int, "it"@, Expr::VarUse("Unit"@)),
        };
        assert(expected == (p2 as int, name@, ty@));
        assert(p1 <= p2 && p2 <= s.len());
        match litc_at(s, p2, '.') {
            Some(p3) => {
                assert(pos < p3 && p3 <= s.len());
                match self.expression_at(s, p3) {
                    Some((p4, body)) => Some((p4, Expression::Abstraction(name, Box::new(ty), Box::new(body)))),
                    None => None,
                }
            },
            None => None,
        }
    }

    /// [`spec_type_abs`], computed.
    fn type_abs_at(&self, s: &Vec<char>, pos: usize) -> (r: Option<(usize, Expression)>)
        requires
            pos <= s.len(),
        ensures
            res(r) == spec_type_abs(self.notations(), s@, pos as int),
            within(r, pos, s@.len()),
        decreases s@.len() - pos, 1int, 0int,
    {
        let p1 = match lit_at(s, pos, "Π") {
            Some(q) => q,
            None => match lit_at(s, pos, "∀") {
                Some(q) => q,
                None => match lit_at(s, pos, "\\forall") {
                    Some(q) => q,
                    None => {
                        return None;
                    },
                },
            },
        };
        if !(pos < p1 && p1 <= s.len()) {
            return None;
        }
        match self.binder_at(s, p1) {
            Some((p2, name, ty)) => match litc_at(s, p2, '.') {
                Some(p3) => match self.expression_at(s, p3) {
                    Some((p4, body)) => Some((p4, Expression::TypeProduct(name, Box::new(ty), Box::new(body)))),
                    None => None,
                },
                None => None,
            },
            None => None,
        }
    }

    /// [`spec_arrow`], computed.
    fn arrow_at(&self, s: &Vec<char>, pos: usize) -> (r: Option<(usize, Expression)>)
        requires
            pos <= s.len(),
        ensures
            res(r) == spec_arrow(self.notations(), s@, pos as int),
            within(r, pos, s@.len()),
        decreases s@.len() - pos, 4int, 0int,
    {
        let dom = match self.parens_at(s, pos) {
            Some(x) => Some(x),
            None => match self.app_at(s, pos) {
                Some(x) => Some(x),
                None => var_at(s, pos),
            },
        };
        match dom {
            Some((p1, d)) => match lit_at(s, p1, "->") {
                Some(p2) => {
                    if !(pos < p2 && p2 <= s.len()) {
                        return None;
                    }
                    match self.type_expression_at(s, p2) {
                        Some((p3, c)) => Some((p3, Expression::Arrow(Box::new(d), Box::new(c)))),
                        None => None,
                    }
                },
                None => None,
            },
            None => None,
        }
    }

    /// [`spec_opt_typed`], computed.
    fn opt_typed_at(&self, s: &Vec<char>, pos: usize) -> (r: Option<(usize, String, Option<Expression>)>)
        requires
            pos <= s.len(),
        ensures
            match r {
                Some((q, x, t)) => spec_opt_typed(self.notations(), s@, pos as int) == Some((
                    q as int,
                    x@,
                    match t {
                        Some(tt) => Some(tt@),
                        None => None,
                    },
                )) && pos <= q <= s.len(),
                None => spec_opt_typed(self.notations(), s@, pos as int) is None,
            },
        decreases s@.len() - pos, 0int, 0int,
    {
        match identifier_at(s, pos) {
            Some((p1, name)) => match litc_at(s, p1, ':') {
                Some(p2) => match self.type_expression_at(s, p2) {
                    Some((p3, ty)) => Some((p3, name, Some(ty))),
                    None => Some((p1, name, None)),
                },
                None => Some((p1, name, None)),
            },
            None => None,
        }
    }

    /// [`spec_let`], computed.
    fn let_at(&self, s: &Vec<char>, pos: usize) -> (r: Option<(usize, Expression)>)
        requires
            pos <= s.len(),
        ensures
            res(r) == spec_let(self.notations(), s@, pos as int),
            within(r, pos, s@.len()),
        decreases s@.len() - pos, 1int, 0int,
    {
        let p1 = match keyword_at(s, pos, "let") {
            Some(q) => q,
            None => {
                return None;
            },
        };
        let (p2, name, oty) = match self.opt_typed_at(s, p1) {
            Some(x) => x,
            None => {
                return None;
            },
        };
        let p3 = match lit_at(s, p2, ":=") {
            Some(q) => q,
            None => {
                return None;
            },
        };
        if !(pos < p3 && p3 <= s.len()) {
            return None;
        }
        let (p4, body) = match self.expression_at(s, p3) {
            Some(x) => x,
            None => {
                return None;
            },
        };
        let p5 = match litc_at(s, p4, ';') {
            Some(q) => q,
            None => {
                return None;
            },
        };
        let p6 = skip_ws_at(s, p5);
        proof {
            lemma_skip_ws_bounds(s@, p5 as int);
        }
        if !(p6 > p5) {
            return None;
        }
        assert(pos < p3 && p3 <= p4 && p4 < p5 && p5 < p6 && p6 <= s.len());
        match self.local_at(s, p6) {
            Some((p7, scope)) => {
                let e = Expression::Let(name, Box::new(oty), Box::new(body), Box::new(scope));
                assert(e@ == Expr::Let(
                    name@,
                    match oty {
                        Some(t) => Some(Box::new(t@)),
                        None => None,
                    },
                    Box::new(body@),
                    Box::new(scope@),
                ));
                Some((p7, e))
            },
            None => None,
        }
    }

    /// [`spec_pattern`], computed.
    fn pattern_at(&self, s: &Vec<char>, pos: usize) -> (r: Option<(usize, Expression)>)
        requires
            pos <= s.len(),
        ensures
            res(r) == spec_pattern(self.notations(), s@, pos as int),
            within(r, pos, s@.len()),
        decreases s@.len() - pos, 10int, 0int,
    {
        let r = self.custom_from_at(0, s, pos);
        if r.is_some() {
            return r;
        }
        let r = self.app_at(s, pos);
        if r.is_some() {
            return r;
        }
        var_at(s, pos)
    }

    /// [`spec_branch`], computed.
    fn branch_at(&self, s: &Vec<char>, pos: usize) -> (r: Option<(usize, (Expression, Expression))>)
        requires
            pos <= s.len(),
        ensures
            match r {
                Some((q, b)) => spec_branch(self.notations(), s@, pos as int) == Some((q as int, (b.0@, b.1@)))
                    && pos <= q <= s.len(),
                None => spec_branch(self.notations(), s@, pos as int) is None,
            },
        decreases s@.len() - pos, 1int, 0int,
    {
        let p1 = match litc_at(s, pos, '|') {
            Some(q) => q,
            None => {
                return None;
            },
        };
        let (p2, pat) = match self.pattern_at(s, p1) {
            Some(x) => x,
            None => {
                return None;
            },
        };
        let p3 = match lit_at(s, p2, "=>") {
            Some(q) => q,
            None => {
                return None;
            },
        };
        if !(pos < p3 && p3 <= s.len()) {
            return None;
        }
        let (p4, body) = match self.expression_at(s, p3) {
            Some(x) => x,
            None => {
                return None;
            },
        };
        match litc_at(s, p4, ',') {
            Some(p5) => Some((p5, (pat, body))),
            None => None,
        }
    }

    /// [`spec_branches`], computed.
    fn branches_at(&self, s: &Vec<char>, pos: usize) -> (r: (usize, Vec<(Expression, Expression)>))
        requires
            pos <= s.len(),
        ensures
            r.0 == spec_branches(self.notations(), s@, pos as int).0,
            view_expr_branches(r.1@) == spec_branches(self.notations(), s@, pos as int).1,
            pos <= r.0 <= s.len(),
        decreases s@.len() - pos, 2int, 0int,
    {
        proof {
            lemma_view_branches_empty();
        }
        match self.branch_at(s, pos) {
            Some((p1, b)) => {
                if !(pos < p1 && p1 <= s.len()) {
                    return (pos, Vec::new());
                }
                let (p2, more) = self.branches_at(s, p1);
                let ghost m0 = more@;
                let mut out: Vec<(Expression, Expression)> = Vec::new();
                out.push(b);
                let mut more = more;
                out.append(&mut more);
                proof {
                    lemma_view_branches_cons(out@[0], m0);
                    assert(out@ =~= seq![out@[0]] + m0);
                }
                (p2, out)
            },
            None => (pos, Vec::new()),
        }
    }

    /// [`spec_match`], computed.
    fn match_at(&self, s: &Vec<char>, pos: usize) -> (r: Option<(usize, Expression)>)
        requires
            pos <= s.len(),
        ensures
            res(r) == spec_match(self.notations(), s@, pos as int),
            within(r, pos, s@.len()),
        decreases s@.len() - pos, 1int, 0int,
    {
        let p1 = match keyword_at(s, pos, "match") {
            Some(q) => q,
            None => {
                return None;
            },
        };
        let (p2, t) = match self.expression_at(s, p1) {
            Some(x) => x,
            None => {
                return None;
            },
        };
        let p3 = match ws1_lit_at(s, p2, "with") {
            Some(q) => q,
            None => {
                return None;
            },
        };
        let (p4, bs) = self.branches_at(s, p3);
        assert(view_expr_branches(bs@).len() == bs@.len());
        assert(spec_expression(self.notations(), s@, p1 as int) == Some((p2 as int, t@)));
        if bs.len() > 0 {
            proof {
                lemma_match_expr_view(t, bs);
            }
            Some((p4, Expression::Match(Box::new(t), bs)))
        } else {
            None
        }
    }

    /// [`spec_pipe`], computed.
    fn pipe_at(&self, s: &Vec<char>, pos: usize) -> (r: Option<(usize, Expression)>)
        requires
            pos <= s.len(),
        ensures
            res(r) == spec_pipe(self.notations(), s@, pos as int),
            within(r, pos, s@.len()),
        decreases s@.len() - pos, 6int, 0int,
    {
        match self.type_expression_at(s, pos) {
            Some((p1, t0)) => {
                if !(pos < p1 && p1 <= s.len()) {
                    return None;
                }
                let (p2, rest) = self.pipe_tail_at(s, p1);
                if rest.len() > 0 {
                    let ghost rest0 = rest@;
                    let mut out: Vec<Expression> = Vec::new();
                    out.push(t0);
                    let mut rest = rest;
                    out.append(&mut rest);
                    proof {
                        lemma_view_exprs_cons(out@[0], rest0);
                        assert(out@ =~= seq![out@[0]] + rest0);
                        lemma_tuple_view(out);
                    }
                    Some((p2, Expression::Pipe(out)))
                } else {
                    None
                }
            },
            None => None,
        }
    }

    /// [`spec_pipe_tail`], computed.
    fn pipe_tail_at(&self, s: &Vec<char>, pos: usize) -> (r: (usize, Vec<Expression>))
        requires
            pos <= s.len(),
        ensures
            r.0 == spec_pipe_tail(self.notations(), s@, pos as int).0,
            view_exprs(r.1@) == spec_pipe_tail(self.notations(), s@, pos as int).1,
            pos <= r.0 <= s.len(),
        decreases s@.len() - pos, 0int, 0int,
    {
        proof {
            lemma_view_exprs_concat(Seq::empty(), Seq::empty());
        }
        let p = skip_ws_at(s, pos);
        proof {
            lemma_skip_ws_bounds(s@, pos as int);
        }
        if p > pos && p < s.len() && s[p] == '|' {
            match self.type_expression_at(s, p + 1) {
                Some((q, t)) => {
                    if !(pos < q && q <= s.len()) {
                        return (pos, Vec::new());
                    }
                    let (q2, rest) = self.pipe_tail_at(s, q);
                    let ghost rest0 = rest@;
                    let mut out: Vec<Expression> = Vec::new();
                    out.push(t);
                    let mut rest = rest;
                    out.append(&mut rest);
                    proof {
                        lemma_view_exprs_cons(out@[0], rest0);
                        assert(out@ =~= seq![out@[0]] + rest0);
                    }
                    (q2, out)
                },
                None => (pos, Vec::new()),
            }
        } else {
            (pos, Vec::new())
        }
    }
}

/// The reply to a parse of `input` (whose characters are `s`): the rest of the
/// input and the expression, or a parse error on `input`.
fn finish<'a>(input: &'a str, s: &Vec<char>, r: Option<(usize, Expression)>) -> (out: Result<(&'a str, Expression), LofError>)
    requires
        s@ == input@,
        within(r, 0, s@.len()),
    ensures
        match res(r) {
            Some((q, e)) => out matches Ok((rest, x)) && rest@ == input@.subrange(q, input@.len() as int) && x@ == e,
            None => out is Err,
        },
{
    match r {
        Some((q, e)) => Ok((input.substring_char(q, s.len()), e)),
        None => {
            let err = LofError::parse_error(input, "Tag");
            Err(err)
        },
    }
}

impl LofParser {
    /// Parses an expression at the start of `input`: the rest of the input and the expression.
    pub fn parse_expression<'a>(&self, input: &'a str) -> (r: Result<(&'a str, Expression), LofError>)
        ensures
            match spec_expression(self.notations(), input@, 0) {
                Some((q, e)) => r matches Ok((rest, x)) && rest@ == input@.subrange(q, input@.len() as int) && x@ == e,
                None => r is Err,
            },
    {
        let s = str_chars(input);
        let r = self.expression_at(&s, 0);
        finish(input, &s, r)
    }

    /// Parses a type expression at the start of `input`.
    pub fn parse_type_expression<'a>(&self, input: &'a str) -> (r: Result<(&'a str, Expression), LofError>)
        ensures
            match spec_type_expression(self.notations(), input@, 0) {
                Some((q, e)) => r matches Ok((rest, x)) && rest@ == input@.subrange(q, input@.len() as int) && x@ == e,
                None => r is Err,
            },
    {
        let s = str_chars(input);
        let r = self.type_expression_at(&s, 0);
        finish(input, &s, r)
    }

    /// Parses an expression, or a `let` definition, at the start of `input`.
    pub fn local_expression<'a>(&self, input: &'a str) -> (r: Result<(&'a str, Expression), LofError>)
        ensures
            match spec_local(self.notations(), input@, 0) {
                Some((q, e)) => r matches Ok((rest, x)) && rest@ == input@.subrange(q, input@.len() as int) && x@ == e,
                None => r is Err,
            },
    {
        let s = str_chars(input);
        let r = self.local_at(&s, 0);
        finish(input, &s, r)
    }

    /// Parses a parenthesised expression at the start of `input`.
    pub fn parse_parens<'a>(&self, input: &'a str) -> (r: Result<(&'a str, Expression), LofError>)
        ensures
            match spec_parens(self.notations(), input@, 0) {
                Some((q, e)) => r matches Ok((rest, x)) && rest@ == input@.subrange(q, input@.len() as int) && x@ == e,
                None => r is Err,
            },
    {
        let s = str_chars(input);
        let r = self.parens_at(&s, 0);
        finish(input, &s, r)
    }

    /// Parses a use of a notation at the start of `input`, trying the
    /// notations in the order they were defined.
    pub fn parse_custom<'a>(&self, input: &'a str) -> (r: Result<(&'a str, Expression), LofError>)
        ensures
            match spec_custom_from(self.notations(), 0, input@, 0) {
                Some((q, e)) => r matches Ok((rest, x)) && rest@ == input@.subrange(q, input@.len() as int) && x@ == e,
                None => r is Err,
            },
    {
        let s = str_chars(input);
        let r = self.custom_from_at(0, &s, 0);
        finish(input, &s, r)
    }

    /// Parses a union of at least two types at the start of `input`.
    pub fn parse_pipe<'a>(&self, input: &'a str) -> (r: Result<(&'a str, Expression), LofError>)
        ensures
            match spec_pipe(self.notations(), input@, 0) {
                Some((q, e)) => r matches Ok((rest, x)) && rest@ == input@.subrange(q, input@.len() as int) && x@ == e,
                None => r is Err,
            },
    {
        let s = str_chars(input);
        let r = self.pipe_at(&s, 0);
        finish(input, &s, r)
    }

    /// Parses a match branch `| pattern => body,` at the start of `input`.
    pub fn parse_match_branch<'a>(&self, input: &'a str) -> (r: Result<(&'a str, (Expression, Expression)), LofError>)
        ensures
            match spec_branch(self.notations(), input@, 0) {
                Some((q, b)) => r matches Ok((rest, x)) && rest@ == input@.subrange(q, input@.len() as int)
                    && x.0@ == b.0 && x.1@ == b.1,
                None => r is Err,
            },
    {
        let s = str_chars(input);
        match self.branch_at(&s, 0) {
            Some((q, b)) => Ok((input.substring_char(q, s.len()), b)),
            None => Err(LofError::parse_error(input, "Tag")),
        }
    }

    /// [`spec_expression`] from `pos`, for the statement parser.
    pub(crate) fn expression_from(&self, s: &Vec<char>, pos: usize) -> (r: Option<(usize, Expression)>)
        requires
            pos <= s.len(),
        ensures
            res(r) == spec_expression(self.notations(), s@, pos as int),
            within(r, pos, s@.len()),
    {
        self.expression_at(s, pos)
    }

    /// [`spec_type_expression`] from `pos`, for the statement parser.
    pub(crate) fn type_expression_from(&self, s: &Vec<char>, pos: usize) -> (r: Option<(usize, Expression)>)
        requires
            pos <= s.len(),
        ensures
            res(r) == spec_type_expression(self.notations(), s@, pos as int),
            within(r, pos, s@.len()),
    {
        self.type_expression_at(s, pos)
    }

    /// [`spec_local`] from `pos`, for the statement parser.
    pub(crate) fn local_from(&self, s: &Vec<char>, pos: usize) -> (r: Option<(usize, Expression)>)
        requires
            pos <= s.len(),
        ensures
            res(r) == spec_local(self.notations(), s@, pos as int),
            within(r, pos, s@.len()),
    {
        self.local_at(s, pos)
    }

    /// [`spec_parens`] from `pos`, for the statement parser.
    pub(crate) fn parens_from(&self, s: &Vec<char>, pos: usize) -> (r: Option<(usize, Expression)>)
        requires
            pos <= s.len(),
        ensures
            res(r) == spec_parens(self.notations(), s@, pos as int),
            within(r, pos, s@.len()),
    {
        self.parens_at(s, pos)
    }
    /// [`spec_opt_typed`] from `pos`, for the statement parser.
    pub(crate) fn opt_typed_from(&self, s: &Vec<char>, pos: usize) -> (r: Option<(usize, String, Option<Expression>)>)
        requires
            pos <= s.len(),
        ensures
            match r {
                Some((q, x, t)) => spec_opt_typed(self.notations(), s@, pos as int) == Some((
                    q as int,
                    x@,
                    match t {
                        Some(tt) => Some(tt@),
                        None => None,
                    },
                )) && pos <= q <= s.len(),
                None => spec_opt_typed(self.notations(), s@, pos as int) is None,
            },
    {
        self.opt_typed_at(s, pos)
    }
}

} // verus!
