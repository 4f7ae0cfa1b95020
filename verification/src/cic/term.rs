use vstd::prelude::*;
use crate::parser::api::{Tac, Tactic, Union};

verus! {

/// De Bruijn index of the innermost binder.
pub const FIRST_INDEX: i32 = 0;
/// Index carried by variables that have not been indexed yet.
pub const PLACEHOLDER_DBI: i32 = -2;

/// How a variable occurrence is bound.
#[derive(Debug, Clone, Copy, PartialEq, Eq, Structural)]
pub enum NameKind {
    /// a global constant symbol
    Const(),
    /// a locally free name, standing for a context entry
    Local(),
    /// a De Bruijn index counting the binders between the occurrence and its binder
    Bound(i32),
}

/// The terms of the calculus of inductive constructions.
#[derive(Debug, PartialEq)]
pub enum CicTerm {
    /// (sort name)
    Sort(String),
    /// (var name, binding)
    Variable(String, NameKind),
    /// (var name, var type, body)
    Abstraction(String, Box<CicTerm>, Box<CicTerm>),
    /// (var name, var type, body)
    Product(String, Box<CicTerm>, Box<CicTerm>),
    /// (function, argument)
    Application(Box<CicTerm>, Box<CicTerm>),
    /// (matched_term, [ branch: (pattern, body) ])
    Match(Box<CicTerm>, Vec<(CicTerm, CicTerm)>),
    /// (var_name, var_type, body, scope)
    Let(String, Box<Option<CicTerm>>, Box<CicTerm>, Box<CicTerm>),
    /// index
    Meta(i32),
}

/// Mathematical model of a [`CicTerm`]: names are character sequences.
#[verifier::ext_equal]
pub enum Term {
    Sort(Seq<char>),
    Var(Seq<char>, NameKind),
    Abs(Seq<char>, Box<Term>, Box<Term>),
    Prod(Seq<char>, Box<Term>, Box<Term>),
    App(Box<Term>, Box<Term>),
    Match(Box<Term>, Seq<(Term, Term)>),
    Let(Seq<char>, Option<Box<Term>>, Box<Term>, Box<Term>),
    Meta(i32),
}

/// Filler for out-of-range positions of a branch sequence.
pub open spec fn no_branch() -> (Term, Term) {
    (Term::Meta(0), Term::Meta(0))
}

pub open spec fn view_term(t: CicTerm) -> Term
    decreases t,
{
    match t {
        CicTerm::Sort(s) => Term::Sort(s@),
        CicTerm::Variable(n, k) => Term::Var(n@, k),
        CicTerm::Abstraction(n, a, b) => Term::Abs(n@, Box::new(view_term(*a)), Box::new(view_term(*b))),
        CicTerm::Product(n, a, b) => Term::Prod(n@, Box::new(view_term(*a)), Box::new(view_term(*b))),
        CicTerm::Application(a, b) => Term::App(Box::new(view_term(*a)), Box::new(view_term(*b))),
        CicTerm::Match(m, bs) => Term::Match(
            Box::new(view_term(*m)),
            Seq::new(
                bs@.len(),
                |i: int|
                    if 0 <= i < bs@.len() {
                        (view_term(bs@[i].0), view_term(bs@[i].1))
                    } else {
                        no_branch()
                    },
            ),
        ),
        CicTerm::Let(n, ty, b, s) => Term::Let(
            n@,
            match *ty {
                Some(x) => Some(Box::new(view_term(x))),
                None => None,
            },
            Box::new(view_term(*b)),
            Box::new(view_term(*s)),
        ),
        CicTerm::Meta(i) => Term::Meta(i),
    }
}

impl View for CicTerm {
    type V = Term;

    open spec fn view(&self) -> Term {
        view_term(*self)
    }
}

/// The model of a branch list.
pub open spec fn view_branches(bs: Seq<(CicTerm, CicTerm)>) -> Seq<(Term, Term)> {
    Seq::new(
        bs.len(),
        |i: int|
            if 0 <= i < bs.len() {
                (bs[i].0@, bs[i].1@)
            } else {
                no_branch()
            },
    )
}

pub proof fn lemma_match_view(m: CicTerm, bs: Vec<(CicTerm, CicTerm)>)
    ensures
        CicTerm::Match(Box::new(m), bs)@ == Term::Match(Box::new(m@), view_branches(bs@)),
{
    assert(view_branches(bs@) =~= (CicTerm::Match(Box::new(m), bs)@)->Match_1);
}

/// The model of an optional type annotation.
pub open spec fn view_opt(o: Option<CicTerm>) -> Option<Box<Term>> {
    match o {
        Some(x) => Some(Box::new(x@)),
        None => None,
    }
}

/// The model of a sequence of terms.
pub open spec fn view_seq(ts: Seq<CicTerm>) -> Seq<Term> {
    ts.map_values(|t: CicTerm| t@)
}

/// The model of a sequence of named terms.
pub open spec fn view_named(ts: Seq<(String, CicTerm)>) -> Seq<(Seq<char>, Term)> {
    ts.map_values(|p: (String, CicTerm)| (p.0@, p.1@))
}

impl Clone for CicTerm {
    fn clone(&self) -> (r: Self)
        ensures
            r@ == self@,
        decreases self,
    {
        copy_term(self)
    }
}

/// A deep copy of `t`.
pub fn copy_term(t: &CicTerm) -> (r: CicTerm)
    ensures
        r@ == t@,
    decreases t,
{
    match t {
        CicTerm::Sort(s) => CicTerm::Sort(s.clone()),
        CicTerm::Variable(n, k) => CicTerm::Variable(n.clone(), *k),
        CicTerm::Abstraction(n, a, b) => CicTerm::Abstraction(
            n.clone(),
            Box::new(copy_term(a)),
            Box::new(copy_term(b)),
        ),
        CicTerm::Product(n, a, b) => CicTerm::Product(
            n.clone(),
            Box::new(copy_term(a)),
            Box::new(copy_term(b)),
        ),
        CicTerm::Application(a, b) => CicTerm::Application(
            Box::new(copy_term(a)),
            Box::new(copy_term(b)),
        ),
        CicTerm::Match(m, bs) => {
            let m2 = copy_term(m);
            let bs2 = copy_branches(bs);
            proof {
                lemma_match_view(m2, bs2);
                lemma_match_view(**m, *bs);
            }
            CicTerm::Match(Box::new(m2), bs2)
        },
        CicTerm::Let(n, ty, b, s) => {
            let ty2 = match &**ty {
                Some(x) => Some(copy_term(x)),
                None => None,
            };
            CicTerm::Let(n.clone(), Box::new(ty2), Box::new(copy_term(b)), Box::new(copy_term(s)))
        },
        CicTerm::Meta(i) => CicTerm::Meta(*i),
    }
}

/// A deep copy of a branch list.
pub fn copy_branches(bs: &Vec<(CicTerm, CicTerm)>) -> (r: Vec<(CicTerm, CicTerm)>)
    ensures
        view_branches(r@) == view_branches(bs@),
    decreases bs,
{
    let mut out: Vec<(CicTerm, CicTerm)> = Vec::new();
    let mut i: usize = 0;
    while i < bs.len()
        invariant
            i <= bs@.len(),
            out@.len() == i,
            forall|j: int| 0 <= j < i ==> (#[trigger] out@[j]).0@ == bs@[j].0@ && out@[j].1@ == bs@[j].1@,
        decreases bs@.len() - i,
    {
        proof {
            assert(decreases_to!(bs => bs@));
            assert(decreases_to!(bs@ => bs@[i as int]));
        }
        let p = (copy_term(&bs[i].0), copy_term(&bs[i].1));
        out.push(p);
        i = i + 1;
    }
    assert(view_branches(out@) =~= view_branches(bs@));
    out
}

/// Structural equality of the models of two branch lists.
pub fn branches_eq(bs1: &Vec<(CicTerm, CicTerm)>, bs2: &Vec<(CicTerm, CicTerm)>) -> (r: bool)
    ensures
        r == (view_branches(bs1@) == view_branches(bs2@)),
    decreases bs1,
{
    if bs1.len() != bs2.len() {
        assert(view_branches(bs1@).len() != view_branches(bs2@).len());
        return false;
    }
    let mut i: usize = 0;
    while i < bs1.len()
        invariant
            i <= bs1@.len(),
            bs1@.len() == bs2@.len(),
            forall|j: int| 0 <= j < i ==> (#[trigger] view_branches(bs1@)[j]) == view_branches(bs2@)[j],
        decreases bs1@.len() - i,
    {
        proof {
            assert(decreases_to!(bs1 => bs1@));
            assert(decreases_to!(bs1@ => bs1@[i as int]));
        }
        if !term_eq(&bs1[i].0, &bs2[i].0) || !term_eq(&bs1[i].1, &bs2[i].1) {
            assert(view_branches(bs1@)[i as int] != view_branches(bs2@)[i as int]);
            return false;
        }
        i = i + 1;
    }
    assert(view_branches(bs1@) =~= view_branches(bs2@));
    true
}

/// Structural equality of the models of two terms.
pub fn term_eq(a: &CicTerm, b: &CicTerm) -> (r: bool)
    ensures
        r == (a@ == b@),
    decreases a,
{
    match (a, b) {
        (CicTerm::Sort(x), CicTerm::Sort(y)) => *x == *y,
        (CicTerm::Variable(x, k), CicTerm::Variable(y, l)) => *x == *y && *k == *l,
        (CicTerm::Abstraction(x, a1, a2), CicTerm::Abstraction(y, b1, b2)) => {
            *x == *y && term_eq(a1, b1) && term_eq(a2, b2)
        },
        (CicTerm::Product(x, a1, a2), CicTerm::Product(y, b1, b2)) => {
            *x == *y && term_eq(a1, b1) && term_eq(a2, b2)
        },
        (CicTerm::Application(a1, a2), CicTerm::Application(b1, b2)) => {
            term_eq(a1, b1) && term_eq(a2, b2)
        },
        (CicTerm::Match(m1, bs1), CicTerm::Match(m2, bs2)) => {
            proof {
                lemma_match_view(**m1, *bs1);
                lemma_match_view(**m2, *bs2);
            }
            let r = term_eq(m1, m2) && branches_eq(bs1, bs2);
            assert(r == (a@ == b@));
            r
        },
        (CicTerm::Let(x, t1, a1, a2), CicTerm::Let(y, t2, b1, b2)) => {
            let same_type = match (&**t1, &**t2) {
                (Some(p), Some(q)) => term_eq(p, q),
                (None, None) => true,
                _ => false,
            };
            assert(same_type == (view_opt(**t1) == view_opt(**t2)));
            assert(a@ == Term::Let(x@, view_opt(**t1), Box::new(a1@), Box::new(a2@)));
            assert(b@ == Term::Let(y@, view_opt(**t2), Box::new(b1@), Box::new(b2@)));
            *x == *y && same_type && term_eq(a1, b1) && term_eq(a2, b2)
        },
        (CicTerm::Meta(i), CicTerm::Meta(j)) => *i == *j,
        _ => false,
    }
}

/// Statements of the calculus of inductive constructions.
#[derive(Debug, PartialEq)]
pub enum CicStm {
    /// axiom_name, formula
    Axiom(String, Box<CicTerm>),
    /// theorem_name, formula, proof
    Theorem(String, Box<CicTerm>, Union<CicTerm, Vec<Tactic<CicTerm>>>),
    /// (var_name, var_type, definition_body)
    Global(String, Option<CicTerm>, Box<CicTerm>),
    /// (fun_name, args, out_type, body, is_rec)
    Fun(String, Vec<(String, CicTerm)>, Box<CicTerm>, Box<CicTerm>, bool),
    /// type_name, [(param_name : param_type)], ariety, [( constr_name, constr_type )]
    InductiveDef(String, Vec<(String, CicTerm)>, Box<CicTerm>, Vec<(String, CicTerm)>),
}

/// Mathematical model of a [`CicStm`].
pub enum Stm {
    Axiom(Seq<char>, Term),
    Theorem(Seq<char>, Term, Union<Term, Seq<Tac<Term>>>),
    Global(Seq<char>, Option<Term>, Term),
    Fun(Seq<char>, Seq<(Seq<char>, Term)>, Term, Term, bool),
    InductiveDef(Seq<char>, Seq<(Seq<char>, Term)>, Term, Seq<(Seq<char>, Term)>),
}

/// The model of a list of tactics over terms.
pub open spec fn view_tactics(ts: Seq<Tactic<CicTerm>>) -> Seq<Tac<Term>> {
    ts.map_values(|t: Tactic<CicTerm>| t@)
}

impl View for CicStm {
    type V = Stm;

    open spec fn view(&self) -> Stm {
        match self {
            CicStm::Axiom(n, f) => Stm::Axiom(n@, f@),
            CicStm::Theorem(n, f, p) => Stm::Theorem(
                n@,
                f@,
                match p {
                    Union::L(t) => Union::L(t@),
                    Union::R(ts) => Union::R(view_tactics(ts@)),
                },
            ),
            CicStm::Global(n, ty, b) => Stm::Global(
                n@,
                match ty {
                    Some(t) => Some(t@),
                    None => None,
                },
                b@,
            ),
            CicStm::Fun(n, args, out, body, is_rec) => Stm::Fun(n@, view_named(args@), out@, body@, *is_rec),
            CicStm::InductiveDef(n, params, ariety, ctors) => Stm::InductiveDef(
                n@,
                view_named(params@),
                ariety@,
                view_named(ctors@),
            ),
        }
    }
}

} // verus!
