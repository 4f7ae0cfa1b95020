//! βδιζ-reduction of terms of the calculus, one step at a time, and
//! normalization as the repetition of steps until nothing changes.

use vstd::prelude::*;
use crate::cic::assoc::spec_assoc;
use crate::cic::environment::{EnvModel, Environment};
use crate::cic::evaluation::{
    matches_pattern, spec_bind_pattern, spec_iota, spec_matches_pattern, spec_pairs, substitute_pattern_variables,
    try_iota_reduction,
};
use crate::cic::model::spec_rename;
use crate::cic::term::{copy_branches, copy_term, lemma_match_view, term_eq, view_branches, CicTerm, Term};
use crate::cic::utils::substitute;

verus! {

/// The number of reduction steps that normalizing a term may take.
pub const REDUCTION_FUEL: u64 = 1000;

/// The model of an optional term.
pub open spec fn opt_term(o: Option<CicTerm>) -> Option<Term> {
    match o {
        Some(t) => Some(t@),
        None => None,
    }
}

/// The place of the first branch from `k` on whose pattern `n` matches.
pub open spec fn spec_first_match(n: Term, bs: Seq<(Term, Term)>, k: nat) -> Option<nat>
    decreases bs.len() - k,
{
    if k >= bs.len() {
        None
    } else if spec_matches_pattern(n, bs[k as int].0) {
        Some(k)
    } else {
        spec_first_match(n, bs, k + 1)
    }
}

/// A `match` on the normal form `n`: the body of the first branch whose
/// pattern `n` matches, with the pattern's variables bound to the matching
/// arguments of `n`; the `match` itself when no branch matches.
pub open spec fn spec_reduce_match(n: Term, bs: Seq<(Term, Term)>) -> Term {
    match spec_first_match(n, bs, 0) {
        Some(i) => spec_bind_pattern(n, bs[i as int].0, bs[i as int].1, spec_pairs(n, bs[i as int].0)),
        None => Term::Match(Box::new(n), bs),
    }
}

/// The β-reduct of the function `f` (an abstraction) applied to `arg`.
pub open spec fn spec_beta(f: Term, arg: Term) -> Option<Term> {
    match f {
        Term::Abs(x, _, b) => Some(spec_rename(*b, x, arg)),
        _ => None,
    }
}

/// One reduction step of `t` in the environment `e`:
/// - a variable with a definition unfolds to it (δ);
/// - an eliminator applied to a constructor application computes (ι); an
///   application whose function is, or steps to, an abstraction puts the
///   argument for the bound name in its body (β); any other application
///   steps both its sides;
/// - a `let` puts its definition for its name in its scope (ζ);
/// - a `match` normalizes the matched term (within `fuel` steps) and takes
///   the branch whose pattern it matches;
/// - binders step their domain and body; sorts and metavariables stay.
pub open spec fn spec_step(e: EnvModel, t: Term, fuel: nat) -> Term
    decreases fuel, t, 0int,
{
    match t {
        Term::Var(n, _) => match spec_assoc(e.deltas, n) {
            Some(d) => d,
            None => t,
        },
        Term::App(l, r) => match spec_iota(e, t) {
            Some(x) => x,
            None => match spec_beta(*l, *r) {
                Some(x) => x,
                None => {
                    let lr = spec_step(e, *l, fuel);
                    match spec_beta(lr, *r) {
                        Some(x) => x,
                        None => Term::App(Box::new(lr), Box::new(spec_step(e, *r, fuel))),
                    }
                },
            },
        },
        Term::Let(x, _, b, s) => spec_rename(*s, x, *b),
        Term::Match(m, bs) => spec_reduce_match(spec_normalize(e, *m, fuel), bs),
        Term::Prod(x, d, c) => Term::Prod(x, Box::new(spec_step(e, *d, fuel)), Box::new(spec_step(e, *c, fuel))),
        Term::Abs(x, d, b) => Term::Abs(x, Box::new(spec_step(e, *d, fuel)), Box::new(spec_step(e, *b, fuel))),
        _ => t,
    }
}

/// Reduction steps on `t` until one changes nothing, at most `fuel` of them.
pub open spec fn spec_normalize(e: EnvModel, t: Term, fuel: nat) -> Term
    decreases fuel, t, 1int,
{
    if fuel == 0 {
        t
    } else {
        let s = spec_step(e, t, (fuel - 1) as nat);
        if s == t {
            t
        } else {
            spec_normalize(e, s, (fuel - 1) as nat)
        }
    }
}

/// The β-reduct of `f` applied to `arg`, when `f` is an abstraction.
fn beta(f: &CicTerm, arg: &CicTerm) -> (r: Option<CicTerm>)
    ensures
        opt_term(r) == spec_beta(f@, arg@),
{
    match f {
        CicTerm::Abstraction(x, _, body) => Some(substitute(body, x.as_str(), arg)),
        _ => None,
    }
}

/// Takes the first branch whose pattern the normal form `normalized`
/// matches (see [`spec_reduce_match`]).
fn select_branch(normalized: CicTerm, branches: &Vec<(CicTerm, CicTerm)>) -> (r: CicTerm)
    ensures
        r@ == spec_reduce_match(normalized@, view_branches(branches@)),
{
    let ghost bs = view_branches(branches@);
    let mut i: usize = 0;
    while i < branches.len()
        invariant
            i <= branches@.len(),
            bs == view_branches(branches@),
            spec_first_match(normalized@, bs, 0) == spec_first_match(normalized@, bs, i as nat),
        decreases branches@.len() - i,
    {
        if matches_pattern(&normalized, &branches[i].0) {
            proof {
                assert(bs[i as int] == (branches@[i as int].0@, branches@[i as int].1@));
            }
            return substitute_pattern_variables(&normalized, &branches[i].0, &branches[i].1);
        }
        i = i + 1;
    }
    let bs_copy = copy_branches(branches);
    proof {
        lemma_match_view(normalized, bs_copy);
    }
    CicTerm::Match(Box::new(normalized), bs_copy)
}

/// One reduction step with `fuel` steps for the normalizations it makes
/// (see [`spec_step`]).
fn step_with(environment: &Environment, term: &CicTerm, fuel: u64) -> (r: CicTerm)
    ensures
        r@ == spec_step(environment@, term@, fuel as nat),
    decreases fuel, term@, 0int,
{
    match term {
        CicTerm::Variable(var_name, _) => match environment.get_from_deltas(var_name.as_str()) {
            Some((_, definition)) => definition,
            None => copy_term(term),
        },
        CicTerm::Application(left, right) => match try_iota_reduction(environment, term) {
            Some(x) => x,
            None => match beta(left, right) {
                Some(x) => x,
                None => {
                    let l = step_with(environment, left, fuel);
                    match beta(&l, right) {
                        Some(x) => x,
                        None => {
                            let r = step_with(environment, right, fuel);
                            CicTerm::Application(Box::new(l), Box::new(r))
                        },
                    }
                },
            },
        },
        CicTerm::Let(var_name, _, body, scope) => substitute(scope, var_name.as_str(), body),
        CicTerm::Match(matched, branches) => {
            proof {
                lemma_match_view(**matched, *branches);
            }
            let normalized = normalize_with(environment, matched, fuel);
            select_branch(normalized, branches)
        },
        CicTerm::Product(var_name, domain, codomain) => {
            let d = step_with(environment, domain, fuel);
            let c = step_with(environment, codomain, fuel);
            CicTerm::Product(var_name.clone(), Box::new(d), Box::new(c))
        },
        CicTerm::Abstraction(var_name, domain, body) => {
            let d = step_with(environment, domain, fuel);
            let b = step_with(environment, body, fuel);
            CicTerm::Abstraction(var_name.clone(), Box::new(d), Box::new(b))
        },
        _ => copy_term(term),
    }
}

/// Reduction steps until one changes nothing, at most `fuel` of them (see
/// [`spec_normalize`]).
fn normalize_with(environment: &Environment, term: &CicTerm, fuel: u64) -> (r: CicTerm)
    ensures
        r@ == spec_normalize(environment@, term@, fuel as nat),
    decreases fuel, term@, 1int,
{
    if fuel == 0 {
        copy_term(term)
    } else {
        let s = step_with(environment, term, fuel - 1);
        if term_eq(&s, term) {
            s
        } else {
            normalize_with(environment, &s, fuel - 1)
        }
    }
}

/// One reduction step of `term` in `environment` (see [`spec_step`]).
pub fn one_step_reduction(environment: &Environment, term: &CicTerm) -> (r: CicTerm)
    ensures
        r@ == spec_step(environment@, term@, REDUCTION_FUEL as nat),
{
    step_with(environment, term, REDUCTION_FUEL)
}

/// The normal form of `term` in `environment`: reduction steps until one
/// changes nothing, at most [`REDUCTION_FUEL`] of them.
pub fn normalize_term(environment: &Environment, term: &CicTerm) -> (r: CicTerm)
    ensures
        r@ == spec_normalize(environment@, term@, REDUCTION_FUEL as nat),
{
    normalize_with(environment, term, REDUCTION_FUEL)
}

/// δ-reduction of the variable `term` named `var_name`: its definition in
/// `environment`, or `term` itself when it has none.
pub fn reduce_variable(environment: &Environment, var_name: &str, term: &CicTerm) -> (r: CicTerm)
    ensures
        r@ == match spec_assoc(environment@.deltas, var_name@) {
            Some(d) => d,
            None => term@,
        },
{
    match environment.get_from_deltas(var_name) {
        Some((_, definition)) => definition,
        None => copy_term(term),
    }
}

/// Reduces `match matched_term { branches }`: the matched term is
/// normalized and the first branch whose pattern it matches is taken (see
/// [`spec_reduce_match`]).
pub fn reduce_match(environment: &Environment, matched_term: &CicTerm, branches: &Vec<(CicTerm, CicTerm)>) -> (r:
    CicTerm)
    ensures
        r@ == spec_reduce_match(
            spec_normalize(environment@, matched_term@, REDUCTION_FUEL as nat),
            view_branches(branches@),
        ),
{
    let normalized = normalize_term(environment, matched_term);
    select_branch(normalized, branches)
}

} // verus!
