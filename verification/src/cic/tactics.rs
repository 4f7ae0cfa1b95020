//! Checking of interactive proofs: each tactic refines the partial proof
//! term of the current goal and leaves the subgoals still to prove.

use vstd::prelude::*;
use crate::cic::environment::{EnvModel, Environment};
use crate::cic::model::{has_hole_shape, spec_arg_types, spec_prod_innermost, spec_swap_hole};
use crate::cic::render::render_term;
use crate::cic::statements::Cic;
use crate::cic::term::{copy_term, view_seq, view_tactics, CicTerm, Term};
use crate::cic::type_check::{assuming, spec_type_of, terms_unify, type_check_term, unifies};
use crate::cic::unification::{cic_so_unification, spec_unify};
use crate::cic::utils::{get_arg_types, get_prod_innermost, swap_proof_hole};
use crate::error::LofError;
use crate::parser::api::{Tac, Tactic};

verus! {

/// The term standing for the part of a proof still to be given.
pub open spec fn hole() -> Term {
    Term::Sort("THIS_IS_A_PARTIAL_PROOF_HOLE"@)
}

/// Checking the tactic `t` on the goal `target` with the partial proof
/// `partial` in `e`: the refined partial proof, the new subgoals and the
/// environment after it; `None` when the tactic does not apply.
/// - `intro x : T` on `Πy:D.C` needs `T` to unify with `D`; the hole becomes
///   `λx:T.?`, `x : T` is assumed and `C` is left to prove;
/// - `exact p` needs the type of `p` to unify (in normal form) with the
///   goal; the hole becomes `p`, nothing is left to prove;
/// - `apply l` needs the innermost codomain of the type of `l` to unify
///   with the goal; the hole becomes `l ?` and the premises of `l` are
///   left to prove;
/// - other tactics are not checked.
/// The partial proof must be a chain of abstractions ending in the hole.
pub open spec fn spec_tactic(e: EnvModel, t: Tac<Term>, target: Term, partial: Term) -> Option<(Term, Seq<Term>, EnvModel)> {
    if !has_hole_shape(partial) {
        None
    } else {
        match t {
            Tac::Intro(x, ty) => match target {
                Term::Prod(_, dom, cod) => if spec_unify(seq![(ty, *dom)]) is Unified {
                    Some(
                        (
                            spec_swap_hole(partial, Term::Abs(x, Box::new(ty), Box::new(hole()))),
                            seq![*cod],
                            assuming(e, x, ty),
                        ),
                    )
                } else {
                    None
                },
                _ => None,
            },
            Tac::Exact(p) => match spec_type_of(e, p) {
                Some(pt) => if unifies(e, pt, target) {
                    Some((spec_swap_hole(partial, p), Seq::empty(), e))
                } else {
                    None
                },
                None => None,
            },
            Tac::Apply(l) => match spec_type_of(e, l) {
                Some(lt) => if spec_unify(seq![(target, spec_prod_innermost(lt))]) is Unified {
                    Some(
                        (
                            spec_swap_hole(partial, Term::App(Box::new(l), Box::new(hole()))),
                            spec_arg_types(lt),
                            e,
                        ),
                    )
                } else {
                    None
                },
                None => None,
            },
            _ => None,
        }
    }
}

/// Running the tactics of `ts` from the `k`-th on, the last of `subgoals`
/// being the current goal: the finished proof term once no subgoal is left,
/// `None` when a tactic does not apply or the tactics run out first.
pub open spec fn spec_run_tactics(e: EnvModel, ts: Seq<Tac<Term>>, k: nat, subgoals: Seq<Term>, partial: Term) -> Option<
    Term,
>
    decreases ts.len() - k,
{
    if subgoals.len() == 0 {
        Some(partial)
    } else if k >= ts.len() {
        None
    } else {
        match spec_tactic(e, ts[k as int], subgoals.last(), partial) {
            Some((p2, new_goals, e2)) => spec_run_tactics(e2, ts, k + 1, subgoals.drop_last() + new_goals, p2),
            None => None,
        }
    }
}

/// The proof term that the tactics `ts` build for `target` (see [`spec_run_tactics`]).
pub open spec fn spec_interactive_proof(e: EnvModel, ts: Seq<Tac<Term>>, target: Term) -> Option<Term> {
    spec_run_tactics(e, ts, 0, seq![target], hole())
}

/// Whether `t` is a chain of abstractions ending in a sort, a variable or
/// an application.
fn check_hole_shape(t: &CicTerm) -> (r: bool)
    ensures
        r == has_hole_shape(t@),
    decreases t,
{
    match t {
        CicTerm::Abstraction(_, _, b) => check_hole_shape(b),
        CicTerm::Sort(_) => true,
        CicTerm::Variable(_, _) => true,
        CicTerm::Application(_, _) => true,
        _ => false,
    }
}

/// `r` is the refined proof, the subgoals and the environment `o` gives,
/// from `e0`; or an error, with the environment left as `e0`, when it gives none.
pub open spec fn tactic_result(
    r: Result<(CicTerm, Vec<CicTerm>), LofError>,
    o: Option<(Term, Seq<Term>, EnvModel)>,
    e0: EnvModel,
    e1: EnvModel,
) -> bool {
    match o {
        Some((p, goals, e2)) => r matches Ok(x) && x.0@ == p && view_seq(x.1@) == goals && e1 == e2,
        None => r is Err && e1 == e0,
    }
}

/// The `intro ass_name : ass_type` tactic (see [`spec_tactic`]).
pub fn type_check_intro(
    environment: &mut Environment,
    target: &CicTerm,
    partial_proof: &CicTerm,
    ass_name: &str,
    ass_type: &CicTerm,
) -> (r: Result<(CicTerm, Vec<CicTerm>), LofError>)
    ensures
        tactic_result(
            r,
            spec_tactic(old(environment)@, Tac::Intro(ass_name@, ass_type@), target@, partial_proof@),
            old(environment)@,
            final(environment)@,
        ),
{
    if !check_hole_shape(partial_proof) {
        return Err(LofError::type_check_error(render_term(partial_proof).as_str()));
    }
    match target {
        CicTerm::Product(_, domain, codomain) => match cic_so_unification(ass_type, domain) {
            Ok(_) => {
                let step = CicTerm::Abstraction(String::from_str(ass_name), Box::new(copy_term(ass_type)), Box::new(Cic::proof_hole()));
                let proof_term = swap_proof_hole(partial_proof, &step);
                environment.add_to_context(ass_name, ass_type);
                let mut goals: Vec<CicTerm> = Vec::new();
                goals.push(copy_term(codomain));
                proof {
                    assert(view_seq(goals@) =~= seq![codomain@]);
                }
                Ok((proof_term, goals))
            },
            Err(_) => Err(LofError::type_mismatch(ass_name, render_term(domain).as_str(), render_term(ass_type).as_str())),
        },
        _ => Err(LofError::custom("Intro tactic not allowed: the current target is not a dependent product")),
    }
}

/// The `exact proof_term` tactic (see [`spec_tactic`]).
pub fn type_check_exact(
    environment: &mut Environment,
    target: &CicTerm,
    partial_proof: &CicTerm,
    proof_term: &CicTerm,
) -> (r: Result<(CicTerm, Vec<CicTerm>), LofError>)
    ensures
        tactic_result(
            r,
            spec_tactic(old(environment)@, Tac::Exact(proof_term@), target@, partial_proof@),
            old(environment)@,
            final(environment)@,
        ),
{
    if !check_hole_shape(partial_proof) {
        return Err(LofError::type_check_error(render_term(partial_proof).as_str()));
    }
    let proof_type = match type_check_term(proof_term, environment) {
        Ok(t) => t,
        Err(e) => {
            return Err(e);
        },
    };
    match terms_unify(environment, &proof_type, target) {
        Ok(()) => {},
        Err(e) => {
            return Err(e);
        },
    }
    let goals: Vec<CicTerm> = Vec::new();
    proof {
        assert(view_seq(goals@) =~= Seq::<Term>::empty());
    }
    Ok((swap_proof_hole(partial_proof, proof_term), goals))
}

/// The `apply lemma` tactic (see [`spec_tactic`]).
pub fn type_check_apply(
    environment: &mut Environment,
    target: &CicTerm,
    partial_proof: &CicTerm,
    lemma: &CicTerm,
) -> (r: Result<(CicTerm, Vec<CicTerm>), LofError>)
    ensures
        tactic_result(
            r,
            spec_tactic(old(environment)@, Tac::Apply(lemma@), target@, partial_proof@),
            old(environment)@,
            final(environment)@,
        ),
{
    if !check_hole_shape(partial_proof) {
        return Err(LofError::type_check_error(render_term(partial_proof).as_str()));
    }
    let lemma_type = match type_check_term(lemma, environment) {
        Ok(t) => t,
        Err(e) => {
            return Err(e);
        },
    };
    let conclusion = get_prod_innermost(&lemma_type);
    match cic_so_unification(target, conclusion) {
        Ok(_) => {},
        Err(_) => {
            return Err(LofError::unification_failure(render_term(target).as_str(), render_term(&lemma_type).as_str()));
        },
    }
    let premises = get_arg_types(&lemma_type);
    let step = CicTerm::Application(Box::new(copy_term(lemma)), Box::new(Cic::proof_hole()));
    Ok((swap_proof_hole(partial_proof, &step), premises))
}

/// Checks `tactic` on the goal `target` with the partial proof
/// `partial_proof` (see [`spec_tactic`]): the refined proof and the new
/// subgoals; on an error the environment is left as it was.
pub fn type_check_tactic(
    environment: &mut Environment,
    tactic: &Tactic<CicTerm>,
    target: &CicTerm,
    partial_proof: &CicTerm,
) -> (r: Result<(CicTerm, Vec<CicTerm>), LofError>)
    ensures
        tactic_result(r, spec_tactic(old(environment)@, tactic@, target@, partial_proof@), old(environment)@, final(environment)@),
{
    match tactic {
        Tactic::Intro(ass_name, ass_type) => type_check_intro(environment, target, partial_proof, ass_name.as_str(), ass_type),
        Tactic::Exact(proof_term) => type_check_exact(environment, target, partial_proof, proof_term),
        Tactic::Apply(lemma) => type_check_apply(environment, target, partial_proof, lemma),
        _ => Err(LofError::unsupported("this tactic")),
    }
}

/// Checks the interactive proof `tactics` of `target` (see
/// [`spec_interactive_proof`]): the proof term it builds. What the tactics
/// assume is dropped afterwards: the environment is left as it was.
pub fn type_check_interactive_proof(environment: &mut Environment, tactics: &Vec<Tactic<CicTerm>>, target: &CicTerm) -> (r:
    Result<CicTerm, LofError>)
    ensures
        final(environment)@ == old(environment)@,
        match spec_interactive_proof(old(environment)@, view_tactics(tactics@), target@) {
            Some(p) => r matches Ok(x) && x@ == p,
            None => r is Err,
        },
{
    let saved = environment.clone();
    let ghost ts = view_tactics(tactics@);
    let ghost goal = spec_interactive_proof(environment@, ts, target@);
    let mut subgoals: Vec<CicTerm> = Vec::new();
    subgoals.push(copy_term(target));
    let mut partial = Cic::proof_hole();
    let mut k: usize = 0;
    proof {
        assert(view_seq(subgoals@) =~= seq![target@]);
    }
    let mut result: Result<CicTerm, LofError> = Err(LofError::custom("Incomplete proof"));
    loop
        invariant_except_break
            goal == spec_run_tactics(environment@, ts, k as nat, view_seq(subgoals@), partial@),
        invariant
            k <= tactics@.len(),
            ts == view_tactics(tactics@),
            goal == spec_interactive_proof(saved@, ts, target@),
        ensures
            match goal {
                Some(p) => result matches Ok(x) && x@ == p,
                None => result is Err,
            },
        decreases tactics@.len() - k,
    {
        if subgoals.len() == 0 {
            result = Ok(partial);
            break;
        }
        if k >= tactics.len() {
            result = Err(LofError::custom("Incomplete proof: subgoals are left to prove"));
            break;
        }
        let ghost goals_before = view_seq(subgoals@);
        let target_k = match subgoals.pop() {
            Some(t) => t,
            None => {
                proof {
                    assert(false);
                }
                break;
            },
        };
        proof {
            assert(ts[k as int] == tactics@[k as int]@);
            assert(view_seq(subgoals@) =~= goals_before.drop_last());
            assert(target_k@ == goals_before.last());
        }
        match type_check_tactic(environment, &tactics[k], &target_k, &partial) {
            Ok((p2, new_goals)) => {
                let ghost before = view_seq(subgoals@);
                let mut new_goals = new_goals;
                let ghost added = view_seq(new_goals@);
                subgoals.append(&mut new_goals);
                proof {
                    assert(view_seq(subgoals@) =~= before + added);
                }
                partial = p2;
            },
            Err(e) => {
                result = Err(e);
                proof {
                    assert(goal is None);
                }
                break;
            },
        }
        k = k + 1;
    }
    *environment = saved;
    result
}

} // verus!
