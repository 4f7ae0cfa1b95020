use vstd::prelude::*;
use crate::error::LofError;
use crate::parser::api::{Expression, Tactic};

verus! {

/// Elaborates a tactic over expressions with `elaborate_expression`, which
/// is applied to the expression the tactic carries, if any.
pub fn elaborate_tactic<E, F: Fn(Expression) -> E>(tactic: Tactic<Expression>, elaborate_expression: F) -> (r: Result<Tactic<E>, LofError>)
    requires
        match tactic {
            Tactic::Intro(_, formula) => elaborate_expression.requires((formula,)),
            Tactic::Exact(proof_term) => elaborate_expression.requires((proof_term,)),
            Tactic::Apply(lemma) => elaborate_expression.requires((lemma,)),
            _ => true,
        },
    ensures
        match tactic {
            Tactic::Begin() => r matches Ok(Tactic::Begin()),
            Tactic::Qed() => r matches Ok(Tactic::Qed()),
            Tactic::Intro(name, formula) => r matches Ok(Tactic::Intro(n, e))
                && n == name && elaborate_expression.ensures((formula,), e),
            Tactic::Exact(proof_term) => r matches Ok(Tactic::Exact(e)) && elaborate_expression.ensures((proof_term,), e),
            Tactic::Apply(lemma) => r matches Ok(Tactic::Apply(e)) && elaborate_expression.ensures((lemma,), e),
            Tactic::Induction(name) => r matches Ok(Tactic::Induction(n)) && n == name,
        },
{
    match tactic {
        Tactic::Begin() => Ok(Tactic::Begin()),
        Tactic::Qed() => Ok(Tactic::Qed()),
        Tactic::Intro(assumption_name, formula) => elaborate_intro(assumption_name, formula, elaborate_expression),
        Tactic::Exact(proof_term) => elaborate_exact(proof_term, elaborate_expression),
        Tactic::Apply(lemma) => elaborate_apply(lemma, elaborate_expression),
        Tactic::Induction(var_name) => Ok(Tactic::Induction(var_name)),
    }
}

/// Elaborates `intro assumption_name : formula`.
pub fn elaborate_intro<E, F: Fn(Expression) -> E>(assumption_name: String, formula: Expression, elaborate_expression: F) -> (r: Result<Tactic<E>, LofError>)
    requires
        elaborate_expression.requires((formula,)),
    ensures
        r matches Ok(Tactic::Intro(n, e)) && n == assumption_name && elaborate_expression.ensures((formula,), e),
{
    Ok(Tactic::Intro(assumption_name, elaborate_expression(formula)))
}

/// Elaborates `exact proof_term`.
pub fn elaborate_exact<E, F: Fn(Expression) -> E>(proof_term: Expression, elaborate_expression: F) -> (r: Result<Tactic<E>, LofError>)
    requires
        elaborate_expression.requires((proof_term,)),
    ensures
        r matches Ok(Tactic::Exact(e)) && elaborate_expression.ensures((proof_term,), e),
{
    Ok(Tactic::Exact(elaborate_expression(proof_term)))
}

/// Elaborates `apply lemma`.
pub fn elaborate_apply<E, F: Fn(Expression) -> E>(lemma: Expression, elaborate_expression: F) -> (r: Result<Tactic<E>, LofError>)
    requires
        elaborate_expression.requires((lemma,)),
    ensures
        r matches Ok(Tactic::Apply(e)) && elaborate_expression.ensures((lemma,), e),
{
    Ok(Tactic::Apply(elaborate_expression(lemma)))
}

} // verus!
