use lof::cic::elaboration::elaborate_expression;
use lof::cic::term::CicTerm::{Meta, Variable};
use lof::cic::term::NameKind;
use lof::commons::elaboration::{elaborate_apply, elaborate_exact, elaborate_intro, elaborate_tactic};
use lof::parser::api::Expression;
use lof::parser::api::Tactic::{Apply, Begin, Exact, Induction, Intro, Qed};

#[test]
fn test_intro_elaboration() {
    assert_eq!(
        elaborate_intro("n".to_string(), Expression::VarUse("Nat".to_string()), |exp| elaborate_expression(&exp, &mut 0)),
        Ok(Intro("n".to_string(), Variable("Nat".to_string(), NameKind::Const()))),
        "Intro elaboration doesnt produce expected tactic"
    );
}

#[test]
fn test_exact_elaboration() {
    assert_eq!(
        elaborate_exact(Expression::VarUse("p".to_string()), |exp| elaborate_expression(&exp, &mut 0)),
        Ok(Exact(Variable("p".to_string(), NameKind::Const()))),
        "Exact elaboration doesnt produce expected tactic"
    );
}

#[test]
fn tactics_without_expressions_elaborate_to_themselves() {
    let elab = |exp: Expression| elaborate_expression(&exp, &mut 0);
    assert_eq!(elaborate_tactic(Begin(), elab), Ok(Begin()));
    assert_eq!(elaborate_tactic(Qed(), elab), Ok(Qed()));
    assert_eq!(elaborate_tactic(Induction("n".to_string()), elab), Ok(Induction("n".to_string())));
    assert_eq!(
        elaborate_apply(Expression::VarUse("lemma".to_string()), elab),
        Ok(Apply(Variable("lemma".to_string(), NameKind::Const())))
    );
}

#[test]
fn each_infer_operator_gets_a_fresh_metavariable() {
    let mut next_meta: i32 = 0;
    let first = elaborate_expression(&Expression::Inferator(), &mut next_meta);
    let second = elaborate_expression(&Expression::Inferator(), &mut next_meta);
    assert_eq!(first, Meta(0));
    assert_eq!(second, Meta(1));
    assert_eq!(next_meta, 2);
}
