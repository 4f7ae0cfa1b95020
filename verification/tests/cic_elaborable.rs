use lof::cic::elaborable::{can_elaborate, expression_metas, statement_metas};
use lof::parser::api::{Expression, LofAst, Statement};

fn var(name: &str) -> Expression {
    Expression::VarUse(name.to_string())
}

#[test]
fn infer_operators_are_counted() {
    let e = Expression::Application(Box::new(Expression::Inferator()), vec![var("x"), Expression::Inferator()]);
    assert_eq!(expression_metas(&e), Some(2));
    assert_eq!(expression_metas(&var("x")), Some(0));
}

#[test]
fn tuples_and_pipes_cannot_be_elaborated() {
    let e = Expression::Arrow(Box::new(var("A")), Box::new(Expression::Tuple(vec![var("x")])));
    assert_eq!(expression_metas(&e), None);
    assert!(!can_elaborate(&LofAst::Exp(Expression::Pipe(vec![])), 0));
}

#[test]
fn statements_and_roots_count_their_metavariables() {
    let ax = Statement::Axiom("a".to_string(), Box::new(Expression::Inferator()));
    let file = Statement::FileRoot("f".to_string(), vec![LofAst::Stm(ax), LofAst::Exp(Expression::Inferator())]);
    assert_eq!(statement_metas(&file), Some(2));
    assert!(can_elaborate(&LofAst::Stm(file), 0));
}

#[test]
fn the_counter_must_stay_within_i32() {
    let e = LofAst::Exp(Expression::Inferator());
    assert!(can_elaborate(&e, i32::MAX - 1));
    assert!(!can_elaborate(&e, i32::MAX));
}
