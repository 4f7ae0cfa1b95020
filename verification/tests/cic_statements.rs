use lof::cic::statements::{elaborate_statement, Cic};
use lof::cic::term::CicStm;
use lof::cic::term::CicTerm::{Meta, Product, Sort, Variable};
use lof::cic::term::{NameKind, FIRST_INDEX};
use lof::error::LofError;
use lof::parser::api::{Expression, LofAst, Statement, Union};
use lof::runtime::program::{ProgramNode, Schedule};

fn var(name: &str) -> Expression {
    Expression::VarUse(name.to_string())
}

#[test]
fn test_axiom_statement_elaborates_to_one_node() {
    let schedule = elaborate_statement(&Statement::Axiom("ax".to_string(), Box::new(var("P"))), &mut 0).unwrap();
    assert_eq!(schedule.len(), 1);
    assert_eq!(
        schedule.get(0),
        &ProgramNode::OfStm(CicStm::Axiom(
            "ax".to_string(),
            Box::new(Variable("P".to_string(), NameKind::Const()))
        ))
    );
}

#[test]
fn test_global_statement_elaborates_its_type_and_body() {
    let stm = Statement::Global(
        "id_type".to_string(),
        Some(var("TYPE")),
        Expression::TypeProduct("x".to_string(), Box::new(var("TYPE")), Box::new(var("x"))),
    );
    let schedule = elaborate_statement(&stm, &mut 0).unwrap();
    assert_eq!(
        schedule.peek_first(),
        Some(&ProgramNode::OfStm(CicStm::Global(
            "id_type".to_string(),
            Some(Sort("TYPE".to_string())),
            Box::new(Product(
                "x".to_string(),
                Box::new(Sort("TYPE".to_string())),
                Box::new(Variable("x".to_string(), NameKind::Bound(FIRST_INDEX))),
            )),
        )))
    );
}

#[test]
fn test_comment_and_unsupported_statements() {
    assert_eq!(elaborate_statement(&Statement::Comment(), &mut 0).unwrap().len(), 0);
    let solve = Statement::Solve(vec![var("P")]);
    let err = elaborate_statement(&solve, &mut 0).unwrap_err();
    assert!(matches!(err, LofError::UnsupportedConstruct { .. }));
    assert_eq!(err.message(), format!("{:?} is not supported in CIC", solve));
}

#[test]
fn test_schedule_operations() {
    let mut schedule = Schedule::new();
    assert_eq!(schedule.peek_first(), None);
    schedule.add_expression(Sort("TYPE".to_string()));
    let mut other = Schedule::singleton_stm(CicStm::Axiom("a".to_string(), Box::new(Sort("PROP".to_string()))));
    other.add_expression(Meta(0));
    schedule.extend(other);
    assert_eq!(schedule.len(), 3);
    assert_eq!(schedule.get(0), &ProgramNode::OfExp(Sort("TYPE".to_string())));
    assert_eq!(schedule.get(2), &ProgramNode::OfExp(Meta(0)));
}

#[test]
fn test_cic_interface_helpers() {
    assert_eq!(Cic::elaborate_expression(&var("TYPE"), &mut 0), Ok(Sort("TYPE".to_string())));
    assert_eq!(Cic::proof_hole(), Sort("THIS_IS_A_PARTIAL_PROOF_HOLE".to_string()));
}

#[test]
fn elaborating_ast_nodes_and_solving_metas() {
    let exp = LofAst::Exp(var("TYPE"));
    let schedule = Cic::elaborate_ast(&exp, &mut 0).unwrap();
    assert_eq!(schedule.len(), 1);
    assert_eq!(schedule.get(0), &ProgramNode::OfExp(Sort("TYPE".to_string())));

    let ax_node = LofAst::Stm(Statement::Axiom("ax".to_string(), Box::new(var("P"))));
    assert_eq!(Cic::elaborate_ast(&ax_node, &mut 0).unwrap().len(), 1);
    assert_eq!(Cic::elaborate_ast(&LofAst::Stm(Statement::Comment()), &mut 0).unwrap().len(), 0);

    match Cic::elaborate_node(&exp, &mut 0) {
        Ok(Union::L(t)) => assert_eq!(t, Sort("TYPE".to_string())),
        other => panic!("unexpected {:?}", other.is_ok()),
    }
    match Cic::elaborate_node(&ax_node, &mut 0) {
        Ok(Union::R(stm)) => assert_eq!(
            stm,
            CicStm::Axiom("ax".to_string(), Box::new(Variable("P".to_string(), NameKind::Const())))
        ),
        other => panic!("unexpected {:?}", other.is_ok()),
    }
    assert!(Cic::elaborate_node(&LofAst::Stm(Statement::Solve(vec![var("P")])), &mut 0).is_err());

    let term = Product("x".to_string(), Box::new(Meta(0)), Box::new(Meta(1)));
    let solutions = vec![(0, Sort("TYPE".to_string())), (1, Meta(0))];
    // solutions apply in order: the later one may bring back an earlier metavariable
    assert_eq!(
        Cic::term_solve_metas(&term, &solutions),
        Product("x".to_string(), Box::new(Sort("TYPE".to_string())), Box::new(Meta(0)))
    );
    assert_eq!(Cic::type_solve_metas(&Meta(7), &solutions), Meta(7));
}


#[test]
fn statements_share_one_metavariable_counter() {
    let mut next_meta: i32 = 0;
    let first = elaborate_statement(&Statement::Axiom("a".to_string(), Box::new(Expression::Inferator())), &mut next_meta)
        .unwrap();
    let file = Statement::FileRoot(
        "f.lof".to_string(),
        vec![
            LofAst::Stm(Statement::Axiom("b".to_string(), Box::new(Expression::Inferator()))),
            LofAst::Exp(Expression::Inferator()),
        ],
    );
    let second = elaborate_statement(&file, &mut next_meta).unwrap();
    assert_eq!(first.get(0), &ProgramNode::OfStm(CicStm::Axiom("a".to_string(), Box::new(Meta(0)))));
    assert_eq!(second.get(0), &ProgramNode::OfStm(CicStm::Axiom("b".to_string(), Box::new(Meta(1)))));
    assert_eq!(second.get(1), &ProgramNode::OfExp(Meta(2)));
    assert_eq!(next_meta, 3);
}
