use lof::cic::elaboration::{
    elaborate_application, elaborate_expression, elaborate_match, elaborate_type_product,
    elaborate_var_use,
};
use lof::cic::statements::{elaborate_inductive, Cic};
use lof::cic::term::CicStm;
use lof::cic::term::CicTerm::{self, Abstraction, Application, Let, Match, Meta, Product, Sort, Variable};
use lof::cic::term::{NameKind, FIRST_INDEX};
use lof::commons::utils::ElabStore;
use lof::parser::api::Expression;

#[test]
fn test_var_elaboration() {
    let test_var_name = "test_var";
    let test_var = Variable(test_var_name.to_string(), NameKind::Const());
    let test_var_placeholder = Variable(test_var_name.to_string(), NameKind::Bound(FIRST_INDEX));
    let store = ElabStore::empty().push_name(test_var_name);

    assert_eq!(
        elaborate_var_use(test_var_name, &store),
        test_var_placeholder.clone(),
        "Variable term not properly constructed"
    );
    assert_eq!(
        elaborate_var_use("TYPE", &store),
        Sort("TYPE".to_string()),
        "Sort name returns a simple variable instead of a sort term"
    );
    assert_eq!(
        elaborate_fresh(&Expression::VarUse(test_var_name.to_string())),
        test_var.clone(),
        "Top level elaboration doesnt work with variables as expected"
    );
}

#[test]
fn test_abs_elaboration() {
    let expected_term = Abstraction(
        "x".to_string(),
        Box::new(Sort("TYPE".to_string())),
        Box::new(Variable("x".to_string(), NameKind::Bound(FIRST_INDEX))),
    );

    assert_eq!(
        elaborate_fresh(&Expression::Abstraction(
            "x".to_string(),
            Box::new(Expression::VarUse("TYPE".to_string())),
            Box::new(Expression::VarUse("x".to_string())),
        )),
        expected_term,
        "Top level elaborator isnt working with abstraction"
    );
}

#[test]
fn test_prod_elaboration() {
    let expected_term = Product(
        "x".to_string(),
        Box::new(Sort("TYPE".to_string())),
        Box::new(Sort("TYPE".to_string())),
    );

    assert_eq!(
        elaborate_type_product(
            "x",
            &Expression::VarUse("TYPE".to_string()),
            &Expression::VarUse("TYPE".to_string()),
            &ElabStore::empty(),
        ),
        expected_term.clone(),
        "Type abstraction elaboration isnt working as expected"
    );
    assert_eq!(
        elaborate_fresh(&Expression::TypeProduct(
            "x".to_string(),
            Box::new(Expression::VarUse("TYPE".to_string())),
            Box::new(Expression::VarUse("TYPE".to_string())),
        )),
        expected_term,
        "Top level elaborator isnt working with type abstraction"
    );
}

#[test]
fn test_app_elaboration() {
    let expected_term = Application(
        Box::new(Variable("s".to_string(), NameKind::Const())),
        Box::new(Variable("o".to_string(), NameKind::Const())),
    );

    assert_eq!(
        elaborate_application(
            &Expression::VarUse("s".to_string()),
            &vec![Expression::VarUse("o".to_string())],
            &ElabStore::empty(),
        ),
        expected_term.clone(),
        "Application elaboration isnt working as expected"
    );
    assert_eq!(
        elaborate_application(
            &Expression::VarUse("f".to_string()),
            &vec![Expression::VarUse("x".to_string()), Expression::VarUse("y".to_string())],
            &ElabStore::empty(),
        ),
        Application(
            Box::new(Application(
                Box::new(Variable("f".to_string(), NameKind::Const())),
                Box::new(Variable("x".to_string(), NameKind::Const())),
            )),
            Box::new(Variable("y".to_string(), NameKind::Const()))
        ),
        "Application elaboration isnt respecting associativity"
    );
    assert_eq!(
        elaborate_fresh(&Expression::Application(
            Box::new(Expression::VarUse("s".to_string())),
            vec![Expression::VarUse("o".to_string())],
        )),
        expected_term,
        "Top level elaborator isnt working with applications"
    );
}

#[test]
fn test_let_elaboration() {
    assert_eq!(
        Cic::elaborate_expression(&Expression::Let(
            "x".to_string(),
            Box::new(Some(Expression::VarUse("Complex".to_string()))),
            Box::new(Expression::VarUse("i".to_string())),
            Box::new(Expression::VarUse("x".to_string())),
        ), &mut 0),
        Ok(Let(
            "x".to_string(),
            Box::new(Some(Variable("Complex".to_string(), NameKind::Const()))),
            Box::new(Variable("i".to_string(), NameKind::Const())),
            Box::new(Variable("x".to_string(), NameKind::Bound(0))),
        )),
        "Let elaboration isnt producing the proper term"
    );
    assert_eq!(
        Cic::elaborate_expression(&Expression::Let(
            "x".to_string(),
            Box::new(None),
            Box::new(Expression::VarUse("i".to_string())),
            Box::new(Expression::VarUse("x".to_string())),
        ), &mut 0),
        Ok(Let(
            "x".to_string(),
            Box::new(None),
            Box::new(Variable("i".to_string(), NameKind::Const())),
            Box::new(Variable("x".to_string(), NameKind::Bound(0))),
        )),
        "Let elaboration cant cope with missing type annotation"
    );
}

#[test]
fn test_match_elaboration() {
    let expected_term = Match(
        Box::new(Variable("t".to_string(), NameKind::Const())),
        vec![
            (
                Variable("o".to_string(), NameKind::Const()),
                Application(
                    Box::new(Variable("s".to_string(), NameKind::Const())),
                    Box::new(Variable("o".to_string(), NameKind::Const())),
                ),
            ),
            (
                Application(
                    Box::new(Variable("s".to_string(), NameKind::Const())),
                    Box::new(Variable("n".to_string(), NameKind::Bound(FIRST_INDEX))),
                ),
                Variable("n".to_string(), NameKind::Bound(FIRST_INDEX)),
            ),
        ],
    );
    let base_pattern = (
        Expression::VarUse("o".to_string()),
        Expression::Application(
            Box::new(Expression::VarUse("s".to_string())),
            vec![Expression::VarUse("o".to_string())],
        ),
    );
    let inductive_patter = (
        Expression::Application(
            Box::new(Expression::VarUse("s".to_string())),
            vec![Expression::VarUse("n".to_string())],
        ),
        Expression::VarUse("n".to_string()),
    );

    assert_eq!(
        elaborate_match(
            &Expression::VarUse("t".to_string()),
            &vec![base_pattern.clone(), inductive_patter.clone()],
            &ElabStore::empty(),
        ),
        expected_term,
        "Match elaboration isnt working as expected"
    );
    assert_eq!(
        elaborate_fresh(&Expression::Match(
            Box::new(Expression::VarUse("t".to_string())),
            vec![base_pattern, inductive_patter]
        )),
        expected_term,
        "Top level elaboration doesnt work with match"
    );
}

#[test]
fn test_inductive_elaboration() {
    let ariety = Expression::VarUse("TYPE".to_string());

    let result = elaborate_inductive(
        &"nat".to_string(),
        &vec![],
        &ariety,
        &vec![
            ("o".to_string(), Expression::VarUse("nat".to_string())),
            (
                "s".to_string(),
                Expression::TypeProduct(
                    "_".to_string(),
                    Box::new(Expression::VarUse("nat".to_string())),
                    Box::new(Expression::VarUse("nat".to_string())),
                ),
            ),
        ],
        &mut 0,
    );
    assert_eq!(
        result,
        Ok(CicStm::InductiveDef(
            "nat".to_string(),
            vec![],
            Box::new(Sort("TYPE".to_string())),
            vec![
                ("o".to_string(), Variable("nat".to_string(), NameKind::Const())),
                (
                    "s".to_string(),
                    Product(
                        "_".to_string(),
                        Box::new(Variable("nat".to_string(), NameKind::Const())),
                        Box::new(Variable("nat".to_string(), NameKind::Const())),
                    )
                )
            ]
        )),
        "Inductive elaboration isnt working with constant constructor"
    );
}

#[test]
fn test_let_does_not_bind_its_own_definition_body() {
    let term = elaborate_fresh(&Expression::Abstraction(
        "x".to_string(),
        Box::new(Expression::VarUse("TYPE".to_string())),
        Box::new(Expression::Let(
            "x".to_string(),
            Box::new(None),
            Box::new(Expression::VarUse("x".to_string())),
            Box::new(Expression::VarUse("x".to_string())),
        )),
    ));
    assert_eq!(
        term,
        Abstraction(
            "x".to_string(),
            Box::new(Sort("TYPE".to_string())),
            Box::new(Let(
                "x".to_string(),
                Box::new(None),
                Box::new(Variable("x".to_string(), NameKind::Bound(0))),
                Box::new(Variable("x".to_string(), NameKind::Bound(0))),
            )),
        ),
        "let definition binds the variable name in the definition body too"
    );
}

#[test]
fn test_shadowing_a_global_with_a_local_binder_of_the_same_name() {
    let bare_reference = elaborate_fresh(&Expression::VarUse("Nat".to_string()));
    assert_eq!(
        bare_reference,
        Variable("Nat".to_string(), NameKind::Const()),
        "a top-level, unshadowed `Nat` must elaborate to the global (Free) reference"
    );

    let shadowed = elaborate_fresh(&Expression::Abstraction(
        "Nat".to_string(),
        Box::new(Expression::VarUse("PROP".to_string())),
        Box::new(Expression::VarUse("Nat".to_string())),
    ));
    assert_eq!(
        shadowed,
        Abstraction(
            "Nat".to_string(),
            Box::new(Sort("PROP".to_string())),
            Box::new(Variable("Nat".to_string(), NameKind::Bound(0))),
        ),
        "inside λNat:PROP. Nat, the body's `Nat` must resolve to the local Bound variable, fully shadowing the global"
    );
}

#[test]
fn test_match_elaboration_nested_pattern_binds_two_arguments() {
    let pattern = Expression::Application(
        Box::new(Expression::VarUse("cons".to_string())),
        vec![
            Expression::VarUse("h".to_string()),
            Expression::Application(
                Box::new(Expression::VarUse("cons".to_string())),
                vec![Expression::VarUse("h2".to_string()), Expression::VarUse("ll".to_string())],
            ),
        ],
    );
    let body = Expression::VarUse("h".to_string());

    let term = elaborate_fresh(&Expression::Match(
        Box::new(Expression::VarUse("scrutinee".to_string())),
        vec![(pattern, body)],
    ));

    let expected_pattern = Application(
        Box::new(Application(
            Box::new(Variable("cons".to_string(), NameKind::Const())),
            Box::new(Variable("h".to_string(), NameKind::Bound(2))),
        )),
        Box::new(Application(
            Box::new(Application(
                Box::new(Variable("cons".to_string(), NameKind::Const())),
                Box::new(Variable("h2".to_string(), NameKind::Bound(1))),
            )),
            Box::new(Variable("ll".to_string(), NameKind::Bound(0))),
        )),
    );

    match term {
        Match(_, branches) => {
            assert_eq!(branches[0].0, expected_pattern);
            assert_eq!(
                branches[0].1,
                Variable("h".to_string(), NameKind::Bound(2)),
                "the branch body must see the same telescope as the pattern"
            );
        }
        _ => panic!("expected a Match term"),
    }
}

#[test]
fn inferred_holes_are_numbered_in_order_of_appearance() {
    // λx:_. f(_, x)  gives the binder type ?0 and the first argument ?1
    let term = elaborate_fresh(&Expression::Abstraction(
        "x".to_string(),
        Box::new(Expression::Inferator()),
        Box::new(Expression::Application(
            Box::new(Expression::VarUse("f".to_string())),
            vec![Expression::Inferator(), Expression::VarUse("x".to_string())],
        )),
    ));
    assert_eq!(
        term,
        Abstraction(
            "x".to_string(),
            Box::new(Meta(0)),
            Box::new(Application(
                Box::new(Application(
                    Box::new(Variable("f".to_string(), NameKind::Const())),
                    Box::new(Meta(1)),
                )),
                Box::new(Variable("x".to_string(), NameKind::Bound(0))),
            )),
        )
    );
}

#[test]
fn an_arrow_is_a_product_over_an_anonymous_binder() {
    let term: CicTerm = elaborate_fresh(&Expression::Arrow(
        Box::new(Expression::VarUse("A".to_string())),
        Box::new(Expression::VarUse("_".to_string())),
    ));
    assert_eq!(
        term,
        Product(
            "_".to_string(),
            Box::new(Variable("A".to_string(), NameKind::Const())),
            Box::new(Variable("_".to_string(), NameKind::Bound(0))),
        )
    );
}

/// Elaborates `e` numbering its metavariables from 0.
fn elaborate_fresh(e: &Expression) -> CicTerm {
    let mut next_meta: i32 = 0;
    elaborate_expression(e, &mut next_meta)
}
