use lof::cic::reduction::{normalize_term, one_step_reduction, reduce_match, reduce_variable};
use lof::cic::statements::Cic;
use lof::cic::term::CicTerm::{Abstraction, Application, Let, Match, Product, Sort, Variable};
use lof::cic::term::{CicTerm, NameKind};

fn constant(name: &str) -> CicTerm {
    Variable(name.to_string(), NameKind::Const())
}

#[test]
fn test_var_reduction() {
    let mut test_env = Cic::default_environment();
    test_env.add_substitution_with_type("test", &constant("Unit"), &Sort("TYPE".to_string()));

    assert_eq!(
        reduce_variable(&test_env, "constant", &constant("constant")),
        constant("constant"),
        "Constant δ-reduces to something other than itself"
    );
    assert_eq!(
        reduce_variable(&test_env, "test", &Variable("test".to_string(), NameKind::Bound(0))),
        constant("Unit"),
        "Defined variable doesnt δ-reduce to its body"
    );
}

#[test]
fn test_app_reduction() {
    let nat = constant("Nat");
    let succ = constant("s");
    let zero = constant("z");
    let mut test_env = Cic::default_environment();
    test_env.add_to_context("Nat", &Sort("TYPE".to_string()));
    test_env.add_to_context("z", &nat);
    test_env.add_to_context("s", &Product("".to_string(), Box::new(nat.clone()), Box::new(nat.clone())));
    test_env.add_substitution_with_type(
        "add_one",
        &Abstraction(
            "n".to_string(),
            Box::new(nat.clone()),
            Box::new(Application(Box::new(succ.clone()), Box::new(Variable("n".to_string(), NameKind::Bound(0))))),
        ),
        &Product("n".to_string(), Box::new(nat.clone()), Box::new(nat.clone())),
    );

    assert_eq!(
        one_step_reduction(&mut test_env, &Application(Box::new(succ.clone()), Box::new(zero.clone()))),
        Application(Box::new(succ.clone()), Box::new(zero)),
        "Function application of normal form returns a different term"
    );
    assert_eq!(
        one_step_reduction(&mut test_env, &Application(Box::new(constant("add_one")), Box::new(constant("arg")))),
        Application(Box::new(succ.clone()), Box::new(constant("arg"))),
        "Function application doesnt reduce to the function body with substituted variable"
    );
}

#[test]
fn test_let_reduction() {
    let mut test_env = Cic::default_environment();
    let zero = constant("z");
    test_env.add_to_context("Nat", &Sort("TYPE".to_string()));

    assert_eq!(
        one_step_reduction(
            &mut test_env,
            &Let(
                "n".to_string(),
                Box::new(None),
                Box::new(zero.clone()),
                Box::new(Variable("n".to_string(), NameKind::Bound(0))),
            ),
        ),
        zero.to_owned(),
        "Let definition doesnt reduce to its scope with substituted variable"
    );
}

#[test]
fn test_match_reduction() {
    let nat = constant("Nat");
    let succ = constant("s");
    let mut test_env = Cic::default_environment();
    let zero = constant("z");
    let succ_pattern = Application(Box::new(succ.clone()), Box::new(Variable("n".to_string(), NameKind::Bound(0))));
    let true_term = constant("true");
    let false_term = constant("false");

    test_env.add_to_context("Nat", &Sort("TYPE".to_string()));
    test_env.add_to_context("z", &nat.clone());
    test_env.add_to_context("s", &Product("_".to_string(), Box::new(nat.clone()), Box::new(nat.clone())));
    test_env.add_substitution_with_type("x", &zero, &nat.clone());

    assert_eq!(
        reduce_match(
            &mut test_env,
            &zero,
            &vec![(zero.clone(), true_term.clone()), (succ_pattern.clone(), false_term.clone())]
        ),
        true_term,
        "Match term doesnt δ-reduce to the right branch body"
    );
    assert_eq!(
        reduce_match(
            &mut test_env,
            &Variable("x".to_string(), NameKind::Bound(0)),
            &vec![(zero.clone(), true_term.clone()), (succ_pattern.clone(), false_term.clone())]
        ),
        true_term,
        "Match term doesnt δ-reduce if matching a variable that needs reduction"
    );
    assert_eq!(
        reduce_match(
            &mut test_env,
            &Application(Box::new(succ), Box::new(constant("z"))),
            &vec![(zero.clone(), true_term.clone()), (succ_pattern.clone(), false_term.clone())]
        ),
        false_term,
        "Match term doesnt δ-reduce if matching an application pattern"
    );
}

#[test]
fn test_match_reduction_binds_pattern_variables() {
    let nat = constant("Nat");
    let succ = constant("s");
    let zero = constant("z");
    let mut test_env = Cic::default_environment();
    let succ_pattern = Application(Box::new(succ.clone()), Box::new(constant("n")));
    let body_returning_bound_var = constant("n");

    test_env.add_to_context("Nat", &Sort("TYPE".to_string()));
    test_env.add_to_context("z", &nat.clone());
    test_env.add_to_context("s", &Product("_".to_string(), Box::new(nat.clone()), Box::new(nat.clone())));

    assert_eq!(
        reduce_match(
            &mut test_env,
            &Application(Box::new(succ), Box::new(zero.clone())),
            &vec![(zero.clone(), zero.clone()), (succ_pattern, body_returning_bound_var)]
        ),
        zero,
        "Match reduction doesnt substitute the constructor argument for the pattern's bound variable in the branch body"
    );
}

#[test]
fn normalizing_unfolds_definitions_until_nothing_changes() {
    let mut env = Cic::default_environment();
    env.add_substitution("a", &constant("b"));
    env.add_substitution("b", &constant("c"));
    let m = Match(Box::new(constant("a")), vec![(constant("c"), constant("yes")), (constant("b"), constant("no"))]);
    assert_eq!(normalize_term(&env, &constant("a")), constant("c"));
    assert_eq!(normalize_term(&env, &m), constant("yes"));
    assert_eq!(one_step_reduction(&env, &constant("a")), constant("b"));
}
