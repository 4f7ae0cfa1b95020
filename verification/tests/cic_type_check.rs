use lof::cic::environment::Environment;
use lof::cic::kernel::{execute_program, type_check_program, type_check_stm, u_type_check_theorem};
use lof::cic::statements::Cic;
use lof::cic::tactics::{type_check_exact, type_check_intro};
use lof::cic::term::CicTerm::{Abstraction, Application, Match, Meta, Product, Sort, Variable};
use lof::cic::term::{CicStm, CicTerm, NameKind};
use lof::cic::type_check::{cic_collect_unifications, type_check_match, type_check_term};
use lof::parser::api::Tactic::{Apply, Exact, Intro};
use lof::parser::api::Union::{L, R};
use lof::runtime::program::Schedule;

fn constant(name: &str) -> CicTerm {
    Variable(name.to_string(), NameKind::Const())
}

fn sort(name: &str) -> CicTerm {
    Sort(name.to_string())
}

fn arrow(a: CicTerm, b: CicTerm) -> CicTerm {
    Product("_".to_string(), Box::new(a), Box::new(b))
}

fn app(f: CicTerm, a: CicTerm) -> CicTerm {
    Application(Box::new(f), Box::new(a))
}

/// `Nat : TYPE` with `z : Nat` and `s : Nat -> Nat` declared as its constructors.
fn nat_environment() -> Environment {
    let mut env = Cic::default_environment();
    let stm = CicStm::InductiveDef(
        "Nat".to_string(),
        vec![],
        Box::new(sort("TYPE")),
        vec![("z".to_string(), constant("Nat")), ("s".to_string(), arrow(constant("Nat"), constant("Nat")))],
    );
    assert!(type_check_stm(&stm, &mut env).is_ok());
    env
}

#[test]
fn test_u_type_check_theorem_registers_name() {
    let mut env = Cic::default_environment();
    env.add_to_context("Nat", &Sort("TYPE".to_string()));
    env.add_to_context("z", &constant("Nat"));

    let formula = constant("Nat");
    let proof_term = constant("z");

    assert!(u_type_check_theorem(&mut env, "my_thm", &formula, &L(proof_term)).is_ok(), "theorem should type check");
    assert_eq!(
        env.get_variable_type("my_thm"),
        Some(formula),
        "u_type_check_theorem must register the theorem's name in the real environment"
    );
}

#[test]
fn test_u_type_check_theorem_rejects_incomplete_tactic_proof() {
    let mut env = Cic::default_environment();
    env.add_to_context("Nat", &Sort("TYPE".to_string()));

    let formula = Product("n".to_string(), Box::new(constant("Nat")), Box::new(constant("Nat")));

    let result = u_type_check_theorem(&mut env, "incomplete_thm", &formula, &R(vec![]));
    assert!(
        result.is_err(),
        "an interactive proof with no tactics left to discharge a pending subgoal must be rejected, not accepted as complete"
    );
    assert!(
        result.unwrap_err().message().contains("Incomplete proof"),
        "the error should clearly say the proof is incomplete, not leak an internal hole-sentinel/unbound-variable error"
    );

    assert!(
        u_type_check_theorem(
            &mut env,
            "complete_thm",
            &formula,
            &R(vec![Intro("n".to_string(), constant("Nat")), Exact(constant("n"))]),
        )
        .is_ok(),
        "the same formula must still be provable once tactics actually discharge every subgoal"
    );
}

#[test]
fn test_intro() {
    let nat = constant("Nat");
    let mut test_env = Cic::default_environment();
    let target = Product("n".to_string(), Box::new(nat.clone()), Box::new(nat.clone()));

    assert_eq!(
        type_check_intro(&mut test_env, &target, &Cic::proof_hole(), "n", &nat.clone()),
        Ok((Abstraction("n".to_string(), Box::new(nat.clone()), Box::new(Cic::proof_hole())), vec![nat.clone()])),
        "Intro tactic checking isnt working as expected"
    );
    assert!(
        type_check_intro(&mut test_env, &target, &Cic::proof_hole(), "ass", &nat.clone()).is_ok(),
        "Intro tactic checking isnt working with missmatched variable names"
    );
    assert!(
        type_check_intro(&mut test_env, &target, &Cic::proof_hole(), "ass", &Meta(0)).is_ok(),
        "Intro tactic checking isnt working with unspecified assumption type"
    );
    assert!(
        Cic::type_check_tactic(&mut test_env, &Intro("ass".to_string(), nat.clone()), &target, &Cic::proof_hole()).is_ok(),
        "Top-level tactic checker doesnt support intro"
    );
    assert!(
        type_check_intro(&mut test_env, &nat, &Cic::proof_hole(), "ass", &nat.clone()).is_err(),
        "Intro tactic checking accepts tactic with unassumable target"
    );
}

#[test]
fn test_exact() {
    let nat = constant("Nat");
    let boolean = constant("Bool");
    let mut test_env = Cic::default_environment();
    test_env.add_to_context("Nat", &Sort("TYPE".to_string()));
    test_env.add_to_context("Bool", &Sort("TYPE".to_string()));
    test_env.add_to_context("n", &nat);

    let proof_term = constant("n");
    assert_eq!(
        type_check_exact(&mut test_env, &nat, &Cic::proof_hole(), &proof_term),
        Ok((proof_term.clone(), vec![])),
        "Exact tactic checking doesnt accept simple type inhabiting"
    );
    assert!(
        type_check_exact(&mut test_env, &boolean, &Cic::proof_hole(), &proof_term).is_err(),
        "Exact tactic checking accepts term with wrong type"
    );
}

#[test]
fn test_apply() {
    let mut test_env = Cic::default_environment();
    let premise1 = constant("Premise1");
    let premise2 = constant("Premise2");
    let conclusion = constant("Conclusion");
    test_env.add_to_context("Premise1", &Sort("PROP".to_string()));
    test_env.add_to_context("Premise2", &Sort("PROP".to_string()));
    test_env.add_to_context("Conclusion", &Sort("PROP".to_string()));

    let simple_implication = arrow(premise1.clone(), conclusion.clone());
    test_env.add_to_context("simple_lemma", &simple_implication);
    let simple_lemma = constant("simple_lemma");
    let hole = Cic::proof_hole();

    let (proof, subgoals) = Cic::type_check_tactic(&mut test_env, &Apply(simple_lemma.clone()), &conclusion, &hole).unwrap();
    assert_eq!(
        proof,
        Application(Box::new(simple_lemma), Box::new(hole.clone())),
        "The constructed partial proof is not the expected one"
    );
    assert_eq!(subgoals, vec![premise1.clone()], "The returned subgoals dont match the premises of the applied implication");

    let double_implication = arrow(premise1.clone(), arrow(premise2.clone(), conclusion.clone()));
    test_env.add_to_context("double_lemma", &double_implication);
    let double_lemma = constant("double_lemma");
    let (_, subgoals) = Cic::type_check_tactic(&mut test_env, &Apply(double_lemma), &conclusion, &hole).unwrap();
    assert_eq!(subgoals, vec![premise1, premise2], "Apply tactic doesnt track all premises of the applied lemma");
}

#[test]
fn variables_and_sorts_have_their_assumed_type() {
    let mut env = nat_environment();
    assert_eq!(type_check_term(&constant("z"), &mut env), Ok(constant("Nat")));
    assert_eq!(type_check_term(&sort("TYPE"), &mut env), Ok(sort("TYPE")));
    assert!(type_check_term(&constant("missing"), &mut env).is_err());
    assert_eq!(type_check_term(&Meta(3), &mut env), Ok(sort("TYPE")));
}

#[test]
fn application_and_abstraction_type_check() {
    let mut env = nat_environment();
    assert_eq!(type_check_term(&app(constant("s"), constant("z")), &mut env), Ok(constant("Nat")));
    // a function applied to an argument of the wrong type
    assert!(type_check_term(&app(constant("s"), constant("Nat")), &mut env).is_err());
    let identity = Abstraction("x".to_string(), Box::new(constant("Nat")), Box::new(Variable("x".to_string(), NameKind::Bound(0))));
    assert_eq!(
        type_check_term(&identity, &mut env),
        Ok(Product("x".to_string(), Box::new(constant("Nat")), Box::new(constant("Nat"))))
    );
    // the assumption of the binder is gone afterwards
    assert_eq!(env.get_variable_type("x"), None);
}

#[test]
fn a_match_has_the_type_of_its_branches() {
    let mut env = nat_environment();
    let branches = vec![(constant("z"), constant("z")), (app(constant("s"), constant("m")), constant("m"))];
    assert_eq!(type_check_match(&mut env, &constant("z"), &branches), Ok(constant("Nat")));
    assert_eq!(type_check_term(&Match(Box::new(constant("z")), branches), &mut env), Ok(constant("Nat")));
    // a constructor is missing
    let partial = vec![(constant("z"), constant("z"))];
    assert!(type_check_match(&mut env, &constant("z"), &partial).is_err());
    assert_eq!(env.get_variable_type("m"), None);
}

#[test]
fn an_application_collects_the_constraint_of_its_argument() {
    let mut env = nat_environment();
    let constraints = cic_collect_unifications(&app(constant("s"), constant("z")), &mut env).unwrap();
    assert_eq!(constraints, vec![(constant("Nat"), constant("Nat"))]);
    assert_eq!(cic_collect_unifications(&constant("z"), &mut env).unwrap(), vec![]);
}

#[test]
fn statements_check_and_enter_the_environment() {
    let mut env = nat_environment();
    let one = CicStm::Global("one".to_string(), Some(constant("Nat")), Box::new(app(constant("s"), constant("z"))));
    assert_eq!(type_check_stm(&one, &mut env), Ok(constant("Nat")));
    assert_eq!(env.get_variable_type("one"), Some(constant("Nat")));
    assert_eq!(Cic::normalize_term(&env, &constant("one")), app(constant("s"), constant("z")));

    let bad = CicStm::Global("bad".to_string(), Some(constant("Nat")), Box::new(sort("TYPE")));
    assert!(type_check_stm(&bad, &mut env).is_err());
    assert_eq!(env.get_variable_type("bad"), None);

    let ax_stm = CicStm::Axiom("ax".to_string(), Box::new(constant("Nat")));
    assert_eq!(type_check_stm(&ax_stm, &mut env), Ok(constant("Nat")));
    assert_eq!(env.get_variable_type("ax"), Some(constant("Nat")));
    assert!(env.get_variable_type("e_Nat").is_some());
}

#[test]
fn a_program_checks_and_runs_in_order() {
    let mut program = Schedule::singleton_stm(CicStm::InductiveDef(
        "Nat".to_string(),
        vec![],
        Box::new(sort("TYPE")),
        vec![("z".to_string(), constant("Nat")), ("s".to_string(), arrow(constant("Nat"), constant("Nat")))],
    ));
    let mut defs = Schedule::singleton_stm(CicStm::Fun(
        "succ".to_string(),
        vec![("n".to_string(), constant("Nat"))],
        Box::new(constant("Nat")),
        Box::new(app(constant("s"), Variable("n".to_string(), NameKind::Bound(0)))),
        false,
    ));
    defs.add_expression(app(constant("succ"), constant("z")));
    program.extend(defs);

    let mut env = Cic::default_environment();
    assert_eq!(type_check_program(&program, &mut env), Ok(()));
    let mut run_env = Cic::default_environment();
    assert_eq!(execute_program(&program, &mut run_env), Ok(vec![app(constant("s"), constant("z"))]));

    let mut wrong = Schedule::new();
    wrong.add_expression(constant("unknown"));
    assert!(type_check_program(&wrong, &mut Cic::default_environment()).is_err());
}

#[test]
fn checking_a_statement_evaluates_it() {
    let stm = CicStm::Fun(
        "id".to_string(),
        vec![("n".to_string(), constant("Nat"))],
        Box::new(constant("Nat")),
        Box::new(Variable("n".to_string(), NameKind::Bound(0))),
        false,
    );
    let mut checked = nat_environment();
    let mut evaluated = nat_environment();
    assert!(type_check_stm(&stm, &mut checked).is_ok());
    assert_eq!(Cic::evaluate_statement(&mut evaluated, &stm), Ok(()));
    assert_eq!(checked.get_variable_type("id"), evaluated.get_variable_type("id"));
    assert_eq!(checked.get_from_deltas("id"), evaluated.get_from_deltas("id"));
    assert_eq!(
        Cic::normalize_term(&checked, &app(constant("id"), constant("z"))),
        constant("z")
    );
}

#[test]
fn a_tactic_proof_builds_its_proof_term() {
    let mut env = nat_environment();
    let formula = arrow(constant("Nat"), constant("Nat"));
    let stm = CicStm::Theorem(
        "succ_any".to_string(),
        Box::new(formula.clone()),
        R(vec![Intro("m".to_string(), constant("Nat")), Apply(constant("s")), Exact(constant("m"))]),
    );
    assert_eq!(type_check_stm(&stm, &mut env), Ok(formula.clone()));
    assert_eq!(env.get_variable_type("succ_any"), Some(formula));
    // the assumption made by `intro` does not outlive the proof
    assert_eq!(env.get_variable_type("m"), None);
}
