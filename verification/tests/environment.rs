use std::collections::HashMap;

use lof::cic::environment::Environment;
use lof::cic::statements::Cic;
use lof::cic::term::CicTerm::{self, Sort, Variable};
use lof::cic::term::NameKind;
use lof::commons::transport::EquivConfig;

fn global(name: &str) -> CicTerm {
    Variable(name.to_string(), NameKind::Const())
}

#[test]
fn test_context_manipulation() {
    let mut test_env = Cic::default_environment();
    let test_var_name = "test";
    let first_type = Sort("TYPE".to_string());
    let second_type = Sort("PROP".to_string());

    test_env.add_to_context(test_var_name, &first_type);
    assert_eq!(
        Some((test_var_name.to_string(), first_type.clone())),
        test_env.get_from_context(test_var_name),
        "Environment didnt store context assumption correctly"
    );

    test_env.add_to_context(test_var_name, &second_type);
    assert_eq!(
        Some((test_var_name.to_string(), second_type)),
        test_env.get_from_context(test_var_name),
        "Environment didnt override the same variable name"
    );

    test_env.remove_from_context(test_var_name);
    assert_eq!(
        Some((test_var_name.to_string(), first_type)),
        test_env.get_from_context(test_var_name),
        "Environment didnt restore previous variable type after second name was freed"
    );
}

#[test]
fn test_delta_manipulation() {
    let mut test_env = Cic::default_environment();
    let test_var_name = "test";
    let first_body = Sort("TYPE".to_string());
    let second_body = Sort("PROP".to_string());

    test_env.add_substitution(test_var_name, &first_body);
    assert_eq!(
        Some((test_var_name.to_string(), first_body.clone())),
        test_env.get_from_deltas(test_var_name),
        "Environment didnt store variable substitution correctly"
    );

    test_env.add_substitution(test_var_name, &second_body);
    assert_eq!(
        Some((test_var_name.to_string(), second_body)),
        test_env.get_from_deltas(test_var_name),
        "Environment didnt override the same variable name"
    );

    test_env.remove_substitution(test_var_name);
    assert_eq!(
        Some((test_var_name.to_string(), first_body)),
        test_env.get_from_deltas(test_var_name),
        "Environment didnt restore previous variable type after second name was freed"
    );
}

#[test]
fn test_boundness() {
    let mut test_env = Cic::default_environment();

    assert!(!test_env.is_var_bound("unbound_var_name"), "Environment signals unbound variable as bound");

    test_env.add_to_context("a", &Variable("a".to_string(), NameKind::Const()));
    assert!(test_env.is_var_bound("a"), "Environment signals bound variable as unbound");

    test_env.add_substitution("b", &Variable("a".to_string(), NameKind::Const()));
    assert!(
        test_env.is_var_bound("b"),
        "Environment signals bound variable as unbound if it was introduced as a substitution"
    );
}

#[test]
fn test_with_local_assumption() {
    let mut test_env = Cic::default_environment();
    let var_name = "local_var";
    let var_type = Sort("TYPE".to_string());

    test_env.with_local_assumption(var_name, &var_type, |env| {
        assert_eq!(
            Some((var_name.to_string(), var_type.clone())),
            env.get_from_context(var_name),
            "Local assumption was not added to the context"
        );
        (env, ())
    });
    assert_eq!(
        None,
        test_env.get_from_context(var_name),
        "Local assumption was not removed from the context after closure execution"
    );
}

#[test]
fn test_with_local_assumptions() {
    let mut test_env = Cic::default_environment();
    let typed_variables = vec![
        ("var1".to_string(), Sort("TYPE".to_string())),
        ("var2".to_string(), Sort("PROP".to_string())),
    ];

    test_env.with_local_assumptions(&typed_variables, |env| {
        for (name, typee) in typed_variables.iter() {
            assert_eq!(
                Some((name.to_string(), typee.clone())),
                env.get_from_context(name),
                "Local assumption was not added to the context"
            );
        }
        (env, ())
    });
    for (name, _) in typed_variables.iter() {
        assert_eq!(
            None,
            test_env.get_from_context(name),
            "Local assumption was not removed from the context after closure execution"
        );
    }
}

#[test]
fn test_with_local_substitution() {
    let mut test_env = Cic::default_environment();
    let var_name = "local_var";
    let substitution_term = Variable(var_name.to_string(), NameKind::Const());

    test_env.with_local_substitution(var_name, &substitution_term, &None, |env| {
        assert_eq!(
            Some((var_name.to_string(), substitution_term.clone())),
            env.get_from_deltas(var_name),
            "Local substitution was not added to the deltas"
        );
        (env, ())
    });
    assert_eq!(
        None,
        test_env.get_from_deltas(var_name),
        "Local substitution was not removed from the deltas after closure execution"
    );
}

#[test]
fn test_with_local_substitutions() {
    let mut test_env = Cic::default_environment();
    let var_names_and_terms = vec![
        ("var1".to_string(), Variable("term1".to_string(), NameKind::Const()), None),
        ("var2".to_string(), Variable("term2".to_string(), NameKind::Const()), None),
    ];

    test_env.with_local_substitutions(&var_names_and_terms, |env| {
        for (name, term, _) in var_names_and_terms.iter() {
            assert_eq!(
                Some((name.to_string(), term.clone())),
                env.get_from_deltas(name),
                "Local substitution was not added to the deltas"
            );
        }
        (env, ())
    });
    for (name, _, _) in var_names_and_terms.iter() {
        assert_eq!(
            None,
            test_env.get_from_deltas(name),
            "Local substitution was not removed from the deltas after closure execution"
        );
    }
}

#[test]
fn test_active_context_reading() {
    let mut test_env: Environment = Environment::with_defaults(vec![], vec![], vec![]);
    let nat = global("Nat");
    let boolean = global("Bool");
    let context = |env: &Environment| env.get_context().into_iter().collect::<HashMap<String, CicTerm>>();

    test_env.add_to_context("x", &nat);
    test_env.add_to_context("y", &boolean);
    assert_eq!(
        context(&test_env),
        HashMap::from([("x".to_string(), nat.clone()), ("y".to_string(), boolean.clone())]),
        "Environment::get_context is returning the proper context"
    );

    test_env.add_to_context("x", &boolean);
    assert_eq!(
        context(&test_env),
        HashMap::from([("x".to_string(), boolean.clone()), ("y".to_string(), boolean.clone())]),
        "Environment::get_context is returning the latest typing assinged to name 'x'"
    );

    test_env.add_to_context("z", &boolean);
    assert_eq!(
        context(&test_env),
        HashMap::from([
            ("x".to_string(), boolean.clone()),
            ("y".to_string(), boolean.clone()),
            ("z".to_string(), boolean.clone()),
        ]),
        "Environment::get_context doesnt behave properly after inclusion of new names"
    );
}

#[test]
fn default_environment_holds_the_two_sorts() {
    let env = Cic::default_environment();
    assert_eq!(env.get_variable_type("TYPE"), Some(Sort("TYPE".to_string())));
    assert_eq!(env.get_variable_type("PROP"), Some(Sort("TYPE".to_string())));
    assert_eq!(env.get_variable_type("Nat"), None);
    let mut constants = env.get_constants();
    constants.sort();
    assert_eq!(constants, vec!["PROP".to_string(), "TYPE".to_string()]);
}

#[test]
fn with_defaults_keeps_the_later_entry_of_a_name() {
    let first = global("A");
    let second = global("B");
    let body = global("b");
    let typed = Some(global("T"));
    let mut env = Environment::with_defaults(
        vec![("x", &first), ("x", &second), ("y", &first)],
        vec![("y", &body, &typed)],
        vec![],
    );
    assert_eq!(env.get_variable_type("x"), Some(second.clone()));
    assert_eq!(env.get_variable_type("y"), Some(global("T")));
    assert_eq!(env.get_from_deltas("y"), Some(("y".to_string(), body.clone())));
    env.remove_from_context("x");
    assert_eq!(env.get_from_context("x"), None, "an overridden default must not come back");
}

#[test]
fn local_scopes_restore_shadowed_entries() {
    let mut env = Cic::default_environment();
    env.add_to_context("n", &global("Nat"));
    let inner = env.with_local_assumption("n", &global("Bool"), |e| {
        let seen = e.get_variable_type("n");
        (e, seen)
    });
    assert_eq!(inner, Some(global("Bool")));
    assert_eq!(env.get_variable_type("n"), Some(global("Nat")));

    let typed = vec![("d".to_string(), global("body"), Some(global("D")))];
    let seen = env.with_local_substitutions(&typed, |e| {
        let t = e.get_variable_type("d");
        let b = e.get_from_deltas("d");
        (e, (t, b))
    });
    assert_eq!(seen, (Some(global("D")), Some(("d".to_string(), global("body")))));
    assert!(!env.is_var_bound("d"));

    let typed_one = Some(global("E"));
    env.with_local_substitution("e", &global("v"), &typed_one, |e| {
        assert_eq!(e.get_variable_type("e"), Some(global("E")));
        (e, ())
    });
    assert_eq!(env.get_variable_type("e"), None);
    assert_eq!(env.get_from_deltas("e"), None);
}

#[test]
fn predicates_and_theorem_proofs() {
    let mut env = Cic::default_environment();
    assert_eq!(env.get_predicate("even"), None);
    env.add_predicate("even", &vec![global("Nat")]);
    env.add_predicate("even", &vec![global("Int")]);
    assert_eq!(env.get_predicate("even"), Some(vec![global("Int")]));

    assert_eq!(env.get_theorem_proof("thm"), None);
    env.add_theorem_proof("thm", &global("p1"));
    env.add_theorem_proof("thm", &global("p2"));
    assert_eq!(env.get_theorem_proof("thm"), Some(global("p2")));
}

#[test]
fn constructor_lookups() {
    let mut env = Cic::default_environment();
    env.add_constructor_store(
        "Nat",
        vec![("z".to_string(), global("Nat")), ("s".to_string(), global("Nat"))],
    );
    env.add_constructor_store("Bool", vec![("t".to_string(), global("Bool"))]);
    assert_eq!(env.constructor_type_of("s"), Some("Nat".to_string()));
    assert_eq!(env.constructor_type_of("t"), Some("Bool".to_string()));
    assert_eq!(env.constructor_type_of("nil"), None);
    assert_eq!(env.get_constructors_for("Nat"), Some(vec!["z".to_string(), "s".to_string()]));
    assert_eq!(env.get_constructors_for("List"), None);

    // redeclaring a type hides its earlier constructors
    env.add_constructor_store("Nat", vec![("zero".to_string(), global("Nat"))]);
    assert_eq!(env.constructor_type_of("s"), None);
    assert_eq!(env.constructor_type_of("zero"), Some("Nat".to_string()));
}

fn config(name: &str) -> EquivConfig {
    EquivConfig {
        name: name.to_string(),
        type_a: "Nat".to_string(),
        type_b: "Bin".to_string(),
        forward: global("f"),
        backward: global("g"),
        section: global("sec"),
        retraction: global("ret"),
        dep_constr: vec![("z".to_string(), global("bz"))],
        dep_elim: global("e_Bin"),
        eta: None,
        iota: vec![],
        lifted_names: vec![],
    }
}

#[test]
fn equivalences_are_found_and_changed_in_place() {
    let mut env = Cic::default_environment();
    assert!(env.get_equivalence("nat_bin").is_none());
    env.add_equivalence("nat_bin", config("nat_bin"));
    assert_eq!(env.get_equivalence("nat_bin").map(|c| c.type_b.clone()), Some("Bin".to_string()));

    if let Some(c) = env.get_equivalence_mut("nat_bin") {
        c.lifted_names.push(("add".to_string(), "add_bin".to_string()));
    }
    let lifted = env.get_equivalence("nat_bin").map(|c| c.lifted_names.clone());
    assert_eq!(lifted, Some(vec![("add".to_string(), "add_bin".to_string())]));
    assert!(env.get_equivalence_mut("other").is_none());
}

#[test]
fn rollback_leaves_the_environment_alone() {
    let env = Cic::default_environment();
    let seen = env.with_rollback(|mut e| {
        e.add_to_context("tmp", &global("T"));
        e.get_variable_type("tmp")
    });
    assert_eq!(seen, Some(global("T")));
    assert_eq!(env.get_variable_type("tmp"), None);
    let copy = env.clone();
    assert_eq!(copy.get_variable_type("TYPE"), Some(Sort("TYPE".to_string())));
}
