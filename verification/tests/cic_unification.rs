use std::collections::VecDeque;

use lof::cic::term::CicTerm::{self, Abstraction, Application, Let, Match, Meta, Product, Sort, Variable};
use lof::cic::term::{NameKind, FIRST_INDEX};
use lof::cic::unification::{
    cic_apply_unifier, cic_so_unification, explode, is_substitutable, occurs, solve_unifications_unnormalized,
    structurally_equal,
};
use lof::commons::unification::Substitution;
use lof::error::LofError;

fn global(name: &str) -> CicTerm {
    Variable(name.to_string(), NameKind::Const())
}

#[test]
fn test_variable_structural_equality() {
    assert!(
        structurally_equal(
            &Variable("x".to_string(), NameKind::Bound(0)),
            &Variable("y".to_string(), NameKind::Bound(0)),
        ),
        "bound variables at the same de Bruijn position should be equal regardless of name (they're alpha equivalent)"
    );

    assert!(
        !structurally_equal(
            &Variable("x".to_string(), NameKind::Bound(0)),
            &Variable("y".to_string(), NameKind::Bound(1)),
        ),
        "bound variables at different positions with different names must not be equal"
    );

    assert!(
        !structurally_equal(&global("z"), &global("s")),
        "different global constants should not be considered structurally equal"
    );
}

#[test]
fn test_structurally_equal_abstraction() {
    let term = Abstraction(
        "x".to_string(),
        Box::new(Sort("TYPE".to_string())),
        Box::new(Abstraction(
            "y".to_string(),
            Box::new(Sort("TYPE".to_string())),
            Box::new(Variable("x".to_string(), NameKind::Bound(1))),
        )),
    );
    let unifiable = Abstraction(
        "y".to_string(),
        Box::new(Sort("TYPE".to_string())),
        Box::new(Abstraction(
            "x".to_string(),
            Box::new(Sort("TYPE".to_string())),
            Box::new(Variable("y".to_string(), NameKind::Bound(1))),
        )),
    );
    let ununifiable = Abstraction(
        "y".to_string(),
        Box::new(Sort("TYPE".to_string())),
        Box::new(Abstraction(
            "x".to_string(),
            Box::new(Sort("TYPE".to_string())),
            Box::new(Variable("x".to_string(), NameKind::Bound(2))),
        )),
    );

    assert!(structurally_equal(&term, &unifiable), "first arg projection functions are not alpha equivalent");
    assert!(!structurally_equal(&term, &ununifiable), "first/second arg projection functions are unifiable");
}

#[test]
fn test_variable_ground_unification() {
    fn var(name: &str) -> CicTerm {
        Variable(name.to_string(), NameKind::Bound(-100))
    }
    let listbool = Application(Box::new(var("List")), Box::new(var("Bool")));
    let listt = Application(Box::new(var("List")), Box::new(Variable("T".to_string(), NameKind::Bound(FIRST_INDEX))));
    assert!(cic_so_unification(&listbool, &listt).is_ok(), "nook");
}

#[test]
fn test_match_unification() {
    let t = global("true");
    let expected = Substitution::from([("metavariable_1".to_string(), t.clone())]);
    let constraints = vec![(
        Match(
            Box::new(Variable("b".to_string(), NameKind::Bound(0))),
            vec![(t.clone(), global("b")), (global("false"), global("b"))],
        ),
        Match(
            Box::new(Variable("b".to_string(), NameKind::Bound(0))),
            vec![(Meta(1), global("b")), (global("false"), global("b"))],
        ),
    )];
    assert_eq!(
        solve_unifications_unnormalized(VecDeque::from(constraints)).unwrap(),
        expected,
        "Unification couldnt solve a problem of constructor recovery in pattern matching"
    );

    let body = Sort("TYPE".to_string());
    let expected = Substitution::from([("metavariable_2".to_string(), body.clone())]);
    let constraints = vec![(
        Match(
            Box::new(Variable("b".to_string(), NameKind::Bound(0))),
            vec![(global("true"), body.clone()), (global("false"), body.clone())],
        ),
        Match(
            Box::new(Variable("b".to_string(), NameKind::Bound(0))),
            vec![(global("true"), Meta(2)), (global("false"), body.clone())],
        ),
    )];
    assert_eq!(
        solve_unifications_unnormalized(VecDeque::from(constraints)).unwrap(),
        expected,
        "Unification couldnt solve unification of pattern match bodies"
    );
}

#[test]
fn test_apply_unifier_routes_variable_keys_by_name() {
    let nat = global("Nat");
    let vec = global("Vec");
    let substitution = Substitution::from([
        ("variable_n".to_string(), nat.clone()),
        ("metavariable_0".to_string(), vec.clone()),
    ]);
    let exp = Application(
        Box::new(Application(Box::new(vec.clone()), Box::new(Variable("n".to_string(), NameKind::Bound(FIRST_INDEX))))),
        Box::new(Meta(0)),
    );

    assert_eq!(
        cic_apply_unifier(&exp, &substitution),
        Application(Box::new(Application(Box::new(vec.clone()), Box::new(nat))), Box::new(vec)),
        "applying a unifier must substitute `variable_<name>` keys by name and `metavariable_<idx>` keys by index"
    );
}

#[test]
fn test_solved_mgu_grounds_variable_keys_inside_meta_bodies() {
    let nat = global("Nat");
    let list = global("List");
    let x = Variable("x".to_string(), NameKind::Bound(FIRST_INDEX));

    let constraints = VecDeque::from(vec![
        (Meta(0), Application(Box::new(list.clone()), Box::new(x.clone()))),
        (x, nat.clone()),
    ]);

    assert_eq!(
        solve_unifications_unnormalized(constraints).unwrap(),
        Substitution::from([
            ("metavariable_0".to_string(), Application(Box::new(list), Box::new(nat.clone()))),
            ("variable_x".to_string(), nat),
        ]),
        "reducing an mgu must fold `variable_<name>` solutions into the other bodies by name"
    );
}

#[test]
fn test_trivial_constraint_after_a_solution_is_dropped_not_redirected() {
    let f = global("f");
    let x = Variable("x".to_string(), NameKind::Bound(FIRST_INDEX));
    let y = Variable("y".to_string(), NameKind::Bound(FIRST_INDEX));

    let f_of = |arg1: &CicTerm, arg2: &CicTerm| {
        Application(Box::new(Application(Box::new(f.clone()), Box::new(arg1.clone()))), Box::new(arg2.clone()))
    };
    assert_eq!(
        cic_so_unification(&f_of(&x, &x), &f_of(&x, &y)).unwrap(),
        Substitution::from([("variable_x".to_string(), y)]),
        "a vacuous x =~= x constraint must be dropped outright, never redirected through an existing solution for x"
    );
}

#[test]
fn test_repeated_variable_constraint_is_not_an_occurs_failure() {
    let f = global("f");
    let r = Variable("r".to_string(), NameKind::Bound(FIRST_INDEX));
    let r_0 = Variable("r_0".to_string(), NameKind::Bound(FIRST_INDEX));

    let app = |arg1: &CicTerm, arg2: &CicTerm| {
        Application(Box::new(Application(Box::new(f.clone()), Box::new(arg1.clone()))), Box::new(arg2.clone()))
    };
    assert_eq!(
        cic_so_unification(&app(&r_0, &r_0), &app(&r, &r)).unwrap(),
        Substitution::from([("variable_r_0".to_string(), r)]),
        "deriving the same variable constraint twice must stay trivially solvable, not trip the occurs check"
    );
}

#[test]
fn test_substitutability() {
    assert_eq!(
        is_substitutable(&Meta(420)),
        Some("metavariable_420".to_string()),
        "is_substitutable check doesnt return proper naming for a metavariable"
    );
    assert_eq!(
        is_substitutable(&Variable("super_idol".to_string(), NameKind::Bound(69))),
        Some("variable_super_idol".to_string()),
        "is_substitutable check doesnt return proper naming for a variable"
    );
    assert!(
        is_substitutable(&Sort("TYPE".to_string())).is_none(),
        "is_substitutable check returns a key for a term different from [meta]variables"
    );
    assert!(
        is_substitutable(&Application(Box::new(Variable("".to_string(), NameKind::Bound(0))), Box::new(Meta(0)))).is_none(),
        "is_substitutable check returns a key for a term different from [meta]variables"
    );
    assert!(
        is_substitutable(&Product(
            "".to_string(),
            Box::new(Meta(0)),
            Box::new(Variable("".to_string(), NameKind::Bound(0)))
        ))
        .is_none(),
        "is_substitutable check returns a key for a term different from [meta]variables"
    );
    assert!(
        is_substitutable(&Abstraction(
            "".to_string(),
            Box::new(Meta(0)),
            Box::new(Variable("".to_string(), NameKind::Bound(0)))
        ))
        .is_none(),
        "is_substitutable check returns a key for a term different from [meta]variables"
    );
    assert!(
        is_substitutable(&Match(
            Box::new(Variable("".to_string(), NameKind::Bound(0))),
            vec![(Variable("".to_string(), NameKind::Bound(0)), Meta(0))]
        ))
        .is_none(),
        "is_substitutable check returns a key for a term different from [meta]variables"
    );
    assert!(
        is_substitutable(&Let(
            "".to_string(),
            Box::new(Some(Meta(0))),
            Box::new(Variable("".to_string(), NameKind::Bound(0))),
            Box::new(Sort("TYPE".to_string()))
        ))
        .is_none(),
        "is_substitutable check returns a key for a term different from [meta]variables"
    );
}

#[test]
fn test_explosion() {
    let subterm1 = Sort("dope".to_string());
    let subterm2 = Sort("dope".to_string());
    assert_eq!(explode(&Sort("".to_string())), vec![], "CIC explosion doesnt produce the proper subcomponents vector");
    assert_eq!(explode(&Meta(63)), vec![], "CIC explosion doesnt produce the proper subcomponents vector");
    assert_eq!(
        explode(&Variable("".to_string(), NameKind::Bound(0))),
        vec![],
        "CIC explosion doesnt produce the proper subcomponents vector"
    );
    assert_eq!(
        explode(&Abstraction("".to_string(), Box::new(subterm1.clone()), Box::new(subterm2.clone()))),
        vec![subterm1.clone(), subterm2.clone()],
        "CIC explosion doesnt produce the proper subcomponents vector"
    );
    assert_eq!(
        explode(&Product("".to_string(), Box::new(subterm1.clone()), Box::new(subterm2.clone()))),
        vec![subterm1.clone(), subterm2.clone()],
        "CIC explosion doesnt produce the proper subcomponents vector"
    );
    assert_eq!(
        explode(&Application(Box::new(subterm1.clone()), Box::new(subterm2.clone()))),
        vec![subterm1.clone(), subterm2.clone()],
        "CIC explosion doesnt produce the proper subcomponents vector"
    );
}

#[test]
fn test_cic_occurs() {
    let variable = Variable("name".to_string(), NameKind::Bound(0));
    let name_key = "variable_name";
    let meta = Meta(16 * 29);
    let meta_key = &format!("metavariable_{}", 16 * 29);
    let random = Sort("TYPE".to_string());

    assert!(occurs(&variable, name_key), "occurs check doesnt see variable");
    assert!(
        occurs(&Application(Box::new(global("f")), Box::new(variable.clone())), name_key),
        "occurs check doesnt see variable"
    );
    assert!(
        occurs(
            &Let(
                "".to_string(),
                Box::new(None),
                Box::new(Variable("exp".to_string(), NameKind::Bound(0))),
                Box::new(variable.clone())
            ),
            name_key
        ),
        "occurs check doesnt see variable"
    );

    assert!(occurs(&meta, meta_key), "occurs check doesnt see metavariable");
    assert!(
        occurs(&Abstraction("T".to_string(), Box::new(meta.clone()), Box::new(random.clone())), meta_key),
        "occurs check doesnt see metavariable"
    );
    assert!(
        occurs(&Application(Box::new(global("nil")), Box::new(meta.clone())), meta_key),
        "occurs check doesnt see metavariable"
    );

    let branching = Match(
        Box::new(Variable("".to_string(), NameKind::Bound(42))),
        vec![
            (Variable("true".to_string(), NameKind::Bound(0)), variable.clone()),
            (Variable("false".to_string(), NameKind::Bound(0)), meta.clone()),
        ],
    );
    assert!(occurs(&branching, name_key), "occurs check doesnt see variable");
    assert!(occurs(&branching, meta_key), "occurs check doesnt see metavariable");
    assert!(!occurs(&branching, "variable_missing_key"), "occurs passes on unreferenced variable");
    assert!(!occurs(&Sort(name_key.to_string()), name_key), "occurs check passes on a sort which isnt a substitutable term");
    assert!(!occurs(&Sort(format!("{}", meta_key)), meta_key), "occurs check passes on a sort which isnt a substitutable term");
    assert!(
        !occurs(
            &Abstraction("T".to_string(), Box::new(Sort("TYPE".to_string())), Box::new(Sort("TYPE".to_string()))),
            name_key
        ),
        "occurs check passes on a term that doesnt reference the variable"
    );
}

#[test]
fn a_metavariable_unifies_with_a_constant() {
    let nat = global("Nat");
    assert_eq!(
        cic_so_unification(&Meta(0), &nat).unwrap(),
        Substitution::from([("metavariable_0".to_string(), nat.clone())])
    );
}

#[test]
fn solutions_are_folded_into_earlier_ones() {
    let nat = global("Nat");
    let constraints = VecDeque::from(vec![
        (Meta(1), Product("_".to_string(), Box::new(nat.clone()), Box::new(Meta(0)))),
        (Meta(0), nat.clone()),
    ]);
    assert_eq!(
        solve_unifications_unnormalized(constraints).unwrap(),
        Substitution::from([
            ("metavariable_1".to_string(), Product("_".to_string(), Box::new(nat.clone()), Box::new(nat.clone()))),
            ("metavariable_0".to_string(), nat),
        ])
    );
}

#[test]
fn unifying_a_term_with_itself_solves_nothing() {
    let term = Application(
        Box::new(Abstraction("x".to_string(), Box::new(Meta(3)), Box::new(Variable("x".to_string(), NameKind::Bound(0))))),
        Box::new(global("c")),
    );
    assert_eq!(cic_so_unification(&term, &term).unwrap(), Substitution::empty());
}

#[test]
fn a_variable_cannot_be_solved_by_a_term_containing_it() {
    let x = Variable("x".to_string(), NameKind::Bound(0));
    let fx = Application(Box::new(global("f")), Box::new(x.clone()));
    match cic_so_unification(&x, &fx) {
        Err(LofError::OccursCheckInTerm { variable, term }) => {
            assert_eq!(variable, "variable_x");
            assert_eq!(term, "(f|G x|0)");
        }
        other => panic!("expected an occurs check failure, got {:?}", other),
    }
}

#[test]
fn different_constants_do_not_unify() {
    match cic_so_unification(&global("a"), &global("b")) {
        Err(LofError::UnificationFailure { term1, term2 }) => {
            assert_eq!(term1, "a|G");
            assert_eq!(term2, "b|G");
        }
        other => panic!("expected a unification failure, got {:?}", other),
    }
}
