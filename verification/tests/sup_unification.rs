use lof::error::LofError;
use lof::sup::sup::SupFormula::{Atom, Not};
use lof::sup::sup::SupTerm::{self, Application, Variable};
use lof::sup::unification::{
    formula_apply_substitution, formulas_unify, occurs_in, substitute_term, sup_terms_equal, term_apply_substitution,
    SupSubstitution,
};

fn var(name: &str) -> SupTerm {
    Variable(name.to_string())
}
fn app(name: &str, args: Vec<SupTerm>) -> SupTerm {
    Application(name.to_string(), args)
}

#[test]
fn test_unifier_makes_atoms_equal() {
    // p(X, f(Y)) and p(g(Z), f(a))
    let a = Atom("p".to_string(), vec![var("X"), app("f", vec![var("Y")])]);
    let b = Atom("p".to_string(), vec![app("g", vec![var("Z")]), app("f", vec![app("a", vec![])])]);
    let mgu = formulas_unify(&a, &b).expect("the atoms unify");
    assert_eq!(mgu.resolvent("X"), Some(&app("g", vec![var("Z")])));
    assert_eq!(mgu.resolvent("Y"), Some(&app("a", vec![])));
    assert_eq!(formula_apply_substitution(&a, &mgu), formula_apply_substitution(&b, &mgu));
}

#[test]
fn test_unification_binds_through_earlier_bindings() {
    // p(X, X) and p(Y, a): X := Y, then Y := a, which rewrites X's binding
    let a = Atom("p".to_string(), vec![var("X"), var("X")]);
    let b = Atom("p".to_string(), vec![var("Y"), app("a", vec![])]);
    let mgu = formulas_unify(&a, &b).expect("the atoms unify");
    assert_eq!(mgu.resolvent("X"), Some(&app("a", vec![])));
    assert_eq!(mgu.resolvent("Y"), Some(&app("a", vec![])));
}

#[test]
fn test_unification_failures() {
    let clash = formulas_unify(
        &Atom("p".to_string(), vec![app("a", vec![])]),
        &Atom("p".to_string(), vec![app("b", vec![])]),
    );
    assert!(matches!(clash, Err(LofError::UnificationFailure { .. })));

    let occurs = formulas_unify(
        &Atom("p".to_string(), vec![var("X")]),
        &Atom("p".to_string(), vec![app("f", vec![var("X")])]),
    );
    assert!(occurs.is_err(), "X cannot stand for f(X)");

    let arity = formulas_unify(&Atom("p".to_string(), vec![var("X")]), &Atom("p".to_string(), vec![]));
    assert!(arity.is_err());

    let other_predicate = formulas_unify(&Atom("p".to_string(), vec![]), &Atom("q".to_string(), vec![]));
    assert!(other_predicate.is_err());

    let negation = Not(Box::new(Atom("p".to_string(), vec![])));
    let err = formulas_unify(&negation, &negation).unwrap_err();
    assert_eq!(
        err.message(),
        format!("Unification error: {:?} and {:?} do not unify", negation, negation)
    );
}

#[test]
fn test_merge_composes_substitutions() {
    let mut first = SupSubstitution::empty();
    first.bind("X".to_string(), app("f", vec![var("Y")]));
    let mut second = SupSubstitution::empty();
    second.bind("Y".to_string(), app("a", vec![]));

    let t = app("g", vec![var("X"), var("Y")]);
    let in_turn = term_apply_substitution(&term_apply_substitution(&t, &first), &second);

    let mut merged = first.clone();
    merged.merge(&second);
    assert_eq!(merged.len(), 2);
    assert_eq!(merged.resolvent("X"), Some(&app("f", vec![app("a", vec![])])));
    assert_eq!(term_apply_substitution(&t, &merged), in_turn);
    assert_eq!(in_turn, app("g", vec![app("f", vec![app("a", vec![])]), app("a", vec![])]));
}

#[test]
fn test_term_helpers() {
    let t = app("f", vec![var("X"), app("g", vec![var("Y")])]);
    assert!(occurs_in("Y", &t));
    assert!(!occurs_in("Z", &t));
    assert_eq!(substitute_term(&t, "Y", &var("Z")), app("f", vec![var("X"), app("g", vec![var("Z")])]));
    assert!(sup_terms_equal(&t, &t.clone()));
    assert!(!sup_terms_equal(&t, &var("X")));
    assert_eq!(SupSubstitution::empty().resolvent("X"), None);
}
