use lof::sup::saturation::{
    clause_variables, extract_answer, is_answer_literal, is_bottom, split_answer_literals, strip_answer_literals,
    with_answer_literal,
};
use lof::sup::sup::SupFormula::{self, Atom, Clause, Not};
use lof::sup::sup::SupTerm::{self, Application, Variable};

fn var(name: &str) -> SupTerm {
    Variable(name.to_string())
}
fn cst(name: &str) -> SupTerm {
    Application(name.to_string(), vec![])
}
fn atom(name: &str, args: Vec<SupTerm>) -> SupFormula {
    Atom(name.to_string(), args)
}

#[test]
fn test_answer_literal_recognition_and_split() {
    let answer = atom("$answer_0", vec![var("x")]);
    let body = Not(Box::new(atom("p", vec![var("x")])));
    assert!(is_answer_literal(&answer));
    assert!(!is_answer_literal(&body));
    assert!(!is_answer_literal(&atom("answer_0", vec![])));

    let clause = Clause(vec![body.clone(), answer.clone()]);
    assert_eq!(split_answer_literals(&clause), (vec![body.clone()], vec![answer.clone()]));
    assert_eq!(strip_answer_literals(&clause), Clause(vec![body.clone()]));
    // nothing to strip: the clause itself comes back
    assert_eq!(strip_answer_literals(&body), body);

    assert!(is_bottom(&Clause(vec![answer.clone()])));
    assert!(is_bottom(&Clause(vec![])));
    assert!(!is_bottom(&clause));
}

#[test]
fn test_clause_variables_in_order_of_first_occurrence() {
    let clause = Clause(vec![
        atom("p", vec![var("y"), Application("f".to_string(), vec![var("x"), var("y")])]),
        Not(Box::new(atom("q", vec![var("z"), var("x")]))),
    ]);
    assert_eq!(clause_variables(&clause), vec!["y".to_string(), "x".to_string(), "z".to_string()]);
    assert!(clause_variables(&atom("p", vec![cst("a")])).is_empty());
}

#[test]
fn test_with_answer_literal_records_the_variables() {
    let clause = atom("p", vec![var("x"), cst("a"), var("y")]);
    let (augmented, variables) = with_answer_literal(&clause, 12);
    assert_eq!(variables, vec!["x".to_string(), "y".to_string()]);
    assert_eq!(augmented, Clause(vec![clause.clone(), atom("$answer_12", vec![var("x"), var("y")])]));

    let ground = atom("p", vec![cst("a")]);
    assert_eq!(with_answer_literal(&ground, 0), (ground.clone(), vec![]));
}

#[test]
fn test_extract_answer_reads_consistent_bindings() {
    let origins = vec![vec!["X".to_string(), "Y".to_string()], vec!["X".to_string()]];
    let refutation = Clause(vec![
        atom("$answer_0", vec![cst("a"), cst("b")]),
        atom("$answer_1", vec![cst("a")]),
        atom("$answer_7", vec![cst("c")]),
        atom("p", vec![cst("d")]),
    ]);
    let answer = extract_answer(&refutation, &origins);
    assert_eq!(answer.resolvent("X"), Some(&cst("a")));
    assert_eq!(answer.resolvent("Y"), Some(&cst("b")));
    assert_eq!(answer.len(), 2);

    // X recorded with two different terms has no single answer
    let ambiguous = Clause(vec![atom("$answer_0", vec![cst("a"), cst("b")]), atom("$answer_1", vec![cst("c")])]);
    let answer = extract_answer(&ambiguous, &origins);
    assert_eq!(answer.resolvent("X"), None);
    assert_eq!(answer.resolvent("Y"), Some(&cst("b")));
}
