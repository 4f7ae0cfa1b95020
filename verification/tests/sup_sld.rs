use lof::error::LofError;
use lof::fol::fol::FolFormula::{self, Arrow, Conjunction, Disjunction, Predicate};
use lof::fol::fol::FolTerm::{self, Variable as FolVar};
use lof::fol::fol_utils::make_multiarg_app;
use lof::sup::sld::{
    preprocess_assumptions, preprocess_goals, sld_prove_all, sld_prove_first, sld_solve, sld_solve_all,
    to_horn_clause, HornClause,
};
use lof::sup::sup::SupFormula::{self, Atom, Clause, Equality, Not};
use lof::sup::sup::SupTerm::{self, Application};

//########################### TEST HELPERS
fn v(name: &str) -> FolTerm {
    FolVar(name.to_string())
}
fn c(name: &str, args: &[FolTerm]) -> FolTerm {
    make_multiarg_app(name, args)
}
fn p(name: &str, args: &[FolTerm]) -> FolFormula {
    Predicate(name.to_string(), args.to_vec())
}
/// A fact is just its head, a rule is `head :- body1,...,bodyN`
fn rule(head: FolFormula, body: Vec<FolFormula>) -> FolFormula {
    if body.is_empty() {
        head
    } else {
        Arrow(Box::new(Conjunction(body)), Box::new(head))
    }
}
fn constants(names: &[&str]) -> Vec<String> {
    names.iter().map(|s| s.to_string()).collect()
}
fn atom(name: &str) -> SupTerm {
    Application(name.to_string(), vec![])
}
//########################### TEST HELPERS

#[test]
fn test_to_horn_clause_accepts_facts_and_rules() {
    let p = SupFormula::Atom("p".to_string(), vec![]);
    let q = SupFormula::Atom("q".to_string(), vec![]);

    let fact = to_horn_clause(&p).expect("a bare atom is a valid (fact) Horn clause");
    assert_eq!(fact.head, p);
    assert!(fact.body.is_empty());

    let rule_clause = Clause(vec![p.clone(), Not(Box::new(q.clone()))]);
    let rule = to_horn_clause(&rule_clause).expect("one positive + one negative literal is a valid Horn clause");
    assert_eq!(rule.head, p);
    assert_eq!(rule.body, vec![q]);
}

#[test]
fn test_to_horn_clause_rejects_non_horn_and_headless_clauses() {
    let p = SupFormula::Atom("p".to_string(), vec![]);
    let q = SupFormula::Atom("q".to_string(), vec![]);

    let two_positive = Clause(vec![p.clone(), q.clone()]);
    assert!(to_horn_clause(&two_positive).is_err(), "a clause with 2 positive literals isn't a Horn clause");

    let headless = Clause(vec![Not(Box::new(p.clone())), Not(Box::new(q.clone()))]);
    assert!(
        to_horn_clause(&headless).is_err(),
        "SLD program clauses need exactly one positive literal (a head)"
    );

    let with_equality = Equality(SupTerm::Variable("x".to_string()), SupTerm::Variable("y".to_string()));
    assert!(
        to_horn_clause(&with_equality).is_err(),
        "equality literals aren't supported by this SLD implementation"
    );
}

#[test]
fn test_preprocess_assumptions_rejects_non_horn_formula() {
    let x = v("x");
    let not_horn = Disjunction(vec![p("P", &[x.clone()]), p("Q", &[x])]);

    assert!(
        preprocess_assumptions(&vec![not_horn], &Vec::new()).is_err(),
        "a disjunction of two positive predicates isn't a Horn clause and should be rejected"
    );
}

#[test]
fn test_preprocess_goals_rejects_non_atomic_goal() {
    let goal = FolFormula::Not(Box::new(p("P", &[v("x")])));

    assert!(
        preprocess_goals(&vec![goal], &Vec::new()).is_err(),
        "SLD goals must be plain atoms; a negated goal should be rejected"
    );
}

#[test]
fn test_sld_backtracks_across_failing_facts() {
    // likes(mary, wine).
    // likes(mary, cheese).
    // ?- likes(mary, cheese).
    let assumptions = vec![
        rule(p("likes", &[c("mary", &[]), c("wine", &[])]), vec![]),
        rule(p("likes", &[c("mary", &[]), c("cheese", &[])]), vec![]),
    ];
    let goals = vec![p("likes", &[c("mary", &[]), c("cheese", &[])])];
    let constants = constants(&["mary", "wine", "cheese"]);

    assert!(
        sld_solve(&assumptions, &goals, &constants).is_ok(),
        "SLD should backtrack past the first non-unifying fact and succeed on the second"
    );
}

#[test]
fn test_sld_solves_for_free_variable() {
    // parent(tom, bob).
    // ?- parent(tom, X).
    let assumptions = vec![rule(p("parent", &[c("tom", &[]), c("bob", &[])]), vec![])];
    let goals = vec![p("parent", &[c("tom", &[]), v("X")])];
    let constants = constants(&["tom", "bob"]);

    let solution = sld_solve(&assumptions, &goals, &constants)
        .expect("parent(tom,bob) should let SLD solve parent(tom,X) with X=bob");
    assert_eq!(solution.resolvent("X"), Some(&atom("bob")));
}

#[test]
fn test_sld_solve_fails_when_goal_isnt_entailed() {
    // likes(john, wine).
    // ?- likes(mary, X).
    let assumptions = vec![rule(p("likes", &[c("john", &[]), c("wine", &[])]), vec![])];
    let goals = vec![p("likes", &[c("mary", &[]), v("X")])];
    let constants = constants(&["john", "mary", "wine"]);

    assert!(
        sld_solve(&assumptions, &goals, &constants).is_err(),
        "SLD shouldn't find a proof for a goal that isn't entailed by the assumptions"
    );
}

#[test]
fn test_sld_recursive_rule_arithmetic() {
    // add(zero, x, x).
    // add(s(n), m, s(p)) :- add(n, m, p).
    // ?- add(s(s(zero)), s(zero), R).
    let zero = || c("zero", &[]);
    let s = |t: FolTerm| c("s", &[t]);

    let assumptions = vec![
        rule(p("add", &[zero(), v("x"), v("x")]), vec![]),
        rule(p("add", &[s(v("n")), v("m"), s(v("p"))]), vec![p("add", &[v("n"), v("m"), v("p")])]),
    ];
    let goals = vec![p("add", &[s(s(zero())), s(zero()), v("R")])];
    let constants = constants(&["zero", "s"]);

    let solution =
        sld_solve(&assumptions, &goals, &constants).expect("SLD should derive 2+1=3 from the Peano add rules");

    let three = Application(
        "s".to_string(),
        vec![Application("s".to_string(), vec![Application("s".to_string(), vec![atom("zero")])])],
    );
    assert_eq!(solution.resolvent("R"), Some(&three));
}

#[test]
fn test_sld_finds_all_solutions_via_backtracking() {
    // member(x, cons(x, rest)).
    // member(x, cons(first, rest)) :- member(x, rest).
    // ?- member(X, cons(a, cons(b, cons(c, nil)))).
    let nil = || c("nil", &[]);
    let cons = |h: FolTerm, t: FolTerm| c("cons", &[h, t]);

    let list = cons(c("a", &[]), cons(c("b", &[]), cons(c("c", &[]), nil())));

    let assumptions = vec![
        rule(p("member", &[v("x"), cons(v("x"), v("rest"))]), vec![]),
        rule(
            p("member", &[v("x"), cons(v("first"), v("rest"))]),
            vec![p("member", &[v("x"), v("rest")])],
        ),
    ];
    let goals = vec![p("member", &[v("X"), list])];
    let constants = constants(&["a", "b", "c", "nil", "cons"]);

    let solutions = sld_solve_all(&assumptions, &goals, &constants)
        .expect("preprocessing should succeed for a valid Horn program");

    let found: Vec<_> = solutions.iter().map(|subst| subst.resolvent("X").cloned()).collect();
    assert_eq!(
        found,
        vec![Some(atom("a")), Some(atom("b")), Some(atom("c"))],
        "SLD should backtrack through both member clauses to enumerate every list element"
    );
}

#[test]
fn test_to_horn_clause_error_messages_name_the_clause() {
    let p = Atom("p".to_string(), vec![]);
    let q = Atom("q".to_string(), vec![]);

    let two_positive = Clause(vec![p.clone(), q.clone()]);
    let message = to_horn_clause(&two_positive).unwrap_err().message();
    assert_eq!(
        message,
        format!("clause {:?} is not a Horn clause: it has more than one positive literal", two_positive)
    );

    let headless = Not(Box::new(p.clone()));
    let message = to_horn_clause(&headless).unwrap_err().message();
    assert_eq!(
        message,
        format!(
            "clause {:?} has no positive literal: SLD program clauses must be definite (headed) Horn clauses",
            headless
        )
    );

    let double_negation = Clause(vec![p.clone(), Not(Box::new(Not(Box::new(q.clone()))))]);
    let message = to_horn_clause(&double_negation).unwrap_err().message();
    assert_eq!(
        message,
        format!(
            "SLD only supports negated atoms as body literals, found ¬{:?} in clause {:?}",
            Not(Box::new(q.clone())),
            double_negation
        )
    );
}

#[test]
fn test_preprocess_goals_names_a_goal_with_a_body() {
    // ?- (q -> p): clausified to the Horn clause p :- q, which has a body
    let goal = Arrow(Box::new(p("q", &[])), Box::new(p("p", &[])));
    let err = preprocess_goals(&vec![goal], &Vec::new()).unwrap_err();
    let clause = Clause(vec![
        Not(Box::new(Atom("q".to_string(), vec![]))),
        Atom("p".to_string(), vec![]),
    ]);
    assert_eq!(
        err.message(),
        format!("goal {:?} isn't a plain atomic subgoal: SLD goals must be atoms", clause)
    );
}

#[test]
fn test_sld_solve_reports_failure_message() {
    let assumptions = vec![rule(p("p", &[c("a", &[])]), vec![])];
    let goals = vec![p("p", &[c("b", &[])])];
    let err = sld_solve(&assumptions, &goals, &constants(&["a", "b"])).unwrap_err();
    assert!(matches!(err, LofError::Other(_)));
    assert_eq!(
        err.message(),
        "SLD resolution failed: couldn't derive the goal(s) from the given assumptions"
    );
}

#[test]
fn test_sld_prove_first_and_all_on_a_program() {
    let p_of = |name: &str| Atom("p".to_string(), vec![atom(name)]);
    let program = vec![
        HornClause { head: p_of("a"), body: vec![] },
        HornClause { head: p_of("b"), body: vec![] },
    ];
    let goals = vec![Atom("p".to_string(), vec![SupTerm::Variable("Y".to_string())])];

    let first = sld_prove_first(&program, &goals).expect("p(a) answers p(Y)");
    assert_eq!(first.resolvent("Y"), Some(&atom("a")));

    let all = sld_prove_all(&program, &goals);
    let found: Vec<_> = all.iter().map(|s| s.resolvent("Y").cloned()).collect();
    assert_eq!(found, vec![Some(atom("a")), Some(atom("b"))]);

    // no goal at all: one (empty) answer
    let trivial = sld_prove_first(&program, &vec![]).expect("the empty query is solved at once");
    assert_eq!(trivial.len(), 0);
}

#[test]
fn test_sld_rule_with_variable_chain() {
    // grandparent(x, z) :- parent(x, y), parent(y, z).
    let assumptions = vec![
        rule(p("parent", &[c("tom", &[]), c("bob", &[])]), vec![]),
        rule(p("parent", &[c("bob", &[]), c("ann", &[])]), vec![]),
        rule(
            p("grandparent", &[v("x"), v("z")]),
            vec![p("parent", &[v("x"), v("y")]), p("parent", &[v("y"), v("z")])],
        ),
    ];
    let goals = vec![p("grandparent", &[c("tom", &[]), v("W")])];
    let solution = sld_solve(&assumptions, &goals, &constants(&["tom", "bob", "ann"])).expect("tom's grandchild");
    assert_eq!(solution.resolvent("W"), Some(&atom("ann")));
}
