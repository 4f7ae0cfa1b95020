use lof::fol::fol::FolFormula::{Arrow, Conjunction, Predicate};
use lof::fol::fol::FolTerm;
use lof::fol::fol_utils::make_multiarg_app;
use lof::sup::sld::sld_solve;
use lof::error::LofError;
use lof::sup::sld_bench::{
    improves_on, outcome_of, parse_assumption, parse_expect, parse_goal, parse_problems, try_parse_assumption, try_parse_goal, try_parse_problems, Outcome,
};

#[test]
fn test_parse_fact_and_rule() {
    let fact = parse_assumption("parent(tom, bob)");
    assert_eq!(
        fact,
        Predicate(
            "parent".to_string(),
            vec![FolTerm::Variable("tom".to_string()), FolTerm::Variable("bob".to_string()),]
        )
    );

    let rule = parse_assumption("grandparent(x, z) :- parent(x, y), parent(y, z)");
    assert_eq!(
        rule,
        Arrow(
            Box::new(Conjunction(vec![
                Predicate(
                    "parent".to_string(),
                    vec![FolTerm::Variable("x".to_string()), FolTerm::Variable("y".to_string())]
                ),
                Predicate(
                    "parent".to_string(),
                    vec![FolTerm::Variable("y".to_string()), FolTerm::Variable("z".to_string())]
                ),
            ])),
            Box::new(Predicate(
                "grandparent".to_string(),
                vec![FolTerm::Variable("x".to_string()), FolTerm::Variable("z".to_string())]
            )),
        )
    );
}

#[test]
fn test_parse_nested_terms_and_goal_conjunction() {
    let goal = parse_goal("add(s(zero), x, r), add(r, x, w)");
    assert_eq!(
        goal,
        Conjunction(vec![
            Predicate(
                "add".to_string(),
                vec![
                    make_multiarg_app("s", &[FolTerm::Variable("zero".to_string())]),
                    FolTerm::Variable("x".to_string()),
                    FolTerm::Variable("r".to_string()),
                ]
            ),
            Predicate(
                "add".to_string(),
                vec![
                    FolTerm::Variable("r".to_string()),
                    FolTerm::Variable("x".to_string()),
                    FolTerm::Variable("w".to_string()),
                ]
            ),
        ])
    );
}

#[test]
fn test_parse_single_goal_is_the_atom_itself() {
    assert_eq!(
        parse_goal("  p(a)  "),
        Predicate("p".to_string(), vec![FolTerm::Variable("a".to_string())])
    );
    assert_eq!(parse_goal("q"), Predicate("q".to_string(), vec![]));
}

#[test]
fn test_parse_rejects_malformed_text() {
    assert_eq!(try_parse_assumption("p(a"), None, "missing closing parenthesis");
    assert_eq!(try_parse_assumption("p(a) q"), None, "trailing input after the fact");
    assert_eq!(try_parse_assumption("p :- "), None, "a rule needs a body");
    assert_eq!(try_parse_assumption(":- q"), None, "a rule needs a head");
    assert_eq!(try_parse_goal(""), None, "a goal needs an atom");
    assert_eq!(try_parse_goal("p(,)"), None, "an argument cannot be empty");
    assert_eq!(
        try_parse_assumption("p(x_1) :- q(x_1)"),
        Some(Arrow(
            Box::new(Conjunction(vec![Predicate(
                "q".to_string(),
                vec![FolTerm::Variable("x_1".to_string())]
            )])),
            Box::new(Predicate("p".to_string(), vec![FolTerm::Variable("x_1".to_string())])),
        ))
    );
}

#[test]
fn test_parse_expect_values() {
    assert!(parse_expect("proved"));
    assert!(!parse_expect("failed"));
}

#[test]
fn test_parse_problems_splits_blocks_and_collects_directives() {
    let content = "\
# a comment
name: p1
const: a b
assume: p(a)
goal: p(a)
---
name: p2
assume: q(x)
goal: q(y)
expect: failed
";
    let problems = parse_problems(content);
    assert_eq!(problems.len(), 2, "expected 2 problem blocks");
    assert_eq!(problems[0].name, "p1");
    assert_eq!(problems[0].constants, vec!["a".to_string(), "b".to_string()]);
    assert_eq!(problems[0].assumptions.len(), 1);
    assert_eq!(problems[0].goals.len(), 1);
    assert!(problems[0].expect_proved, "expect defaults to `proved` when omitted");
    assert_eq!(problems[1].name, "p2");
    assert!(problems[1].constants.is_empty());
    assert!(!problems[1].expect_proved);
}

#[test]
fn test_parse_problems_details() {
    // a new `name:` ends the previous block; constants are a set
    let content = "name: first\r\nconst: a a  b\nconst: b c\nname: second\n\n  # indented comment\ngoal: r(z)";
    let problems = parse_problems(content);
    assert_eq!(problems.len(), 2);
    assert_eq!(problems[0].constants, vec!["a".to_string(), "b".to_string(), "c".to_string()]);
    assert_eq!(problems[1].name, "second");
    assert_eq!(problems[1].goals, vec![Predicate("r".to_string(), vec![FolTerm::Variable("z".to_string())])]);

    assert!(try_parse_problems("").unwrap().is_empty());
    assert_eq!(try_parse_problems("const: a"), None, "`const:` before `name:`");
    assert_eq!(try_parse_problems("name: p\nwhat: ever"), None, "unknown directive");
    assert_eq!(try_parse_problems("name: p\nno colon here"), None, "malformed line");
    assert_eq!(try_parse_problems("name: p\nexpect: maybe"), None, "bad expectation");
    assert_eq!(try_parse_problems("name: p\nassume: p("), None, "bad assumption");
}

#[test]
fn test_problems_answered_by_sld() {
    let content = "\
name: peano_add
const: zero s
assume: add(zero, x, x)
assume: add(s(n), m, s(p)) :- add(n, m, p)
goal: add(s(s(zero)), s(zero), r)
---
name: peano_add_unsatisfiable
const: zero s
assume: add(zero, x, x)
assume: add(s(n), m, s(p)) :- add(n, m, p)
goal: add(s(zero), zero, zero)
expect: failed
";
    for problem in parse_problems(content) {
        let sld = sld_solve(&problem.assumptions, &problem.goals, &problem.constants);
        assert_eq!(sld.is_ok(), problem.expect_proved, "problem {:?}", problem.name);
    }
}

#[test]
fn outcomes_label_and_judge_runs() {
    assert_eq!(Outcome::Proved.label(), "proved");
    assert_eq!(Outcome::Failed.label(), "failed");
    assert_eq!(Outcome::TimedOut.label(), "timeout");
    assert!(Outcome::Proved.matches_expectation(true));
    assert!(!Outcome::Proved.matches_expectation(false));
    assert!(Outcome::Failed.matches_expectation(false));
    assert!(!Outcome::TimedOut.matches_expectation(true));
    assert!(!Outcome::TimedOut.matches_expectation(false));

    let ok: Result<u8, LofError> = Ok(1);
    let err: Result<u8, LofError> = Err(LofError::custom("no"));
    assert_eq!(outcome_of(&ok), Outcome::Proved);
    assert_eq!(outcome_of(&err), Outcome::Failed);

    assert!(improves_on(None, 10, Outcome::TimedOut));
    assert!(improves_on(Some((5, Outcome::TimedOut)), 10, Outcome::Failed));
    assert!(!improves_on(Some((50, Outcome::Proved)), 10, Outcome::TimedOut));
    assert!(!improves_on(Some((5, Outcome::TimedOut)), 1, Outcome::TimedOut));
    assert!(improves_on(Some((50, Outcome::Proved)), 10, Outcome::Failed));
    assert!(!improves_on(Some((5, Outcome::Proved)), 10, Outcome::Proved));
}

#[test]
fn unicode_white_space_separates_arguments() {
    let with_tab = parse_assumption("parent(\ttom,\u{a0}bob\u{3000})");
    assert_eq!(
        with_tab,
        Predicate(
            "parent".to_string(),
            vec![FolTerm::Variable("tom".to_string()), FolTerm::Variable("bob".to_string())]
        )
    );
}
