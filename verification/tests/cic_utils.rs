use lof::cic::elaboration::index_variables;
use lof::cic::term::CicTerm::{self, Abstraction, Application, Match, Product, Sort, Variable};
use lof::cic::term::{NameKind, PLACEHOLDER_DBI};
use lof::cic::utils::{
    application_args, apply_arguments, close_term, get_applied_function, get_arg_types, make_multiarg_fun_type, mark_as_constant,
    open_term, references, substitute, substitute_and_lift, swap_proof_hole,
};

fn placeholder(name: &str) -> CicTerm {
    Variable(name.to_string(), NameKind::Bound(PLACEHOLDER_DBI))
}
fn free(name: &str) -> CicTerm {
    Variable(name.to_string(), NameKind::Const())
}
fn bound(name: &str, dbi: i32) -> CicTerm {
    Variable(name.to_string(), NameKind::Bound(dbi))
}

#[test]
fn test_open_close_roundtrip_on_a_telescope_body() {
    let body = Product(
        "t".to_string(),
        Box::new(Variable("T".to_string(), NameKind::Bound(1))),
        Box::new(Product(
            "_".to_string(),
            Box::new(Application(
                Box::new(Variable("P".to_string(), NameKind::Bound(1))),
                Box::new(Variable("t".to_string(), NameKind::Bound(0))),
            )),
            Box::new(Application(
                Box::new(Variable("T".to_string(), NameKind::Bound(3))),
                Box::new(Variable("P".to_string(), NameKind::Bound(2))),
            )),
        )),
    );

    let opened = open_term(&open_term(&body, "P"), "T");
    let expected_opened = Product(
        "t".to_string(),
        Box::new(Variable("T".to_string(), NameKind::Local())),
        Box::new(Product(
            "_".to_string(),
            Box::new(Application(
                Box::new(Variable("P".to_string(), NameKind::Local())),
                Box::new(Variable("t".to_string(), NameKind::Bound(0))),
            )),
            Box::new(Application(
                Box::new(Variable("T".to_string(), NameKind::Local())),
                Box::new(Variable("P".to_string(), NameKind::Local())),
            )),
        )),
    );
    assert_eq!(
        opened, expected_opened,
        "open must turn every reference to a telescope binder into a depth invariant Local"
    );

    assert_eq!(
        close_term(&close_term(&opened, "T"), "P"),
        body,
        "close must be the inverse of open"
    );
}

#[test]
fn test_swap_proof_hole_preserves_abstraction_shape() {
    let nat = Variable("Nat".to_string(), NameKind::Const());
    let hole = Sort("THIS_IS_A_PARTIAL_PROOF_HOLE".to_string());
    let outer_abstraction = Abstraction("n".to_string(), Box::new(nat.clone()), Box::new(hole.clone()));

    assert_eq!(
        swap_proof_hole(&outer_abstraction, &nat),
        Abstraction("n".to_string(), Box::new(nat.clone()), Box::new(nat.clone())),
        "swap_proof_hole must rebuild a single Abstraction as an Abstraction"
    );

    let inner_abstraction = Abstraction("m".to_string(), Box::new(nat.clone()), Box::new(hole.clone()));
    let nested = Abstraction("n".to_string(), Box::new(nat.clone()), Box::new(inner_abstraction.clone()));

    assert_eq!(
        swap_proof_hole(&nested, &nat),
        Abstraction(
            "n".to_string(),
            Box::new(nat.clone()),
            Box::new(Abstraction("m".to_string(), Box::new(nat.clone()), Box::new(nat.clone()))),
        ),
        "swap_proof_hole must preserve Abstraction shape through nested expressions"
    );
}

#[test]
fn test_index_variables() {
    assert_eq!(
        index_variables(&Variable("x".to_string(), NameKind::Bound(PLACEHOLDER_DBI))),
        Variable("x".to_string(), NameKind::Const()),
        "Variable indexer doesnt use the global index properly"
    );

    assert_eq!(
        index_variables(&Abstraction(
            "y".to_string(),
            Box::new(Sort("TYPE".to_string())),
            Box::new(Variable("y".to_string(), NameKind::Bound(PLACEHOLDER_DBI))),
        )),
        Abstraction(
            "y".to_string(),
            Box::new(Sort("TYPE".to_string())),
            Box::new(Variable("y".to_string(), NameKind::Bound(0))),
        ),
        "Abstraction indexing not working"
    );

    assert_eq!(
        index_variables(&Abstraction(
            "a".to_string(),
            Box::new(Variable("Unit".to_string(), NameKind::Bound(PLACEHOLDER_DBI))),
            Box::new(Abstraction(
                "b".to_string(),
                Box::new(Sort("TYPE".to_string())),
                Box::new(Variable("b".to_string(), NameKind::Bound(PLACEHOLDER_DBI))),
            )),
        )),
        Abstraction(
            "a".to_string(),
            Box::new(Variable("Unit".to_string(), NameKind::Const())),
            Box::new(Abstraction(
                "b".to_string(),
                Box::new(Sort("TYPE".to_string())),
                Box::new(Variable("b".to_string(), NameKind::Bound(0))),
            )),
        )
    );
}

#[test]
fn test_index_variables_binds_match_pattern_arguments() {
    let term = Match(
        Box::new(placeholder("t")),
        vec![
            (placeholder("o"), Application(Box::new(placeholder("s")), Box::new(placeholder("o")))),
            (Application(Box::new(placeholder("s")), Box::new(placeholder("n"))), placeholder("n")),
        ],
    );

    assert_eq!(
        index_variables(&term),
        Match(
            Box::new(free("t")),
            vec![
                (free("o"), Application(Box::new(free("s")), Box::new(free("o")))),
                (Application(Box::new(free("s")), Box::new(bound("n", 0))), bound("n", 0)),
            ],
        ),
        "match pattern arguments must be indexed as binders of their branch"
    );
}

#[test]
fn test_index_variables_binds_nested_match_pattern_arguments() {
    let pattern = Application(
        Box::new(Application(Box::new(placeholder("cons")), Box::new(placeholder("h")))),
        Box::new(Application(
            Box::new(Application(Box::new(placeholder("cons")), Box::new(placeholder("h2")))),
            Box::new(placeholder("ll")),
        )),
    );
    let term = Match(Box::new(placeholder("t")), vec![(pattern, placeholder("h"))]);

    assert_eq!(
        index_variables(&term),
        Match(
            Box::new(free("t")),
            vec![(
                Application(
                    Box::new(Application(Box::new(free("cons")), Box::new(bound("h", 2)))),
                    Box::new(Application(
                        Box::new(Application(Box::new(free("cons")), Box::new(bound("h2", 1)))),
                        Box::new(bound("ll", 0)),
                    )),
                ),
                bound("h", 2),
            )],
        ),
        "nested pattern arguments must all bind, outermost getting the highest index"
    );
}

#[test]
fn test_index_variables_match_binders_shadow_and_stack_on_outer_scope() {
    let pattern = Application(
        Box::new(Application(
            Box::new(Application(Box::new(placeholder("cons")), Box::new(placeholder("T")))),
            Box::new(placeholder("h")),
        )),
        Box::new(placeholder("ll")),
    );
    let term = Abstraction(
        "T".to_string(),
        Box::new(Sort("TYPE".to_string())),
        Box::new(Abstraction(
            "l".to_string(),
            Box::new(placeholder("T")),
            Box::new(Match(Box::new(placeholder("l")), vec![(pattern, placeholder("T"))])),
        )),
    );

    let indexed = index_variables(&term);
    let branch_body = match &indexed {
        Abstraction(_, _, outer_body) => match &**outer_body {
            Abstraction(_, _, inner_body) => match &**inner_body {
                Match(_, branches) => branches[0].1.clone(),
                other => panic!("expected a Match, got {:?}", other),
            },
            other => panic!("expected an Abstraction, got {:?}", other),
        },
        other => panic!("expected an Abstraction, got {:?}", other),
    };

    assert_eq!(branch_body, bound("T", 2), "a pattern binder must shadow an outer binder of the same name");
}

#[test]
fn a_local_name_is_left_alone_by_indexing() {
    let local = Variable("x".to_string(), NameKind::Local());
    let term = Abstraction("x".to_string(), Box::new(Sort("TYPE".to_string())), Box::new(local.clone()));
    assert_eq!(
        index_variables(&term),
        Abstraction("x".to_string(), Box::new(Sort("TYPE".to_string())), Box::new(local))
    );
}

#[test]
fn substitute_rewrites_a_name_whatever_its_kind() {
    assert_eq!(substitute(&free("n"), "n", &free("z")), free("z"));
    assert_eq!(substitute(&bound("y", 1), "x", &Sort("TYPE".to_string())), bound("y", 1));
    let term = Application(Box::new(bound("x", 0)), Box::new(bound("y", 3)));
    assert_eq!(substitute(&term, "x", &free("a")), Application(Box::new(free("a")), Box::new(bound("y", 3))));
}

#[test]
fn substitute_and_lift_lowers_indices_past_the_binder() {
    let term = Application(Box::new(bound("x", 0)), Box::new(bound("y", 1)));
    assert_eq!(substitute_and_lift(&term, "x", &free("a")), Application(Box::new(free("a")), Box::new(bound("y", 0))));
}

#[test]
fn mark_as_constant_keeps_other_indices() {
    let term = Application(Box::new(Variable("x".to_string(), NameKind::Local())), Box::new(bound("y", 2)));
    assert_eq!(mark_as_constant(term, "x"), Application(Box::new(free("x")), Box::new(bound("y", 2))));
}

#[test]
fn references_looks_inside_let_and_match() {
    let term = CicTerm::Let("y".to_string(), Box::new(None), Box::new(free("x")), Box::new(bound("y", 0)));
    assert!(references(&term, "x"));
    assert!(!references(&term, "z"));
    let m = Match(Box::new(free("n")), vec![(free("O"), free("w"))]);
    assert!(references(&m, "w"));
    assert!(references(&m, "O"));
    assert!(!references(&m, "q"));
}

#[test]
fn argument_types_come_back_from_a_multiargument_function_type() {
    let args = vec![
        ("x".to_string(), Sort("TYPE".to_string())),
        ("y".to_string(), free("nat")),
    ];
    let base = Product("z".to_string(), Box::new(free("A")), Box::new(free("B")));
    let fun_type = make_multiarg_fun_type(&args, &base);
    assert_eq!(get_arg_types(&fun_type), vec![Sort("TYPE".to_string()), free("nat"), free("A")]);
}

#[test]
fn an_application_taken_apart_gives_back_function_and_arguments() {
    let applied = apply_arguments(&free("f"), vec![free("a"), free("b")]);
    assert_eq!(application_args(&applied), vec![free("a"), free("b")]);
    assert_eq!(get_applied_function(&applied), free("f"));
}

#[test]
fn indexing_twice_is_indexing_once() {
    let term = Abstraction(
        "x".to_string(),
        Box::new(placeholder("T")),
        Box::new(Application(Box::new(placeholder("x")), Box::new(placeholder("y")))),
    );
    let once = index_variables(&term);
    assert_eq!(index_variables(&once), once);
}

#[test]
fn substituting_a_local_of_the_name_opens_the_binder() {
    let body = Abstraction(
        "w".to_string(),
        Box::new(bound("x", 0)),
        Box::new(Application(Box::new(bound("x", 1)), Box::new(bound("w", 0)))),
    );
    let local = Variable("x".to_string(), NameKind::Local());
    assert_eq!(substitute_and_lift(&body, "x", &local), open_term(&body, "x"));
    assert_eq!(close_term(&open_term(&body, "x"), "x"), body);
}
