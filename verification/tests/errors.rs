use lof::error::LofError;

#[test]
fn test_error_messages() {
    assert_eq!(LofError::unbound_variable("x").message(), "Unbound variable: x");
    assert_eq!(LofError::unbound_predicate("P").message(), "Unbound predicate: P");
    assert_eq!(
        LofError::type_mismatch("application", "Nat", "Bool").message(),
        "Type mismatch in application: expected Nat, found Bool"
    );
    assert_eq!(
        LofError::arity_mismatch("predicate P", 2, 13).message(),
        "Arity mismatch in predicate P: expected 2 argument(s), found 13"
    );
    assert_eq!(LofError::unification_failure("a", "b").message(), "Unification error: a and b do not unify");
    assert_eq!(
        LofError::reserved_keyword("fun").message(),
        "'fun' is a reserved keyword and cannot be used as an identifier"
    );
    assert_eq!(LofError::custom("anything").message(), "anything");
}

#[test]
fn test_parse_error_excerpt_is_cut_at_sixty_characters() {
    let short = LofError::parse_error("let x := y", "Tag");
    assert_eq!(short.message(), "Parse error (Tag) near: let x := y");

    let long_input: String = std::iter::repeat('a').take(70).collect();
    let long = LofError::parse_error(&long_input, "Tag");
    let expected_excerpt: String = std::iter::repeat('a').take(60).collect::<String>() + "…";
    assert_eq!(long.message(), format!("Parse error (Tag) near: {}", expected_excerpt));

    let exactly: String = std::iter::repeat('b').take(60).collect();
    assert_eq!(
        LofError::parse_error(&exactly, "Tag").message(),
        format!("Parse error (Tag) near: {}", exactly)
    );
}

#[test]
fn test_aggregate_joins_messages_by_line() {
    let errors = vec![LofError::custom("first"), LofError::unbound_variable("y"), LofError::custom("third")];
    let aggregate = LofError::aggregate(&errors);
    assert_eq!(aggregate.message(), "first\nUnbound variable: y\nthird");
    assert_eq!(LofError::aggregate(&vec![]).message(), "");
    assert_eq!(LofError::aggregate(&vec![LofError::custom("only")]).message(), "only");
}

#[test]
fn test_errors_compare_by_message() {
    assert_eq!(LofError::custom("Unbound variable: x"), LofError::unbound_variable("x"));
    assert_ne!(LofError::custom("a"), LofError::custom("b"));
}
