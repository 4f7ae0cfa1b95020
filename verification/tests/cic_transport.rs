use lof::cic::environment::Environment;
use lof::cic::statements::Cic;
use lof::cic::term::CicTerm::{self, Abstraction, Application, Match, Product, Sort, Variable};
use lof::cic::term::{NameKind, PLACEHOLDER_DBI};
use lof::cic::transport::{replace_self_call, transport_definition, transport_term};
use lof::commons::transport::EquivConfig;
use lof::error::LofError;

fn global(name: &str) -> CicTerm {
    Variable(name.to_string(), NameKind::Const())
}

fn app(f: CicTerm, a: CicTerm) -> CicTerm {
    Application(Box::new(f), Box::new(a))
}

fn apps(f: CicTerm, args: Vec<CicTerm>) -> CicTerm {
    args.into_iter().fold(f, app)
}

/// Two unary inductive types: `A` with constructors `az`/`as_`, and `B`,
/// whose constructor images are `bz` and the smart successor `bs`.
fn test_env() -> Environment {
    let mut env = Cic::default_environment();
    env.add_to_context("A", &Sort("TYPE".to_string()));
    env.add_to_context("B", &Sort("TYPE".to_string()));
    env.add_constructor_store(
        "A",
        vec![
            ("az".to_string(), global("A")),
            ("as_".to_string(), Product("_".to_string(), Box::new(global("A")), Box::new(global("A")))),
        ],
    );
    env
}

fn test_config() -> EquivConfig {
    EquivConfig {
        name: "AB".to_string(),
        type_a: "A".to_string(),
        type_b: "B".to_string(),
        forward: global("a_to_b"),
        backward: global("b_to_a"),
        section: global("section_ab"),
        retraction: global("retraction_ab"),
        dep_constr: vec![("az".to_string(), global("bz")), ("as_".to_string(), global("bs"))],
        dep_elim: global("b_induction"),
        eta: Some(Abstraction(
            "x".to_string(),
            Box::new(global("B")),
            Box::new(Variable("x".to_string(), NameKind::Bound(0))),
        )),
        iota: vec![],
        lifted_names: vec![],
    }
}

fn message(r: Result<CicTerm, LofError>) -> String {
    match r {
        Err(e) => e.message(),
        Ok(t) => panic!("expected an error, got {:?}", t),
    }
}

#[test]
fn test_transport_type_variable() {
    let mut env = test_env();
    let config = test_config();

    assert_eq!(
        transport_term(&mut env, &config, &global("A")).unwrap(),
        global("B"),
        "a bare occurrence of type_a should be rewritten to type_b"
    );
}

#[test]
fn test_transport_bare_constructor_uses_dep_constr() {
    let mut env = test_env();
    let config = test_config();

    assert_eq!(
        transport_term(&mut env, &config, &global("az")).unwrap(),
        global("bz"),
        "a bare 0-ary constructor should be rewritten to its dep_constr image"
    );
}

#[test]
fn test_transport_application_rewrites_constructor_head_and_args() {
    let mut env = test_env();
    let config = test_config();

    // as_(az) -> should become bs(bz)
    let term = app(global("as_"), global("az"));
    let expected = app(global("bs"), global("bz"));

    assert_eq!(
        transport_term(&mut env, &config, &term).unwrap(),
        expected,
        "an application of a constructor should rewrite both the head (via dep_constr) and recursively transport its arguments"
    );
}

#[test]
fn test_transport_product_retypes_binder_and_recurses_into_body() {
    let mut env = test_env();
    let config = test_config();

    // forall n:A. az  ~>  forall n:B. bz
    let term = Product("n".to_string(), Box::new(global("A")), Box::new(global("az")));
    let expected = Product("n".to_string(), Box::new(global("B")), Box::new(global("bz")));

    assert_eq!(
        transport_term(&mut env, &config, &term).unwrap(),
        expected,
        "Product should rewrite its domain type and recursively transport its body"
    );
}

#[test]
fn test_transport_eliminator_application_uses_dep_elim() {
    let mut env = test_env();
    let config = test_config();

    // e_A(motive, c0) -> b_induction(transported_motive, c0)
    let motive = global("A");
    let term = app(app(global("e_A"), motive.clone()), global("c0"));

    let result = transport_term(&mut env, &config, &term).unwrap();
    let expected = app(app(global("b_induction"), global("B")), global("c0"));

    assert_eq!(
        result, expected,
        "an application of e_<type_a> should swap the head for dep_elim and still transport its arguments (here the motive A -> B)"
    );
}

#[test]
fn test_transport_lifted_name_is_substituted() {
    let mut env = test_env();
    let mut config = test_config();
    config.lifted_names.push(("old_fun".to_string(), "new_fun".to_string()));

    let term = app(global("old_fun"), global("az"));
    let expected = app(global("new_fun"), global("bz"));

    assert_eq!(
        transport_term(&mut env, &config, &term).unwrap(),
        expected,
        "a call to an already-lifted auxiliary function should be rewritten to its new name"
    );

    // an unrelated, un-lifted name should pass through untouched
    let unrelated = global("unrelated_fun");
    assert_eq!(
        transport_term(&mut env, &config, &unrelated).unwrap(),
        unrelated,
        "a name that isn't a constructor, isn't lifted, and isn't type_a should pass through unchanged"
    );
}

#[test]
fn test_transport_missing_dep_constr_entry_is_an_error() {
    let mut env = test_env();
    let mut config = test_config();
    config.dep_constr.retain(|(name, _)| name != "az");

    assert!(
        transport_term(&mut env, &config, &global("az")).is_err(),
        "transporting a constructor with no registered dep_constr entry must fail, not silently pass the old constructor through"
    );
}

#[test]
fn test_transport_raw_match_over_type_a_is_rejected() {
    let mut env = test_env();
    let config = test_config();

    let term = Match(
        Box::new(Variable("n".to_string(), NameKind::Bound(0))),
        vec![
            (global("az"), global("az")),
            (app(global("as_"), global("nn")), global("nn")),
        ],
    );
    env.with_local_assumption("n", &global("A"), |local_env| {
        assert!(
            transport_term(&local_env, &config, &term).is_err(),
            "a raw `match` whose scrutinee has type_a must be rejected - this engine only rewrites explicit e_<type_a> applications, not surface `match`"
        );
        (local_env, ())
    });
}

#[test]
fn test_premises_are_left_alone_when_no_iota_entry_is_declared() {
    // an equivalence that declares no iota entry transports as usual
    let mut env = test_env();
    let config = test_config();
    assert!(config.iota.is_empty());

    let term = apps(global("e_A"), vec![global("motive"), global("az"), global("step")]);
    let transported = transport_term(&mut env, &config, &term);

    assert!(
        transported.is_ok(),
        "an equivalence with no iota entries must transport exactly as before: {:?}",
        transported.err()
    );
}

#[test]
fn transport_error_messages() {
    let env = test_env();
    let mut config = test_config();
    config.dep_constr.retain(|(name, _)| name != "az");
    assert_eq!(
        message(transport_term(&env, &config, &global("az"))),
        "transport: equivalence 'AB' has no dep_constr entry for constructor 'az' of 'A'"
    );

    let config = test_config();
    let mut env = test_env();
    env.add_to_context("n", &global("A"));
    let term = Match(Box::new(global("n")), vec![(global("az"), global("az"))]);
    assert_eq!(
        message(transport_term(&env, &config, &term)),
        "transport: equivalence 'AB' cannot transport a raw `match` over 'A' - rewrite the source proof/function to use e_A explicitly instead"
    );
}

#[test]
fn transport_asks_the_type_checker_about_other_scrutinees() {
    let env = test_env();
    let config = test_config();
    let scrutinee = app(global("pred"), global("az"));
    let term = Match(Box::new(scrutinee), vec![(global("az"), global("az"))]);

    // `pred` is unknown: the scrutinee has no type, so it is not over `A`
    let expected = Match(Box::new(app(global("pred"), global("bz"))), vec![(global("bz"), global("bz"))]);
    assert_eq!(transport_term(&env, &config, &term).unwrap(), expected);

    // once `pred : A -> A` is assumed, the scrutinee has type `A` and the raw match is refused
    let mut typed_env = test_env();
    typed_env.add_to_context("pred", &Product("_".to_string(), Box::new(global("A")), Box::new(global("A"))));
    typed_env.add_to_context("az", &global("A"));
    assert!(transport_term(&typed_env, &config, &term).is_err());
}

#[test]
fn transport_keeps_sorts_lets_and_abstractions_in_shape() {
    let env = test_env();
    let config = test_config();
    let term = CicTerm::Let(
        "x".to_string(),
        Box::new(Some(global("A"))),
        Box::new(global("az")),
        Box::new(Abstraction(
            "y".to_string(),
            Box::new(global("A")),
            Box::new(Sort("PROP".to_string())),
        )),
    );
    let expected = CicTerm::Let(
        "x".to_string(),
        Box::new(Some(global("B"))),
        Box::new(global("bz")),
        Box::new(Abstraction(
            "y".to_string(),
            Box::new(global("B")),
            Box::new(Sort("PROP".to_string())),
        )),
    );
    assert_eq!(transport_term(&env, &config, &term).unwrap(), expected);
}

#[test]
fn replace_self_call_replaces_recursive_calls_only() {
    let call = apps(global("plus"), vec![global("nn"), global("m")]);
    let other = apps(global("plus"), vec![global("k"), global("m")]);
    let term = app(global("as_"), apps(global("pair"), vec![call, other.clone()]));
    let ih = Variable("ih_nn".to_string(), NameKind::Bound(PLACEHOLDER_DBI));
    assert_eq!(
        replace_self_call(&term, "plus", "nn", "ih_nn"),
        app(global("as_"), apps(global("pair"), vec![ih, other])),
    );
}

/// λn:A. λm:A. match n with az => m | as_(nn) => as_(plus(nn, m))
fn plus_definition() -> CicTerm {
    let body = Match(
        Box::new(Variable("n".to_string(), NameKind::Bound(1))),
        vec![
            (global("az"), Variable("m".to_string(), NameKind::Bound(0))),
            (
                app(global("as_"), Variable("nn".to_string(), NameKind::Bound(0))),
                app(
                    global("as_"),
                    apps(
                        global("plus"),
                        vec![
                            Variable("nn".to_string(), NameKind::Bound(0)),
                            Variable("m".to_string(), NameKind::Bound(1)),
                        ],
                    ),
                ),
            ),
        ],
    );
    Abstraction(
        "n".to_string(),
        Box::new(global("A")),
        Box::new(Abstraction("m".to_string(), Box::new(global("A")), Box::new(body))),
    )
}

fn plus_type() -> CicTerm {
    Product(
        "n".to_string(),
        Box::new(global("B")),
        Box::new(Product("m".to_string(), Box::new(global("B")), Box::new(global("B")))),
    )
}

#[test]
fn transport_definition_turns_structural_recursion_into_dep_elim() {
    let env = test_env();
    let config = test_config();
    let result = transport_definition(&env, &config, "plus", &plus_type(), &plus_definition()).unwrap();

    let motive = Abstraction("_transported_scrutinee".to_string(), Box::new(global("B")), Box::new(global("B")));
    let ih = Variable("ih_nn".to_string(), NameKind::Bound(PLACEHOLDER_DBI));
    let step = Abstraction(
        "nn".to_string(),
        Box::new(global("B")),
        Box::new(Abstraction("ih_nn".to_string(), Box::new(global("B")), Box::new(app(global("bs"), ih)))),
    );
    let elim = apps(
        global("b_induction"),
        vec![
            motive,
            Variable("m".to_string(), NameKind::Bound(0)),
            step,
            Variable("n".to_string(), NameKind::Bound(1)),
        ],
    );
    let expected = Abstraction(
        "n".to_string(),
        Box::new(global("B")),
        Box::new(Abstraction("m".to_string(), Box::new(global("B")), Box::new(elim))),
    );
    assert_eq!(result, expected);
}

#[test]
fn transport_definition_errors() {
    let env = test_env();
    let config = test_config();
    // a branch is missing for `as_`
    let partial = Abstraction(
        "n".to_string(),
        Box::new(global("A")),
        Box::new(Match(
            Box::new(Variable("n".to_string(), NameKind::Bound(0))),
            vec![(global("az"), global("az"))],
        )),
    );
    assert_eq!(
        message(transport_definition(&env, &config, "f", &global("B"), &partial)),
        "transport: fun 'f' has no branch for constructor 'as_'"
    );

    // the source type has no declared constructors
    let mut bare = test_config();
    bare.type_a = "Z".to_string();
    let over_z = Abstraction(
        "n".to_string(),
        Box::new(global("Z")),
        Box::new(Match(Box::new(Variable("n".to_string(), NameKind::Bound(0))), vec![])),
    );
    assert_eq!(
        message(transport_definition(&env, &bare, "f", &global("B"), &over_z)),
        "transport: no registered constructors for 'Z'"
    );

    // a body without recursion is transported as a term
    assert_eq!(
        transport_definition(&env, &config, "f", &global("B"), &global("az")).unwrap(),
        global("bz")
    );
}

#[test]
fn transport_keeps_a_term_without_trace_of_the_source_type() {
    let env = test_env();
    let config = test_config();
    let term = Abstraction(
        "x".to_string(),
        Box::new(global("C")),
        Box::new(apps(global("f"), vec![Variable("x".to_string(), NameKind::Bound(0)), global("y")])),
    );
    assert_eq!(transport_term(&env, &config, &term).unwrap(), term);
}
