use lof::cic::environment::Environment;
use lof::cic::statements::Cic;
use lof::cic::elaboration::index_variables;
use lof::cic::evaluation::{evaluate_inductive, matches_pattern, substitute_pattern_variables, try_iota_reduction};
use lof::cic::utils::make_multiarg_fun_type;
use lof::cic::term::CicTerm::{self, Application, Product, Sort, Variable};
use lof::cic::term::NameKind;

fn global(name: &str) -> CicTerm {
    Variable(name.to_string(), NameKind::Const())
}
fn app(f: CicTerm, a: CicTerm) -> CicTerm {
    Application(Box::new(f), Box::new(a))
}
fn apps(f: CicTerm, args: Vec<CicTerm>) -> CicTerm {
    args.into_iter().fold(f, app)
}

fn nat_environment() -> Environment {
    let nat = global("Nat");
    let mut env = Cic::default_environment();
    env.add_to_inductive_store(
        "Nat",
        vec![
            ("z".to_string(), nat.clone()),
            ("s".to_string(), Product("_".to_string(), Box::new(nat.clone()), Box::new(nat.clone()))),
        ],
        0,
    );
    env
}

#[test]
fn test_check_pattern_matching() {
    let zero = Variable("z".to_string(), NameKind::Const());
    let succ = Variable("s".to_string(), NameKind::Const());

    assert!(matches_pattern(&zero, &zero), "Pattern matching refutes identical constants");
    assert!(!matches_pattern(&zero, &succ), "Pattern matching accepts different constants");
    assert!(
        matches_pattern(
            &Application(Box::new(succ.clone()), Box::new(zero.clone())),
            &Application(
                Box::new(succ.clone()),
                Box::new(Variable("renamed_argument".to_string(), NameKind::Bound(0))),
            )
        ),
        "Pattern matching refutes application with renamed argument"
    );
    assert!(
        !matches_pattern(
            &Application(
                Box::new(Application(
                    Box::new(Variable("cons".to_string(), NameKind::Const())),
                    Box::new(zero.clone()),
                )),
                Box::new(Variable("l".to_string(), NameKind::Const()))
            ),
            &Application(Box::new(Variable("cons".to_string(), NameKind::Const())), Box::new(zero),)
        ),
        "Pattern matching accepts only partial pattern"
    );
}

#[test]
fn test_substitute_pattern_variables_binds_constructor_arguments() {
    // match s z with s n => n
    let term = app(global("s"), global("z"));
    let pattern = app(global("s"), Variable("n".to_string(), NameKind::Bound(0)));
    let body = Variable("n".to_string(), NameKind::Bound(0));
    assert_eq!(substitute_pattern_variables(&term, &pattern, &body), global("z"));

    // a pattern that binds nothing leaves the body untouched
    assert_eq!(substitute_pattern_variables(&global("z"), &global("z"), &body), body);
}

#[test]
fn test_iota_reduction_of_the_nat_eliminator() {
    let env = nat_environment();
    let (motive, case_z, case_s) = (global("P"), global("cz"), global("cs"));
    let fixed = vec![motive.clone(), case_z.clone(), case_s.clone()];

    // e_Nat P cz cs z ~> cz
    let on_zero = apps(global("e_Nat"), [fixed.clone(), vec![global("z")]].concat());
    assert_eq!(try_iota_reduction(&env, &on_zero), Some(case_z.clone()));

    // e_Nat P cz cs (s z) ~> cs z (e_Nat P cz cs z)
    let on_succ = apps(global("e_Nat"), [fixed.clone(), vec![app(global("s"), global("z"))]].concat());
    let hypothesis = apps(global("e_Nat"), [fixed.clone(), vec![global("z")]].concat());
    assert_eq!(try_iota_reduction(&env, &on_succ), Some(app(app(case_s.clone(), global("z")), hypothesis)));
}

#[test]
fn test_iota_reduction_is_stuck_otherwise() {
    let env = nat_environment();
    let fixed = vec![global("P"), global("cz"), global("cs")];
    // partial application
    assert_eq!(try_iota_reduction(&env, &apps(global("e_Nat"), fixed.clone())), None);
    // the instance is no constructor application
    let on_var = apps(global("e_Nat"), [fixed.clone(), vec![Variable("m".to_string(), NameKind::Bound(0))]].concat());
    assert_eq!(try_iota_reduction(&env, &on_var), None);
    // unknown inductive type
    let unknown = apps(global("e_List"), [fixed.clone(), vec![global("z")]].concat());
    assert_eq!(try_iota_reduction(&env, &unknown), None);
    // not an eliminator
    assert_eq!(try_iota_reduction(&env, &Sort("TYPE".to_string())), None);
}

#[test]
fn test_environment_inductive_store() {
    let env = nat_environment();
    assert_eq!(env.get_inductive_param_count("Nat"), Some(0));
    assert_eq!(env.get_inductive_param_count("List"), None);
    let signatures = env.get_constructor_signatures("Nat").unwrap();
    assert_eq!(signatures.len(), 2);
    assert_eq!(signatures[0].0, "z");
    assert!(env.get_constructor_signatures("List").is_none());
}

#[test]
fn evaluating_an_inductive_declares_type_constructors_and_eliminator() {
    let mut env = Cic::default_environment();
    let nat = global("Nat");
    let constructors = vec![
        ("z".to_string(), nat.clone()),
        ("s".to_string(), Product("_".to_string(), Box::new(nat.clone()), Box::new(nat.clone()))),
    ];
    let ariety = Sort("TYPE".to_string());
    assert!(evaluate_inductive(&mut env, "Nat", &vec![], &ariety, &constructors).is_ok());

    assert_eq!(env.get_variable_type("Nat"), Some(index_variables(&make_multiarg_fun_type(&[], &ariety))));
    assert_eq!(env.get_variable_type("z"), Some(index_variables(&nat)));
    assert!(env.get_variable_type("e_Nat").is_some());
    assert_eq!(env.get_constructors_for("Nat"), Some(vec!["z".to_string(), "s".to_string()]));
    assert_eq!(env.get_inductive_param_count("Nat"), Some(0));
    assert_eq!(env.constructor_type_of("s"), Some("Nat".to_string()));

    // the eliminator now computes on constructors
    let term = apps(global("e_Nat"), vec![global("P"), global("base"), global("step"), global("z")]);
    assert_eq!(try_iota_reduction(&env, &term), Some(global("base")));
}
