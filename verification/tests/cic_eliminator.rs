use lof::cic::eliminator::inductive_eliminator;
use lof::cic::render::render_term;
use lof::cic::term::CicTerm::{self, Application, Match, Meta, Product, Sort, Variable};
use lof::cic::term::{NameKind, PLACEHOLDER_DBI};

fn placeholder(name: &str) -> CicTerm {
    Variable(name.to_string(), NameKind::Bound(PLACEHOLDER_DBI))
}
fn global(name: &str) -> CicTerm {
    Variable(name.to_string(), NameKind::Const())
}
fn bound(name: &str, index: i32) -> CicTerm {
    Variable(name.to_string(), NameKind::Bound(index))
}
fn prod(name: &str, domain: CicTerm, codomain: CicTerm) -> CicTerm {
    Product(name.to_string(), Box::new(domain), Box::new(codomain))
}
fn app(f: CicTerm, a: CicTerm) -> CicTerm {
    Application(Box::new(f), Box::new(a))
}

#[test]
fn test_nat_eliminator() {
    let nat = placeholder("Nat");
    let elim = inductive_eliminator(
        "Nat".to_string(),
        vec![],
        Sort("TYPE".to_string()),
        vec![
            ("z".to_string(), nat.clone()),
            ("s".to_string(), prod("_", nat.clone(), nat.clone())),
        ],
    );
    // Π er_Nat: (Π instance: Nat. TYPE).
    //   Π c_0: er_Nat z.
    //   Π c_1: (Π r_0: Nat. Π ih_0: er_Nat r_0. er_Nat (s r_0)).
    //   Π t: Nat. er_Nat t
    let expected = prod(
        "er_Nat",
        prod("instance", global("Nat"), Sort("TYPE".to_string())),
        prod(
            "c_0",
            app(bound("er_Nat", 0), global("z")),
            prod(
                "c_1",
                prod(
                    "r_0",
                    global("Nat"),
                    prod(
                        "ih_0",
                        app(bound("er_Nat", 2), bound("r_0", 0)),
                        app(bound("er_Nat", 3), app(global("s"), bound("r_0", 1))),
                    ),
                ),
                prod("t", global("Nat"), app(bound("er_Nat", 3), bound("t", 0))),
            ),
        ),
    );
    assert_eq!(elim, expected);
}

#[test]
fn test_render_term() {
    let nat = placeholder("Nat");
    let elim = inductive_eliminator(
        "Nat".to_string(),
        vec![],
        Sort("TYPE".to_string()),
        vec![("z".to_string(), nat.clone()), ("s".to_string(), prod("_", nat.clone(), nat.clone()))],
    );
    assert_eq!(
        render_term(&elim),
        "Πer_Nat:Πinstance:Nat|G. TYPE. Πc_0:(er_Nat|0 z|G). Πc_1:Πr_0:Nat|G. Πih_0:(er_Nat|2 r_0|0). \
         (er_Nat|3 (s|G r_0|1)). Πt:Nat|G. (er_Nat|3 t|0)"
    );
    assert_eq!(render_term(&Meta(7)), "?[7]");
    assert_eq!(render_term(&placeholder("x")), "x|P");
    assert_eq!(render_term(&Variable("y".to_string(), NameKind::Local())), "y|L");
    assert_eq!(
        render_term(&Match(Box::new(global("n")), vec![(global("z"), global("z")), (global("s"), bound("m", 0))])),
        "match n|G { \t[z|G] => z|G,\n\t[s|G] => m|0,\n}"
    );
}
