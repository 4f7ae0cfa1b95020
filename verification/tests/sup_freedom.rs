use lof::config::{GivingClause, SelectionFunction};
use lof::sup::freedom::{
    clause_weight, drop_maximal_literals, get_giving_clause_fn, get_selection_fn, pick_clause, pick_clause_weighted, Comparison,
};
use lof::sup::sup::SupFormula::{self, Atom, Clause, Equality, Not};
use lof::sup::sup::SupTerm::{Application, Variable};

fn p(args: usize) -> SupFormula {
    Atom("P".to_string(), (0..args).map(|i| Variable(format!("x{}", i))).collect())
}

#[test]
fn test_clause_weight_counts_symbols() {
    assert_eq!(clause_weight(&p(0)), 1);
    assert_eq!(clause_weight(&p(2)), 3);
    // ¬(f(a) = x): not, equality, f, a, x
    let eq = Not(Box::new(Equality(
        Application("f".to_string(), vec![Application("a".to_string(), vec![])]),
        Variable("x".to_string()),
    )));
    assert_eq!(clause_weight(&eq), 5);
    // a clause weighs the sum of its literals
    assert_eq!(clause_weight(&Clause(vec![p(1), eq.clone()])), 7);
    assert_eq!(clause_weight(&Clause(vec![])), 0);
}

#[test]
fn test_pick_clause_is_fifo() {
    let mut clauses = vec![p(3), p(0), p(1)];
    assert_eq!(pick_clause(&mut clauses), Ok(p(3)));
    assert_eq!(clauses, vec![p(0), p(1)]);
}

#[test]
fn test_pick_clause_weighted_takes_the_first_lightest() {
    let mut clauses = vec![p(3), p(1), p(2), p(1)];
    assert_eq!(pick_clause_weighted(&mut clauses), Ok(p(1)));
    assert_eq!(clauses, vec![p(3), p(2), p(1)]);

    let mut none: Vec<SupFormula> = vec![];
    assert_eq!(pick_clause_weighted(&mut none), Err("No clauses to pick".to_string()));
}

#[test]
fn test_giving_clause_fn_dispatches_on_strategy() {
    let mut clauses = vec![p(2), p(0)];
    assert_eq!(get_giving_clause_fn(GivingClause::Fifo).call(&mut clauses.clone()), Ok(p(2)));
    assert_eq!(get_giving_clause_fn(GivingClause::Weighted).call(&mut clauses), Ok(p(0)));
}

/// Orders literals by their weight.
fn by_weight(a: &SupFormula, b: &SupFormula) -> Comparison {
    let (x, y) = (clause_weight(a), clause_weight(b));
    if x < y {
        Comparison::Less
    } else if x == y {
        Comparison::Equal
    } else {
        Comparison::Greater
    }
}

#[test]
fn maximal_literals_are_taken_out_in_order() {
    let mut clause = vec![p(1), p(3), p(0), p(3), p(2)];
    let maxes = drop_maximal_literals(&mut clause, &by_weight);
    assert_eq!(maxes, vec![p(3), p(3)]);
    assert_eq!(clause, vec![p(1), p(0), p(2)]);

    let mut empty: Vec<SupFormula> = vec![];
    assert!(drop_maximal_literals(&mut empty, &by_weight).is_empty());
    assert!(empty.is_empty());
}

#[test]
fn selection_functions_dispatch_on_strategy() {
    let mut clause = vec![p(2), p(0)];
    let all = get_selection_fn(SelectionFunction::All).call(&mut clause, &by_weight);
    assert_eq!(all, vec![p(2), p(0)]);
    assert!(clause.is_empty());

    let mut clause = vec![p(2), p(0)];
    let maximal = get_selection_fn(SelectionFunction::Maximal).call(&mut clause, &by_weight);
    assert_eq!(maximal, vec![p(2)]);
    assert_eq!(clause, vec![p(0)]);
}
