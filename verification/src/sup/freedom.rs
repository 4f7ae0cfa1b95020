//! The given-clause strategies and the literal selection of the saturation
//! prover.

use vstd::prelude::*;
use crate::config::{GivingClause, SelectionFunction};
use crate::sup::sup::{
    copy_sup_formula, copy_sup_formulas, lemma_application_view, lemma_clause_view, view_sup_formulas, view_sup_terms, SForm, STerm, SupFormula, SupTerm};

verus! {

//########################### WEIGHTS

/// The number of symbols of a term: one per variable and per application.
pub open spec fn spec_term_weight(t: STerm) -> nat
    decreases t,
{
    match t {
        STerm::Var(_) => 1,
        STerm::App(_, args) => 1 + spec_terms_weight(args),
    }
}

/// The summed weight of `ts`.
pub open spec fn spec_terms_weight(ts: Seq<STerm>) -> nat
    decreases ts,
{
    if ts.len() == 0 {
        0
    } else {
        spec_terms_weight(ts.subrange(0, ts.len() - 1)) + spec_term_weight(ts[ts.len() - 1])
    }
}

/// The number of symbols of a formula; a clause weighs the sum of its
/// literals.
pub open spec fn spec_formula_weight(f: SForm) -> nat
    decreases f,
{
    match f {
        SForm::Atom(_, args) => 1 + spec_terms_weight(args),
        SForm::Eq(l, r) => 1 + spec_term_weight(l) + spec_term_weight(r),
        SForm::Not(g) => 1 + spec_formula_weight(*g),
        SForm::Clause(lits) => spec_formulas_weight(lits),
        SForm::ForAll(_, ty, body) => 1 + spec_formula_weight(*ty) + spec_formula_weight(*body),
    }
}

/// The summed weight of `fs`.
pub open spec fn spec_formulas_weight(fs: Seq<SForm>) -> nat
    decreases fs,
{
    if fs.len() == 0 {
        0
    } else {
        spec_formulas_weight(fs.subrange(0, fs.len() - 1)) + spec_formula_weight(fs[fs.len() - 1])
    }
}

proof fn lemma_terms_weight_prefix(ts: Seq<STerm>, i: int)
    requires
        0 <= i < ts.len(),
    ensures
        spec_terms_weight(ts.subrange(0, i + 1)) == spec_terms_weight(ts.subrange(0, i)) + spec_term_weight(ts[i]),
        spec_terms_weight(ts.subrange(0, i + 1)) <= spec_terms_weight(ts),
    decreases ts.len() - i,
{
    let pre = ts.subrange(0, i + 1);
    assert(pre.subrange(0, pre.len() - 1) =~= ts.subrange(0, i));
    if i + 1 < ts.len() {
        lemma_terms_weight_prefix(ts, i + 1);
    } else {
        assert(pre =~= ts);
    }
}

proof fn lemma_formulas_weight_prefix(fs: Seq<SForm>, i: int)
    requires
        0 <= i < fs.len(),
    ensures
        spec_formulas_weight(fs.subrange(0, i + 1)) == spec_formulas_weight(fs.subrange(0, i)) + spec_formula_weight(
            fs[i],
        ),
        spec_formulas_weight(fs.subrange(0, i + 1)) <= spec_formulas_weight(fs),
    decreases fs.len() - i,
{
    let pre = fs.subrange(0, i + 1);
    assert(pre.subrange(0, pre.len() - 1) =~= fs.subrange(0, i));
    if i + 1 < fs.len() {
        lemma_formulas_weight_prefix(fs, i + 1);
    } else {
        assert(pre =~= fs);
    }
}

fn term_weight(t: &SupTerm) -> (r: usize)
    requires
        spec_term_weight(t@) <= usize::MAX,
    ensures
        r == spec_term_weight(t@),
    decreases t,
{
    match t {
        SupTerm::Variable(_) => 1,
        SupTerm::Application(f, args) => {
            proof {
                lemma_application_view(*f, *args);
            }
            let ghost vargs = view_sup_terms(args@);
            let mut sum: usize = 0;
            let mut i: usize = 0;
            assert(vargs.subrange(0, 0) =~= Seq::<STerm>::empty());
            while i < args.len()
                invariant
                    i <= args@.len(),
                    *t == SupTerm::Application(*f, *args),
                    vargs == view_sup_terms(args@),
                    1 + spec_terms_weight(vargs) <= usize::MAX,
                    sum == spec_terms_weight(vargs.subrange(0, i as int)),
                decreases args@.len() - i,
            {
                proof {
                    assert(decreases_to!(*t => (*t)->Application_1));
                    assert(decreases_to!(*args => args@));
                    assert(decreases_to!(args@ => args@[i as int]));
                    lemma_terms_weight_prefix(vargs, i as int);
                    assert(vargs[i as int] == args@[i as int]@);
                }
                let w = term_weight(&args[i]);
                sum = sum + w;
                i = i + 1;
            }
            proof {
                assert(vargs.subrange(0, args@.len() as int) =~= vargs);
            }
            1 + sum
        },
    }
}

fn terms_weight(ts: &Vec<SupTerm>) -> (r: usize)
    requires
        spec_terms_weight(view_sup_terms(ts@)) <= usize::MAX,
    ensures
        r == spec_terms_weight(view_sup_terms(ts@)),
{
    let ghost vts = view_sup_terms(ts@);
    let mut sum: usize = 0;
    let mut i: usize = 0;
    assert(vts.subrange(0, 0) =~= Seq::<STerm>::empty());
    while i < ts.len()
        invariant
            i <= ts@.len(),
            vts == view_sup_terms(ts@),
            spec_terms_weight(vts) <= usize::MAX,
            sum == spec_terms_weight(vts.subrange(0, i as int)),
        decreases ts@.len() - i,
    {
        proof {
            lemma_terms_weight_prefix(vts, i as int);
            assert(vts[i as int] == ts@[i as int]@);
        }
        let w = term_weight(&ts[i]);
        sum = sum + w;
        i = i + 1;
    }
    proof {
        assert(vts.subrange(0, ts@.len() as int) =~= vts);
    }
    sum
}

fn formula_weight(f: &SupFormula) -> (r: usize)
    requires
        spec_formula_weight(f@) <= usize::MAX,
    ensures
        r == spec_formula_weight(f@),
    decreases f,
{
    match f {
        SupFormula::Atom(_, args) => 1 + terms_weight(args),
        SupFormula::Equality(l, r) => 1 + term_weight(l) + term_weight(r),
        SupFormula::Not(g) => 1 + formula_weight(g),
        SupFormula::Clause(lits) => {
            proof {
                lemma_clause_view(*lits);
            }
            let ghost vl = view_sup_formulas(lits@);
            let mut sum: usize = 0;
            let mut i: usize = 0;
            assert(vl.subrange(0, 0) =~= Seq::<SForm>::empty());
            while i < lits.len()
                invariant
                    i <= lits@.len(),
                    *f == SupFormula::Clause(*lits),
                    vl == view_sup_formulas(lits@),
                    spec_formulas_weight(vl) <= usize::MAX,
                    sum == spec_formulas_weight(vl.subrange(0, i as int)),
                decreases lits@.len() - i,
            {
                proof {
                    assert(decreases_to!(*f => (*f)->Clause_0));
                    assert(decreases_to!(*lits => lits@));
                    assert(decreases_to!(lits@ => lits@[i as int]));
                    lemma_formulas_weight_prefix(vl, i as int);
                    assert(vl[i as int] == lits@[i as int]@);
                }
                let w = formula_weight(&lits[i]);
                sum = sum + w;
                i = i + 1;
            }
            proof {
                assert(vl.subrange(0, lits@.len() as int) =~= vl);
            }
            sum
        },
        SupFormula::ForAll(_, ty, body) => 1 + formula_weight(ty) + formula_weight(body),
    }
}

/// The weight of a clause: the number of symbols in it (see
/// [`spec_formula_weight`]).
pub fn clause_weight(clause: &SupFormula) -> (r: usize)
    requires
        spec_formula_weight(clause@) <= usize::MAX,
    ensures
        r == spec_formula_weight(clause@),
{
    formula_weight(clause)
}

//########################### GIVEN-CLAUSE STRATEGIES

/// What [`pick_clause_weighted`] answers an empty set of clauses.
pub const NO_CLAUSES: &'static str = "No clauses to pick";

/// The first clause was picked: it is `picked`, and the others stay in
/// order.
pub open spec fn picked_first(before: Seq<SupFormula>, after: Seq<SupFormula>, picked: SupFormula) -> bool {
    &&& before.len() > 0
    &&& picked@ == before[0]@
    &&& view_sup_formulas(after) == view_sup_formulas(before).drop_first()
}

/// The first of the lightest clauses was picked: it is `picked`, and the
/// others stay in order.
pub open spec fn picked_lightest(before: Seq<SupFormula>, after: Seq<SupFormula>, picked: SupFormula) -> bool {
    exists|k: int|
        0 <= k < before.len() && #[trigger] before[k] == picked
            && (forall|j: int| 0 <= j < before.len() ==> spec_formula_weight(picked@) <= spec_formula_weight(before[j]@))
            && (forall|j: int| 0 <= j < k ==> spec_formula_weight(before[j]@) > spec_formula_weight(picked@))
            && after == before.remove(k)
}

/// Every clause of `clauses` has a weight that fits in a `usize`.
pub open spec fn weights_fit(clauses: Seq<SupFormula>) -> bool {
    forall|j: int| 0 <= j < clauses.len() ==> spec_formula_weight(#[trigger] clauses[j]@) <= usize::MAX
}

/// Picks the next clause first in, first out.
pub fn pick_clause(clauses: &mut Vec<SupFormula>) -> (r: Result<SupFormula, String>)
    requires
        old(clauses)@.len() > 0,
    ensures
        r matches Ok(c) && picked_first(old(clauses)@, final(clauses)@, c),
{
    let ghost before = clauses@;
    let c = clauses.remove(0);
    proof {
        assert(view_sup_formulas(clauses@) =~= view_sup_formulas(before).drop_first());
    }
    Ok(c)
}

/// Picks the lightest clause, the first of them when several weigh the
/// same; an error when there is none.
pub fn pick_clause_weighted(clauses: &mut Vec<SupFormula>) -> (r: Result<SupFormula, String>)
    requires
        weights_fit(old(clauses)@),
    ensures
        old(clauses)@.len() == 0 ==> (r matches Err(e) && e@ == NO_CLAUSES@ && final(clauses)@ == old(clauses)@),
        old(clauses)@.len() > 0 ==> (r matches Ok(c) && picked_lightest(old(clauses)@, final(clauses)@, c)),
{
    if clauses.len() == 0 {
        return Err(String::from_str(NO_CLAUSES));
    }
    let mut best: usize = 0;
    let mut best_weight = clause_weight(&clauses[0]);
    let mut i: usize = 1;
    while i < clauses.len()
        invariant
            1 <= i <= clauses@.len(),
            *clauses == *old(clauses),
            weights_fit(clauses@),
            best < i,
            best_weight == spec_formula_weight(clauses@[best as int]@),
            forall|j: int| 0 <= j < i ==> best_weight <= spec_formula_weight(#[trigger] clauses@[j]@),
            forall|j: int| 0 <= j < best ==> spec_formula_weight(#[trigger] clauses@[j]@) > best_weight,
        decreases clauses@.len() - i,
    {
        let w = clause_weight(&clauses[i]);
        if w < best_weight {
            best = i;
            best_weight = w;
        }
        i = i + 1;
    }
    let ghost before = clauses@;
    let c = clauses.remove(best);
    proof {
        assert(before[best as int] == c);
    }
    Ok(c)
}

/// A given-clause strategy, ready to be applied.
pub struct GivingClauseFn {
    pub strategy: GivingClause,
}

/// The strategy to pick given clauses with.
pub fn get_giving_clause_fn(strategy: GivingClause) -> (r: GivingClauseFn)
    ensures
        r.strategy == strategy,
{
    GivingClauseFn { strategy }
}

impl GivingClauseFn {
    /// Picks the next given clause from `clauses`: first in, first out, or
    /// the lightest one.
    pub fn call(&self, clauses: &mut Vec<SupFormula>) -> (r: Result<SupFormula, String>)
        requires
            self.strategy == GivingClause::Fifo ==> old(clauses)@.len() > 0,
            self.strategy == GivingClause::Weighted ==> weights_fit(old(clauses)@),
        ensures
            self.strategy == GivingClause::Fifo ==> (r matches Ok(c) && picked_first(
                old(clauses)@,
                final(clauses)@,
                c,
            )),
            self.strategy == GivingClause::Weighted && old(clauses)@.len() == 0 ==> (r matches Err(e) && e@
                == NO_CLAUSES@ && final(clauses)@ == old(clauses)@),
            self.strategy == GivingClause::Weighted && old(clauses)@.len() > 0 ==> (r matches Ok(c) && picked_lightest(
                old(clauses)@,
                final(clauses)@,
                c,
            )),
    {
        match self.strategy {
            GivingClause::Fifo => pick_clause(clauses),
            GivingClause::Weighted => pick_clause_weighted(clauses),
        }
    }
}

//########################### LITERAL SELECTION

/// How two literals compare in the simplification ordering of the calculus.
#[derive(Debug, Clone, Copy, PartialEq, Eq, Structural)]
pub enum Comparison {
    Less,
    Equal,
    Greater,
}

/// `compare` behaves as the ordering `order` on the models of literals.
pub open spec fn compare_agrees<F: Fn(&SupFormula, &SupFormula) -> Comparison>(
    compare: F,
    order: spec_fn(SForm, SForm) -> Comparison,
) -> bool {
    forall|a: &SupFormula, b: &SupFormula, r: Comparison| #[trigger] call_ensures(compare, (a, b), r) ==> r == order(a@, b@)
}

/// The maximal literal among the first `n` of `clause`: the first one, or a
/// later one greater than the maximal literal before it.
pub open spec fn spec_maximal(clause: Seq<SForm>, order: spec_fn(SForm, SForm) -> Comparison, n: nat) -> SForm
    decreases n,
{
    if n <= 1 {
        clause[0]
    } else {
        let m = spec_maximal(clause, order, (n - 1) as nat);
        if order(clause[n - 1], m) == Comparison::Greater {
            clause[n - 1]
        } else {
            m
        }
    }
}

/// The literals among the first `n` of `clause` that compare equal to `m`
/// (`equal`) or not (`!equal`), in order.
pub open spec fn spec_split_by(
    clause: Seq<SForm>,
    order: spec_fn(SForm, SForm) -> Comparison,
    m: SForm,
    equal: bool,
    n: nat,
) -> Seq<SForm>
    decreases n,
{
    if n == 0 {
        Seq::empty()
    } else {
        let prev = spec_split_by(clause, order, m, equal, (n - 1) as nat);
        if (order(clause[n - 1], m) == Comparison::Equal) == equal {
            prev.push(clause[n - 1])
        } else {
            prev
        }
    }
}

/// Takes the maximal literals out of `clause` (those equal, in the
/// simplification ordering `compare`, to its maximal literal) and returns
/// them in order; `clause` keeps the others, in order.
pub fn drop_maximal_literals<F: Fn(&SupFormula, &SupFormula) -> Comparison>(
    clause: &mut Vec<SupFormula>,
    compare: &F,
) -> (r: Vec<SupFormula>)
    requires
        forall|a: &SupFormula, b: &SupFormula| call_requires(*compare, (a, b)),
    ensures
        old(clause)@.len() == 0 ==> r@.len() == 0 && final(clause)@ == old(clause)@,
        forall|order: spec_fn(SForm, SForm) -> Comparison|
            compare_agrees(*compare, order) && old(clause)@.len() > 0 ==> {
                let c = view_sup_formulas(old(clause)@);
                let m = spec_maximal(c, order, c.len());
                &&& view_sup_formulas(r@) == spec_split_by(c, order, m, true, c.len())
                &&& view_sup_formulas(final(clause)@) == spec_split_by(c, order, m, false, c.len())
            },
{
    if clause.len() == 0 {
        return Vec::new();
    }
    let ghost c = view_sup_formulas(clause@);
    let mut best: usize = 0;
    let mut i: usize = 1;
    while i < clause.len()
        invariant
            1 <= i <= clause@.len(),
            best < clause@.len(),
            c == view_sup_formulas(clause@),
            forall|a: &SupFormula, b: &SupFormula| call_requires(*compare, (a, b)),
            forall|order: spec_fn(SForm, SForm) -> Comparison|
                compare_agrees(*compare, order) ==> spec_maximal(c, order, i as nat) == c[best as int],
        decreases clause@.len() - i,
    {
        let verdict = compare(&clause[i], &clause[best]);
        proof {
            assert forall|order: spec_fn(SForm, SForm) -> Comparison| compare_agrees(*compare, order) implies spec_maximal(
                c,
                order,
                (i + 1) as nat,
            ) == c[(if verdict == Comparison::Greater {
                i
            } else {
                best
            }) as int] by {
                assert(call_ensures(*compare, (&clause[i as int], &clause[best as int]), verdict));
                assert(c[i as int] == clause@[i as int]@);
                assert(c[best as int] == clause@[best as int]@);
            }
        }
        if verdict == Comparison::Greater {
            best = i;
        }
        i = i + 1;
    }
    let maximal = copy_sup_formula(&clause[best]);
    proof {
        assert(maximal@ == c[best as int]);
    }
    let mut maxes: Vec<SupFormula> = Vec::new();
    let mut rest: Vec<SupFormula> = Vec::new();
    let mut j: usize = 0;
    proof {
        assert(view_sup_formulas(maxes@) =~= Seq::<SForm>::empty());
        assert(view_sup_formulas(rest@) =~= Seq::<SForm>::empty());
    }
    while j < clause.len()
        invariant
            j <= clause@.len(),
            c == view_sup_formulas(clause@),
            c.len() > 0,
            forall|a: &SupFormula, b: &SupFormula| call_requires(*compare, (a, b)),
            forall|order: spec_fn(SForm, SForm) -> Comparison|
                compare_agrees(*compare, order) ==> spec_maximal(c, order, c.len()) == maximal@,
            forall|order: spec_fn(SForm, SForm) -> Comparison|
                compare_agrees(*compare, order) ==> {
                    &&& view_sup_formulas(maxes@) == spec_split_by(c, order, maximal@, true, j as nat)
                    &&& view_sup_formulas(rest@) == spec_split_by(c, order, maximal@, false, j as nat)
                },
        decreases clause@.len() - j,
    {
        let verdict = compare(&clause[j], &maximal);
        let lit = copy_sup_formula(&clause[j]);
        let ghost old_maxes = maxes@;
        let ghost old_rest = rest@;
        if verdict == Comparison::Equal {
            maxes.push(lit);
        } else {
            rest.push(lit);
        }
        proof {
            assert(c[j as int] == clause@[j as int]@);
            assert(view_sup_formulas(old_maxes.push(lit)) =~= view_sup_formulas(old_maxes).push(lit@));
            assert(view_sup_formulas(old_rest.push(lit)) =~= view_sup_formulas(old_rest).push(lit@));
            assert forall|order: spec_fn(SForm, SForm) -> Comparison| compare_agrees(*compare, order) implies {
                &&& view_sup_formulas(maxes@) == spec_split_by(c, order, maximal@, true, (j + 1) as nat)
                &&& view_sup_formulas(rest@) == spec_split_by(c, order, maximal@, false, (j + 1) as nat)
            } by {
                assert(call_ensures(*compare, (&clause[j as int], &maximal), verdict));
            }
        }
        j = j + 1;
    }
    *clause = rest;
    maxes
}

/// A literal selection strategy, ready to be applied.
pub struct SelectionFn {
    pub strategy: SelectionFunction,
}

/// The strategy to select literals with.
pub fn get_selection_fn(selection_fn: SelectionFunction) -> (r: SelectionFn)
    ensures
        r.strategy == selection_fn,
{
    SelectionFn { strategy: selection_fn }
}

impl SelectionFn {
    /// Selects literals of `clause`, taking them out of it: its maximal
    /// literals in the ordering `compare` (see [`drop_maximal_literals`]),
    /// or all of them.
    pub fn call<F: Fn(&SupFormula, &SupFormula) -> Comparison>(
        &self,
        clause: &mut Vec<SupFormula>,
        compare: &F,
    ) -> (r: Vec<SupFormula>)
        requires
            forall|a: &SupFormula, b: &SupFormula| call_requires(*compare, (a, b)),
        ensures
            self.strategy == SelectionFunction::All ==> view_sup_formulas(r@) == view_sup_formulas(old(clause)@)
                && final(clause)@.len() == 0,
            self.strategy == SelectionFunction::Maximal && old(clause)@.len() == 0 ==> r@.len() == 0
                && final(clause)@ == old(clause)@,
            self.strategy == SelectionFunction::Maximal ==> forall|order: spec_fn(SForm, SForm) -> Comparison|
                compare_agrees(*compare, order) && old(clause)@.len() > 0 ==> {
                    let c = view_sup_formulas(old(clause)@);
                    let m = spec_maximal(c, order, c.len());
                    &&& view_sup_formulas(r@) == spec_split_by(c, order, m, true, c.len())
                    &&& view_sup_formulas(final(clause)@) == spec_split_by(c, order, m, false, c.len())
                },
    {
        match self.strategy {
            SelectionFunction::Maximal => drop_maximal_literals(clause, compare),
            SelectionFunction::All => {
                let selected = copy_sup_formulas(clause);
                *clause = Vec::new();
                selected
            },
        }
    }
}

} // verus!
