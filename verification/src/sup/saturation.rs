//! Answer tracking of the saturation prover (Green's answer literals): each
//! input clause carries a bookkeeping literal over its own variables, so
//! that every substitution applied to the clause is applied to the recorded
//! answer too, renaming included.

use vstd::prelude::*;
use crate::sup::sup::{
    copy_sup_formula, copy_sup_term, lemma_application_view, lemma_clause_view, spec_unpack_literals,
    unpack_literals, view_sup_formulas, view_sup_terms, SForm, STerm, SupFormula, SupTerm,
};
use crate::sup::unification::{sup_terms_equal, Bindings, SupSubstitution};
use crate::text::{concat, decimal_u64, parse_usize, spec_decimal, spec_parse_usize, spec_starts_with, starts_with, str_eq};

verus! {

//########################### ANSWER LITERALS

/// Predicate name prefix of the literals that carry the answer substitution
/// through a derivation.
pub const ANSWER_PREFIX: &'static str = "$answer_";

/// An answer literal: an atom whose predicate starts with [`ANSWER_PREFIX`].
pub open spec fn spec_is_answer_literal(f: SForm) -> bool {
    match f {
        SForm::Atom(name, _) => spec_starts_with(name, ANSWER_PREFIX@),
        _ => false,
    }
}

/// The literals of `lits` that are no answer literals, in order.
pub open spec fn spec_body_literals(lits: Seq<SForm>) -> Seq<SForm>
    decreases lits.len(),
{
    if lits.len() == 0 {
        Seq::empty()
    } else if spec_is_answer_literal(lits.last()) {
        spec_body_literals(lits.drop_last())
    } else {
        spec_body_literals(lits.drop_last()).push(lits.last())
    }
}

/// The answer literals of `lits`, in order.
pub open spec fn spec_answer_literals(lits: Seq<SForm>) -> Seq<SForm>
    decreases lits.len(),
{
    if lits.len() == 0 {
        Seq::empty()
    } else if spec_is_answer_literal(lits.last()) {
        spec_answer_literals(lits.drop_last()).push(lits.last())
    } else {
        spec_answer_literals(lits.drop_last())
    }
}

/// Whether `literal` is an answer literal.
pub fn is_answer_literal(literal: &SupFormula) -> (r: bool)
    ensures
        r == spec_is_answer_literal(literal@),
{
    match literal {
        SupFormula::Atom(name, _) => starts_with(name.as_str(), ANSWER_PREFIX),
        _ => false,
    }
}

/// Splits the literals of `clause` into its ordinary ones and its answer
/// literals, each in order.
pub fn split_answer_literals(clause: &SupFormula) -> (r: (Vec<SupFormula>, Vec<SupFormula>))
    ensures
        view_sup_formulas(r.0@) == spec_body_literals(spec_unpack_literals(clause@)),
        view_sup_formulas(r.1@) == spec_answer_literals(spec_unpack_literals(clause@)),
{
    let literals = unpack_literals(clause);
    let ghost lits = view_sup_formulas(literals@);
    let mut body: Vec<SupFormula> = Vec::new();
    let mut answers: Vec<SupFormula> = Vec::new();
    let mut i: usize = 0;
    assert(lits.subrange(0, 0) =~= Seq::<SForm>::empty());
    assert(view_sup_formulas(body@) =~= Seq::<SForm>::empty());
    assert(view_sup_formulas(answers@) =~= Seq::<SForm>::empty());
    while i < literals.len()
        invariant
            i <= literals@.len(),
            lits == view_sup_formulas(literals@),
            view_sup_formulas(body@) == spec_body_literals(lits.subrange(0, i as int)),
            view_sup_formulas(answers@) == spec_answer_literals(lits.subrange(0, i as int)),
        decreases literals@.len() - i,
    {
        let ghost pre = lits.subrange(0, i + 1);
        proof {
            assert(pre.drop_last() =~= lits.subrange(0, i as int));
            assert(pre.last() == literals@[i as int]@);
        }
        let literal = copy_sup_formula(&literals[i]);
        if is_answer_literal(&literals[i]) {
            let ghost before = answers@;
            answers.push(literal);
            proof {
                assert(view_sup_formulas(answers@) =~= view_sup_formulas(before).push(literal@));
            }
        } else {
            let ghost before = body@;
            body.push(literal);
            proof {
                assert(view_sup_formulas(body@) =~= view_sup_formulas(before).push(literal@));
            }
        }
        i = i + 1;
    }
    proof {
        assert(lits.subrange(0, literals@.len() as int) =~= lits);
    }
    (body, answers)
}

/// `clause` without its answer literals: the clause itself when it has
/// none, the clause of its other literals otherwise.
pub open spec fn spec_strip_answer_literals(f: SForm) -> SForm {
    if spec_answer_literals(spec_unpack_literals(f)).len() == 0 {
        f
    } else {
        SForm::Clause(spec_body_literals(spec_unpack_literals(f)))
    }
}

/// Drops the answer literals of `clause` (see
/// [`spec_strip_answer_literals`]).
pub fn strip_answer_literals(clause: &SupFormula) -> (r: SupFormula)
    ensures
        r@ == spec_strip_answer_literals(clause@),
{
    let (body, answers) = split_answer_literals(clause);
    if answers.len() == 0 {
        copy_sup_formula(clause)
    } else {
        proof {
            lemma_clause_view(body);
        }
        SupFormula::Clause(body)
    }
}

/// Whether `clause` refutes the input set: it has no literal but answer
/// literals.
pub open spec fn spec_is_bottom(f: SForm) -> bool {
    forall|i: int|
        0 <= i < spec_unpack_literals(f).len() ==> spec_is_answer_literal(#[trigger] spec_unpack_literals(f)[i])
}

/// Whether `clause` is the empty clause, answer literals aside.
pub fn is_bottom(clause: &SupFormula) -> (r: bool)
    ensures
        r == spec_is_bottom(clause@),
{
    let literals = unpack_literals(clause);
    let ghost lits = view_sup_formulas(literals@);
    let mut i: usize = 0;
    while i < literals.len()
        invariant
            i <= literals@.len(),
            lits == view_sup_formulas(literals@),
            lits == spec_unpack_literals(clause@),
            forall|j: int| 0 <= j < i ==> spec_is_answer_literal(#[trigger] lits[j]),
        decreases literals@.len() - i,
    {
        if !is_answer_literal(&literals[i]) {
            proof {
                assert(lits[i as int] == literals@[i as int]@);
            }
            return false;
        }
        i = i + 1;
    }
    true
}

//########################### VARIABLES

/// `found` followed by the variables of `t` not in it yet, in order of
/// first occurrence.
pub open spec fn spec_term_vars(t: STerm, found: Seq<Seq<char>>) -> Seq<Seq<char>>
    decreases t,
{
    match t {
        STerm::Var(x) => if found.contains(x) {
            found
        } else {
            found.push(x)
        },
        STerm::App(_, args) => spec_terms_vars(args, found),
    }
}

/// `found` followed by the new variables of `ts`, left to right.
pub open spec fn spec_terms_vars(ts: Seq<STerm>, found: Seq<Seq<char>>) -> Seq<Seq<char>>
    decreases ts,
{
    if ts.len() == 0 {
        found
    } else {
        spec_term_vars(ts[ts.len() - 1], spec_terms_vars(ts.subrange(0, ts.len() - 1), found))
    }
}

/// `found` followed by the new variables of `f`, left to right.
pub open spec fn spec_formula_vars(f: SForm, found: Seq<Seq<char>>) -> Seq<Seq<char>>
    decreases f,
{
    match f {
        SForm::Atom(_, args) => spec_terms_vars(args, found),
        SForm::Eq(l, r) => spec_term_vars(r, spec_term_vars(l, found)),
        SForm::Not(g) => spec_formula_vars(*g, found),
        SForm::Clause(lits) => spec_formulas_vars(lits, found),
        SForm::ForAll(_, ty, body) => spec_formula_vars(*body, spec_formula_vars(*ty, found)),
    }
}

/// `found` followed by the new variables of `fs`, left to right.
pub open spec fn spec_formulas_vars(fs: Seq<SForm>, found: Seq<Seq<char>>) -> Seq<Seq<char>>
    decreases fs,
{
    if fs.len() == 0 {
        found
    } else {
        spec_formula_vars(fs[fs.len() - 1], spec_formulas_vars(fs.subrange(0, fs.len() - 1), found))
    }
}

/// The model of a list of names.
pub open spec fn view_names(v: Seq<String>) -> Seq<Seq<char>> {
    Seq::new(v.len(), |i: int| v[i]@)
}

fn contains_name(found: &Vec<String>, name: &String) -> (r: bool)
    ensures
        r == view_names(found@).contains(name@),
{
    let mut i: usize = 0;
    while i < found.len()
        invariant
            i <= found@.len(),
            forall|j: int| 0 <= j < i ==> found@[j]@ != name@,
        decreases found@.len() - i,
    {
        if str_eq(found[i].as_str(), name.as_str()) {
            assert(view_names(found@)[i as int] == name@);
            return true;
        }
        i = i + 1;
    }
    assert(!view_names(found@).contains(name@)) by {
        if view_names(found@).contains(name@) {
            let j = choose|j: int| 0 <= j < view_names(found@).len() && view_names(found@)[j] == name@;
            assert(found@[j]@ == name@);
        }
    }
    false
}

fn collect_term_vars(t: &SupTerm, found: &mut Vec<String>)
    ensures
        view_names(final(found)@) == spec_term_vars(t@, view_names(old(found)@)),
    decreases t,
{
    match t {
        SupTerm::Variable(x) => {
            if !contains_name(found, x) {
                let ghost before = found@;
                found.push(x.clone());
                proof {
                    assert(view_names(found@) =~= view_names(before).push(x@));
                }
            }
        },
        SupTerm::Application(f, args) => {
            proof {
                lemma_application_view(*f, *args);
            }
            let ghost vargs = view_sup_terms(args@);
            let ghost start = view_names(found@);
            let mut i: usize = 0;
            assert(vargs.subrange(0, 0) =~= Seq::<STerm>::empty());
            while i < args.len()
                invariant
                    i <= args@.len(),
                    *t == SupTerm::Application(*f, *args),
                    vargs == view_sup_terms(args@),
                    view_names(found@) == spec_terms_vars(vargs.subrange(0, i as int), start),
                decreases args@.len() - i,
            {
                proof {
                    assert(decreases_to!(*t => (*t)->Application_1));
                    assert(decreases_to!(*args => args@));
                    assert(decreases_to!(args@ => args@[i as int]));
                    let pre = vargs.subrange(0, i + 1);
                    assert(pre.subrange(0, pre.len() - 1) =~= vargs.subrange(0, i as int));
                    assert(pre[pre.len() - 1] == args@[i as int]@);
                }
                collect_term_vars(&args[i], found);
                i = i + 1;
            }
            proof {
                assert(vargs.subrange(0, args@.len() as int) =~= vargs);
            }
        },
    }
}

fn collect_formula_vars(f: &SupFormula, found: &mut Vec<String>)
    ensures
        view_names(final(found)@) == spec_formula_vars(f@, view_names(old(found)@)),
    decreases f,
{
    match f {
        SupFormula::Atom(_, args) => {
            let ghost vargs = view_sup_terms(args@);
            let ghost start = view_names(found@);
            let mut i: usize = 0;
            assert(vargs.subrange(0, 0) =~= Seq::<STerm>::empty());
            while i < args.len()
                invariant
                    i <= args@.len(),
                    vargs == view_sup_terms(args@),
                    view_names(found@) == spec_terms_vars(vargs.subrange(0, i as int), start),
                decreases args@.len() - i,
            {
                proof {
                    let pre = vargs.subrange(0, i + 1);
                    assert(pre.subrange(0, pre.len() - 1) =~= vargs.subrange(0, i as int));
                    assert(pre[pre.len() - 1] == args@[i as int]@);
                }
                collect_term_vars(&args[i], found);
                i = i + 1;
            }
            proof {
                assert(vargs.subrange(0, args@.len() as int) =~= vargs);
            }
        },
        SupFormula::Equality(l, r) => {
            collect_term_vars(l, found);
            collect_term_vars(r, found);
        },
        SupFormula::Not(g) => collect_formula_vars(g, found),
        SupFormula::Clause(lits) => {
            proof {
                lemma_clause_view(*lits);
            }
            let ghost vl = view_sup_formulas(lits@);
            let ghost start = view_names(found@);
            let mut i: usize = 0;
            assert(vl.subrange(0, 0) =~= Seq::<SForm>::empty());
            while i < lits.len()
                invariant
                    i <= lits@.len(),
                    *f == SupFormula::Clause(*lits),
                    vl == view_sup_formulas(lits@),
                    view_names(found@) == spec_formulas_vars(vl.subrange(0, i as int), start),
                decreases lits@.len() - i,
            {
                proof {
                    assert(decreases_to!(*f => (*f)->Clause_0));
                    assert(decreases_to!(*lits => lits@));
                    assert(decreases_to!(lits@ => lits@[i as int]));
                    let pre = vl.subrange(0, i + 1);
                    assert(pre.subrange(0, pre.len() - 1) =~= vl.subrange(0, i as int));
                    assert(pre[pre.len() - 1] == lits@[i as int]@);
                }
                collect_formula_vars(&lits[i], found);
                i = i + 1;
            }
            proof {
                assert(vl.subrange(0, lits@.len() as int) =~= vl);
            }
        },
        SupFormula::ForAll(_, ty, body) => {
            collect_formula_vars(ty, found);
            collect_formula_vars(body, found);
        },
    }
}

/// The distinct variable names of `clause`, in order of first occurrence.
pub fn clause_variables(clause: &SupFormula) -> (r: Vec<String>)
    ensures
        view_names(r@) == spec_formula_vars(clause@, Seq::empty()),
{
    let mut found: Vec<String> = Vec::new();
    assert(view_names(found@) =~= Seq::<Seq<char>>::empty());
    collect_formula_vars(clause, &mut found);
    found
}

/// The predicate of the answer literal of the `index`-th input clause.
pub open spec fn answer_predicate(index: nat) -> Seq<char> {
    ANSWER_PREFIX@ + spec_decimal(index)
}

/// `clause` with an answer literal over its own variables appended, and
/// those variables; a clause without variables is left as it is.
pub open spec fn spec_with_answer_literal(f: SForm, index: nat) -> (SForm, Seq<Seq<char>>) {
    let vars = spec_formula_vars(f, Seq::empty());
    if vars.len() == 0 {
        (f, vars)
    } else {
        (
            SForm::Clause(
                spec_unpack_literals(f).push(
                    SForm::Atom(answer_predicate(index), Seq::new(vars.len(), |i: int| STerm::Var(vars[i]))),
                ),
            ),
            vars,
        )
    }
}

/// Appends to `clause` an answer literal recording its variables (see
/// [`spec_with_answer_literal`]); with those variables.
pub fn with_answer_literal(clause: &SupFormula, index: usize) -> (r: (SupFormula, Vec<String>))
    ensures
        r.0@ == spec_with_answer_literal(clause@, index as nat).0,
        view_names(r.1@) == spec_with_answer_literal(clause@, index as nat).1,
{
    let variables = clause_variables(clause);
    if variables.len() == 0 {
        return (copy_sup_formula(clause), variables);
    }
    let mut literals = unpack_literals(clause);
    let mut args: Vec<SupTerm> = Vec::new();
    let mut i: usize = 0;
    while i < variables.len()
        invariant
            i <= variables@.len(),
            args@.len() == i,
            forall|j: int| 0 <= j < i ==> (#[trigger] args@[j])@ == STerm::Var(variables@[j]@),
        decreases variables@.len() - i,
    {
        args.push(SupTerm::Variable(variables[i].clone()));
        i = i + 1;
    }
    let predicate = concat(ANSWER_PREFIX, decimal_u64(index as u64).as_str());
    let ghost vargs = view_sup_terms(args@);
    let answer = SupFormula::Atom(predicate, args);
    let ghost before = literals@;
    literals.push(answer);
    proof {
        let vars = spec_formula_vars(clause@, Seq::empty());
        assert(vargs =~= Seq::new(vars.len(), |i: int| STerm::Var(vars[i])));
        assert(view_sup_formulas(literals@) =~= view_sup_formulas(before).push(answer@));
        lemma_clause_view(literals);
    }
    (SupFormula::Clause(literals), variables)
}

//########################### ANSWERS

/// What each original variable was found to stand for: `None` once two
/// different terms were recorded for it; in order of first record.
pub type AnswerTable = Seq<(Seq<char>, Option<STerm>)>;

/// The place of the entry of `name` in `table`, if any (the last one).
pub open spec fn spec_table_index(table: AnswerTable, name: Seq<char>) -> Option<int>
    decreases table.len(),
{
    if table.len() == 0 {
        None
    } else if table.last().0 == name {
        Some(table.len() - 1)
    } else {
        spec_table_index(table.drop_last(), name)
    }
}

proof fn lemma_table_index(table: AnswerTable, name: Seq<char>)
    ensures
        match spec_table_index(table, name) {
            Some(i) => 0 <= i < table.len() && table[i].0 == name && forall|j: int| i < j < table.len() ==> table[j].0 != name,
            None => forall|j: int| 0 <= j < table.len() ==> table[j].0 != name,
        },
    decreases table.len(),
{
    if table.len() > 0 && table.last().0 != name {
        let init = table.drop_last();
        lemma_table_index(init, name);
        assert forall|j: int| 0 <= j < init.len() implies init[j] == table[j] by {}
        match spec_table_index(init, name) {
            Some(i) => {
                assert forall|j: int| i < j < table.len() implies table[j].0 != name by {
                    if j < init.len() {
                        assert(init[j] == table[j]);
                    }
                }
            },
            None => {
                assert forall|j: int| 0 <= j < table.len() implies table[j].0 != name by {
                    if j < init.len() {
                        assert(init[j] == table[j]);
                    }
                }
            },
        }
    }
}

/// `table` after recording that `name` stands for `value`.
pub open spec fn spec_record(table: AnswerTable, name: Seq<char>, value: STerm) -> AnswerTable {
    match spec_table_index(table, name) {
        None => table.push((name, Some(value))),
        Some(i) => match table[i].1 {
            Some(previous) => if previous != value {
                table.update(i, (name, None))
            } else {
                table
            },
            None => table,
        },
    }
}

/// `table` after recording each of `names` against the term at the same
/// place of `values` (as far as both go).
pub open spec fn spec_record_all(table: AnswerTable, names: Seq<Seq<char>>, values: Seq<STerm>) -> AnswerTable
    decreases names.len(),
{
    if names.len() == 0 || values.len() == 0 {
        table
    } else {
        spec_record_all(spec_record(table, names[0], values[0]), names.drop_first(), values.drop_first())
    }
}

/// `table` after reading the answer literals of `lits`: an atom named
/// [`ANSWER_PREFIX`] and the index of an input clause records the original
/// variables of that clause against its arguments.
pub open spec fn spec_read_answers(table: AnswerTable, lits: Seq<SForm>, origins: Seq<Seq<Seq<char>>>) -> AnswerTable
    decreases lits.len(),
{
    if lits.len() == 0 {
        table
    } else {
        let t = spec_read_answers(table, lits.drop_last(), origins);
        match lits.last() {
            SForm::Atom(p, args) => if spec_starts_with(p, ANSWER_PREFIX@) {
                match spec_parse_usize(p.skip(ANSWER_PREFIX@.len() as int)) {
                    Some(index) => if index < origins.len() {
                        spec_record_all(t, origins[index as int], args)
                    } else {
                        t
                    },
                    None => t,
                }
            } else {
                t
            },
            _ => t,
        }
    }
}

/// The solved entries of `table`, in order.
pub open spec fn spec_solved(table: AnswerTable) -> Bindings
    decreases table.len(),
{
    if table.len() == 0 {
        Seq::empty()
    } else {
        match table.last().1 {
            Some(v) => spec_solved(table.drop_last()).push((table.last().0, v)),
            None => spec_solved(table.drop_last()),
        }
    }
}

/// The answer substitution read off a refutation `clause`: each original
/// variable with the one term its answer literals recorded for it; a
/// variable recorded with different terms has no single answer and is left
/// out.
pub open spec fn spec_extract_answer(f: SForm, origins: Seq<Seq<Seq<char>>>) -> Bindings {
    spec_solved(spec_read_answers(Seq::empty(), spec_unpack_literals(f), origins))
}

/// The model of an answer table.
pub open spec fn view_table(t: Seq<(String, Option<SupTerm>)>) -> AnswerTable {
    Seq::new(
        t.len(),
        |i: int|
            (
                t[i].0@,
                match t[i].1 {
                    Some(v) => Some(v@),
                    None => None,
                },
            ),
    )
}

/// The model of the variables of each input clause.
pub open spec fn view_origins(o: Seq<Vec<String>>) -> Seq<Seq<Seq<char>>> {
    Seq::new(o.len(), |i: int| view_names(o[i]@))
}

fn record(table: &mut Vec<(String, Option<SupTerm>)>, name: &String, value: &SupTerm)
    ensures
        view_table(final(table)@) == spec_record(view_table(old(table)@), name@, value@),
{
    let ghost t0 = view_table(table@);
    proof {
        lemma_table_index(t0, name@);
    }
    let n = table.len();
    let mut i: usize = n;
    while i > 0
        invariant
            i <= n,
            n == table@.len(),
            *table == *old(table),
            t0 == view_table(table@),
            forall|j: int| i <= j < n ==> (#[trigger] t0[j]).0 != name@,
        decreases i,
    {
        if str_eq(table[i - 1].0.as_str(), name.as_str()) {
            let k = i - 1;
            proof {
                lemma_table_index(t0, name@);
                assert(t0[k as int].0 == name@);
                match spec_table_index(t0, name@) {
                    Some(i0) => {
                        if i0 < k {
                            assert(t0[k as int].0 != name@);
                        }
                        if i0 > k {
                            assert(t0[i0].0 != name@);
                        }
                    },
                    None => {
                        assert(t0[k as int].0 != name@);
                    },
                }
                assert(spec_table_index(t0, name@) == Some(k as int));
            }
            let conflicting = match &table[k].1 {
                Some(previous) => !sup_terms_equal(previous, value),
                None => false,
            };
            if conflicting {
                table.set(k, (name.clone(), None));
                proof {
                    assert(view_table(table@) =~= t0.update(k as int, (name@, None)));
                }
            }
            return;
        }
        i = i - 1;
    }
    proof {
        match spec_table_index(t0, name@) {
            Some(i0) => {
                assert(t0[i0].0 != name@);
            },
            None => {},
        }
    }
    table.push((name.clone(), Some(copy_sup_term(value))));
    proof {
        assert(view_table(table@) =~= t0.push((name@, Some(value@))));
    }
}

fn record_all(table: &mut Vec<(String, Option<SupTerm>)>, names: &Vec<String>, values: &Vec<SupTerm>)
    ensures
        view_table(final(table)@) == spec_record_all(view_table(old(table)@), view_names(names@), view_sup_terms(values@)),
{
    let ghost vn = view_names(names@);
    let ghost vv = view_sup_terms(values@);
    let ghost total = spec_record_all(view_table(table@), vn, vv);
    let mut i: usize = 0;
    proof {
        assert(vn.skip(0) =~= vn);
        assert(vv.skip(0) =~= vv);
    }
    while i < names.len() && i < values.len()
        invariant
            i <= names@.len(),
            i <= values@.len(),
            vn == view_names(names@),
            vv == view_sup_terms(values@),
            total == spec_record_all(view_table(table@), vn.skip(i as int), vv.skip(i as int)),
        decreases names@.len() - i,
    {
        proof {
            assert(vn.skip(i as int).drop_first() =~= vn.skip(i + 1));
            assert(vv.skip(i as int).drop_first() =~= vv.skip(i + 1));
            assert(vn.skip(i as int)[0] == names@[i as int]@);
            assert(vv.skip(i as int)[0] == values@[i as int]@);
        }
        record(table, &names[i], &values[i]);
        i = i + 1;
    }
}

/// The answer substitution read off a refutation `clause`, given the
/// variables of each input clause (see [`spec_extract_answer`]).
pub fn extract_answer(clause: &SupFormula, origins: &Vec<Vec<String>>) -> (r: SupSubstitution)
    ensures
        r@ == spec_extract_answer(clause@, view_origins(origins@)),
{
    let literals = unpack_literals(clause);
    let ghost lits = view_sup_formulas(literals@);
    let ghost vo = view_origins(origins@);
    let mut table: Vec<(String, Option<SupTerm>)> = Vec::new();
    let plen = ANSWER_PREFIX.unicode_len();
    let mut i: usize = 0;
    proof {
        assert(lits.subrange(0, 0) =~= Seq::<SForm>::empty());
        assert(view_table(table@) =~= Seq::<(Seq<char>, Option<STerm>)>::empty());
    }
    while i < literals.len()
        invariant
            i <= literals@.len(),
            lits == view_sup_formulas(literals@),
            vo == view_origins(origins@),
            plen == ANSWER_PREFIX@.len(),
            view_table(table@) == spec_read_answers(Seq::empty(), lits.subrange(0, i as int), vo),
        decreases literals@.len() - i,
    {
        let ghost pre = lits.subrange(0, i + 1);
        proof {
            assert(pre.drop_last() =~= lits.subrange(0, i as int));
            assert(pre.last() == literals@[i as int]@);
        }
        match &literals[i] {
            SupFormula::Atom(p, args) => {
                if starts_with(p.as_str(), ANSWER_PREFIX) {
                    let n = p.as_str().unicode_len();
                    let suffix = p.as_str().substring_char(plen, n);
                    proof {
                        assert(suffix@ =~= p@.skip(ANSWER_PREFIX@.len() as int));
                    }
                    match parse_usize(suffix) {
                        Some(index) => {
                            if index < origins.len() {
                                proof {
                                    assert(vo[index as int] == view_names(origins@[index as int]@));
                                }
                                record_all(&mut table, &origins[index], args);
                            }
                        },
                        None => {},
                    }
                }
            },
            _ => {},
        }
        i = i + 1;
    }
    proof {
        assert(lits.subrange(0, literals@.len() as int) =~= lits);
    }
    let ghost t = view_table(table@);
    let mut answer = SupSubstitution::empty();
    let mut j: usize = 0;
    proof {
        assert(t.subrange(0, 0) =~= Seq::<(Seq<char>, Option<STerm>)>::empty());
    }
    while j < table.len()
        invariant
            j <= table@.len(),
            t == view_table(table@),
            answer@ == spec_solved(t.subrange(0, j as int)),
        decreases table@.len() - j,
    {
        let ghost pre = t.subrange(0, j + 1);
        proof {
            assert(pre.drop_last() =~= t.subrange(0, j as int));
            assert(pre.last() == t[j as int]);
        }
        match &table[j].1 {
            Some(v) => {
                answer.push(table[j].0.clone(), copy_sup_term(v));
            },
            None => {},
        }
        j = j + 1;
    }
    proof {
        assert(t.subrange(0, table@.len() as int) =~= t);
    }
    answer
}

} // verus!
