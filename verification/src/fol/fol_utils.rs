use vstd::prelude::*;
use crate::cic::model::view_strings;
use crate::error::LofError;
use crate::fol::fol::{
    copy_fol_term, lemma_fol_application_view, lemma_junction_view, view_fol_formulas, view_fol_terms, FForm,
    FTerm, FolFormula, FolTerm,
};
use crate::sup::sup::{
    copy_sup_formula, lemma_application_view, lemma_clause_view, view_sup_formulas, view_sup_terms, SForm, STerm,
    SupFormula, SupTerm,
};
use crate::text::str_eq;

verus! {

//########################### TERMS

/// The application of the function symbol `name` to `args`.
pub fn make_multiarg_app(name: &str, args: &[FolTerm]) -> (r: FolTerm)
    ensures
        r@ == FTerm::App(name@, view_fol_terms(args@)),
{
    let mut out: Vec<FolTerm> = Vec::new();
    let mut i: usize = 0;
    while i < args.len()
        invariant
            i <= args@.len(),
            out@.len() == i,
            forall|j: int| 0 <= j < i ==> (#[trigger] out@[j])@ == args@[j]@,
        decreases args@.len() - i,
    {
        out.push(copy_fol_term(&args[i]));
        i = i + 1;
    }
    let name = String::from_str(name);
    proof {
        lemma_fol_application_view(name, out);
        assert(view_fol_terms(out@) =~= view_fol_terms(args@));
    }
    FolTerm::Application(name, out)
}

/// Whether `name` is one of `names`.
pub fn contains_name(names: &Vec<String>, name: &str) -> (r: bool)
    ensures
        r == view_strings(names@).contains(name@),
{
    let mut i: usize = 0;
    while i < names.len()
        invariant
            i <= names@.len(),
            forall|j: int| 0 <= j < i ==> names@[j]@ != name@,
        decreases names@.len() - i,
    {
        if str_eq(names[i].as_str(), name) {
            assert(view_strings(names@)[i as int] == name@);
            return true;
        }
        i = i + 1;
    }
    assert(!view_strings(names@).contains(name@)) by {
        if view_strings(names@).contains(name@) {
            let j = choose|j: int| 0 <= j < view_strings(names@).len() && view_strings(names@)[j] == name@;
            assert(names@[j]@ == name@);
        }
    }
    false
}

/// A first order term as a superposition term: a variable named by a
/// constant becomes that constant.
pub open spec fn spec_term_to_sup(t: FTerm, consts: Seq<Seq<char>>) -> STerm
    decreases t,
{
    match t {
        FTerm::Var(n) => if consts.contains(n) {
            STerm::App(n, Seq::empty())
        } else {
            STerm::Var(n)
        },
        FTerm::App(f, args) => STerm::App(
            f,
            Seq::new(args.len(), |i: int| if 0 <= i < args.len() { spec_term_to_sup(args[i], consts) } else { STerm::Var(Seq::empty()) }),
        ),
    }
}

/// The superposition term for `term` (see [`spec_term_to_sup`]).
pub fn term_to_sup(term: &FolTerm, constants: &Vec<String>) -> (r: SupTerm)
    ensures
        r@ == spec_term_to_sup(term@, view_strings(constants@)),
    decreases term,
{
    match term {
        FolTerm::Variable(name) => {
            if contains_name(constants, name.as_str()) {
                let none: Vec<SupTerm> = Vec::new();
                proof {
                    lemma_application_view(*name, none);
                    assert(view_sup_terms(none@) =~= Seq::<STerm>::empty());
                }
                SupTerm::Application(name.clone(), none)
            } else {
                SupTerm::Variable(name.clone())
            }
        },
        FolTerm::Application(f, args) => {
            let ghost vargs = view_fol_terms(args@);
            proof {
                lemma_fol_application_view(*f, *args);
            }
            let mut out: Vec<SupTerm> = Vec::new();
            let mut i: usize = 0;
            while i < args.len()
                invariant
                    *term == FolTerm::Application(*f, *args),
                    vargs == view_fol_terms(args@),
                    i <= args@.len(),
                    out@.len() == i,
                    forall|j: int| 0 <= j < i ==> (#[trigger] out@[j])@ == spec_term_to_sup(vargs[j], view_strings(constants@)),
                decreases args@.len() - i,
            {
                proof {
                    assert(decreases_to!(*term => (*term)->Application_1));
                    assert(decreases_to!(*args => args@));
                    assert(decreases_to!(args@ => args@[i as int]));
                }
                out.push(term_to_sup(&args[i], constants));
                i = i + 1;
            }
            let g = f.clone();
            proof {
                lemma_application_view(g, out);
                assert(view_sup_terms(out@) =~= (spec_term_to_sup(term@, view_strings(constants@)))->App_1);
            }
            SupTerm::Application(g, out)
        },
    }
}

//########################### CLAUSAL NORMAL FORM

/// Every clause of `a` followed by every clause of `b`, for each pair: the
/// disjunction of two conjunctions of clauses.
pub open spec fn spec_product(a: Seq<Seq<SForm>>, b: Seq<Seq<SForm>>) -> Seq<Seq<SForm>>
    decreases a.len(),
{
    if a.len() == 0 {
        Seq::empty()
    } else {
        spec_product(a.drop_last(), b) + b.map_values(|c: Seq<SForm>| a.last() + c)
    }
}

/// The clauses (conjunction of disjunctions of literals) equivalent to `f`
/// when `pos`, to its negation otherwise; `None` when that needs an
/// existential quantifier.
pub open spec fn spec_cnf(f: FForm, pos: bool, consts: Seq<Seq<char>>) -> Option<Seq<Seq<SForm>>>
    decreases f, 1int,
{
    match f {
        FForm::Pred(p, args) => {
            let atom = SForm::Atom(
                p,
                Seq::new(args.len(), |i: int| if 0 <= i < args.len() { spec_term_to_sup(args[i], consts) } else { STerm::Var(Seq::empty()) }),
            );
            Some(seq![seq![if pos { atom } else { SForm::Not(Box::new(atom)) }]])
        },
        FForm::Not(g) => spec_cnf(*g, !pos, consts),
        FForm::And(fs) => if pos {
            spec_cnf_concat(fs, pos, consts)
        } else {
            spec_cnf_product(fs, pos, consts)
        },
        FForm::Or(fs) => if pos {
            spec_cnf_product(fs, pos, consts)
        } else {
            spec_cnf_concat(fs, pos, consts)
        },
        FForm::Imp(a, b) => if pos {
            match (spec_cnf(*a, false, consts), spec_cnf(*b, true, consts)) {
                (Some(x), Some(y)) => Some(spec_product(x, y)),
                _ => None,
            }
        } else {
            match (spec_cnf(*a, true, consts), spec_cnf(*b, false, consts)) {
                (Some(x), Some(y)) => Some(x + y),
                _ => None,
            }
        },
        FForm::ForAll(_, _, body) => if pos {
            spec_cnf(*body, true, consts)
        } else {
            None
        },
    }
}

/// The clauses of all of `fs` together.
pub open spec fn spec_cnf_concat(fs: Seq<FForm>, pos: bool, consts: Seq<Seq<char>>) -> Option<Seq<Seq<SForm>>>
    decreases fs, 0int,
{
    if fs.len() == 0 {
        Some(Seq::empty())
    } else {
        match (spec_cnf_concat(fs.subrange(0, fs.len() - 1), pos, consts), spec_cnf(fs[fs.len() - 1], pos, consts)) {
            (Some(a), Some(b)) => Some(a + b),
            _ => None,
        }
    }
}

/// The clauses of the disjunction of all of `fs`.
pub open spec fn spec_cnf_product(fs: Seq<FForm>, pos: bool, consts: Seq<Seq<char>>) -> Option<Seq<Seq<SForm>>>
    decreases fs, 0int,
{
    if fs.len() == 0 {
        Some(seq![Seq::empty()])
    } else {
        match (spec_cnf_product(fs.subrange(0, fs.len() - 1), pos, consts), spec_cnf(fs[fs.len() - 1], pos, consts)) {
            (Some(a), Some(b)) => Some(spec_product(a, b)),
            _ => None,
        }
    }
}

/// A list of literals as one formula: the literal itself when alone, the
/// clause of them otherwise.
pub open spec fn spec_as_clause(c: Seq<SForm>) -> SForm {
    if c.len() == 1 {
        c[0]
    } else {
        SForm::Clause(c)
    }
}

/// The model of a list of lists of literals.
pub open spec fn view_clauses(v: Seq<Vec<SupFormula>>) -> Seq<Seq<SForm>> {
    v.map_values(|c: Vec<SupFormula>| view_sup_formulas(c@))
}

fn copy_literals(c: &Vec<SupFormula>) -> (r: Vec<SupFormula>)
    ensures
        view_sup_formulas(r@) == view_sup_formulas(c@),
{
    crate::sup::sup::copy_sup_formulas(c)
}

/// `a` followed by `b`.
fn join_literals(a: &Vec<SupFormula>, b: &Vec<SupFormula>) -> (r: Vec<SupFormula>)
    ensures
        view_sup_formulas(r@) == view_sup_formulas(a@) + view_sup_formulas(b@),
{
    let mut out = copy_literals(a);
    let mut rest = copy_literals(b);
    let ghost va = view_sup_formulas(out@);
    let ghost vb = view_sup_formulas(rest@);
    let ghost oa = out@;
    let ghost ob = rest@;
    out.append(&mut rest);
    proof {
        assert(out@ == oa + ob);
        assert(view_sup_formulas(out@) =~= va + vb);
    }
    out
}

/// The clauses of the disjunction of the clause sets `a` and `b`.
fn product(a: &Vec<Vec<SupFormula>>, b: &Vec<Vec<SupFormula>>) -> (r: Vec<Vec<SupFormula>>)
    ensures
        view_clauses(r@) == spec_product(view_clauses(a@), view_clauses(b@)),
{
    let mut out: Vec<Vec<SupFormula>> = Vec::new();
    let mut i: usize = 0;
    let ghost vb = view_clauses(b@);
    while i < a.len()
        invariant
            i <= a@.len(),
            vb == view_clauses(b@),
            view_clauses(out@) == spec_product(view_clauses(a@).subrange(0, i as int), vb),
        decreases a@.len() - i,
    {
        let ghost before = view_clauses(out@);
        let mut j: usize = 0;
        while j < b.len()
            invariant
                i < a@.len(),
                j <= b@.len(),
                vb == view_clauses(b@),
                view_clauses(out@) == before + vb.subrange(0, j as int).map_values(
                    |c: Seq<SForm>| view_sup_formulas(a@[i as int]@) + c,
                ),
            decreases b@.len() - j,
        {
            let joined = join_literals(&a[i], &b[j]);
            let ghost prev = out@;
            out.push(joined);
            proof {
                assert(view_clauses(out@) =~= view_clauses(prev).push(view_sup_formulas(joined@)));
                assert(vb.subrange(0, j + 1) =~= vb.subrange(0, j as int).push(vb[j as int]));
                assert(vb.subrange(0, j + 1).map_values(|c: Seq<SForm>| view_sup_formulas(a@[i as int]@) + c)
                    =~= vb.subrange(0, j as int).map_values(|c: Seq<SForm>| view_sup_formulas(a@[i as int]@) + c).push(
                    view_sup_formulas(a@[i as int]@) + vb[j as int],
                ));
            }
            j = j + 1;
        }
        proof {
            let va = view_clauses(a@);
            assert(vb.subrange(0, b@.len() as int) =~= vb);
            assert(va.subrange(0, i + 1).drop_last() =~= va.subrange(0, i as int));
            assert(va.subrange(0, i + 1).last() == view_sup_formulas(a@[i as int]@));
        }
        i = i + 1;
    }
    proof {
        assert(view_clauses(a@).subrange(0, a@.len() as int) =~= view_clauses(a@));
    }
    out
}

/// The clauses of `f`, or of its negation when `pos` is false (see [`spec_cnf`]).
fn cnf(f: &FolFormula, pos: bool, constants: &Vec<String>) -> (r: Option<Vec<Vec<SupFormula>>>)
    ensures
        match spec_cnf(f@, pos, view_strings(constants@)) {
            Some(cs) => r matches Some(v) && view_clauses(v@) == cs,
            None => r is None,
        },
    decreases f,
{
    match f {
        FolFormula::Predicate(p, args) => {
            let mut terms: Vec<SupTerm> = Vec::new();
            let mut i: usize = 0;
            while i < args.len()
                invariant
                    i <= args@.len(),
                    terms@.len() == i,
                    forall|j: int|
                        0 <= j < i ==> (#[trigger] terms@[j])@ == spec_term_to_sup(args@[j]@, view_strings(constants@)),
                decreases args@.len() - i,
            {
                terms.push(term_to_sup(&args[i], constants));
                i = i + 1;
            }
            let atom = SupFormula::Atom(p.clone(), terms);
            proof {
                let vargs = view_fol_terms(args@);
                assert(view_sup_terms(terms@) =~= Seq::new(
                    vargs.len(),
                    |i: int| if 0 <= i < vargs.len() { spec_term_to_sup(vargs[i], view_strings(constants@)) } else { STerm::Var(Seq::empty()) },
                ));
            }
            let ghost vatom = SForm::Atom(
                p@,
                Seq::new(args@.len(), |i: int| if 0 <= i < args@.len() { spec_term_to_sup(view_fol_terms(args@)[i], view_strings(constants@)) } else { STerm::Var(Seq::empty()) }),
            );
            assert(atom@ == vatom);
            let literal = if pos { atom } else { SupFormula::Not(Box::new(atom)) };
            let ghost vl = literal@;
            assert(vl == if pos { vatom } else { SForm::Not(Box::new(vatom)) });
            let clause = vec![literal];
            let clauses = vec![clause];
            proof {
                assert(view_sup_formulas(clauses@[0]@) =~= seq![vl]);
                assert(view_clauses(clauses@) =~= seq![seq![vl]]);
            }
            Some(clauses)
        },
        FolFormula::Not(g) => cnf(g, !pos, constants),
        FolFormula::Conjunction(fs) => {
            proof {
                lemma_junction_view(*fs);
            }
            if pos {
                cnf_concat(f, fs, pos, constants)
            } else {
                cnf_product(f, fs, pos, constants)
            }
        },
        FolFormula::Disjunction(fs) => {
            proof {
                lemma_junction_view(*fs);
            }
            if pos {
                cnf_product(f, fs, pos, constants)
            } else {
                cnf_concat(f, fs, pos, constants)
            }
        },
        FolFormula::Arrow(a, b) => {
            if pos {
                let x = cnf(a, false, constants);
                let y = cnf(b, true, constants);
                match (x, y) {
                    (Some(x), Some(y)) => Some(product(&x, &y)),
                    _ => None,
                }
            } else {
                let x = cnf(a, true, constants);
                let y = cnf(b, false, constants);
                match (x, y) {
                    (Some(mut x), Some(mut y)) => {
                        let ghost vx = view_clauses(x@);
                        let ghost vy = view_clauses(y@);
                        let ghost ox = x@;
                        let ghost oy = y@;
                        x.append(&mut y);
                        proof {
                            assert(x@ == ox + oy);
                            assert(view_clauses(x@) =~= vx + vy);
                        }
                        Some(x)
                    },
                    _ => None,
                }
            }
        },
        FolFormula::ForAll(_, _, body) => {
            if pos {
                cnf(body, true, constants)
            } else {
                None
            }
        },
    }
}

/// The clauses of all of `fs` (the operands of `f`) together.
fn cnf_concat(f: &FolFormula, fs: &Vec<FolFormula>, pos: bool, constants: &Vec<String>) -> (r: Option<Vec<Vec<SupFormula>>>)
    requires
        *f == FolFormula::Conjunction(*fs) || *f == FolFormula::Disjunction(*fs),
    ensures
        match spec_cnf_concat(view_fol_formulas(fs@), pos, view_strings(constants@)) {
            Some(cs) => r matches Some(v) && view_clauses(v@) == cs,
            None => r is None,
        },
    decreases f, 0int,
{
    let ghost vfs = view_fol_formulas(fs@);
    let mut out: Vec<Vec<SupFormula>> = Vec::new();
    let mut i: usize = 0;
    while i < fs.len()
        invariant
            *f == FolFormula::Conjunction(*fs) || *f == FolFormula::Disjunction(*fs),
            vfs == view_fol_formulas(fs@),
            i <= fs@.len(),
            spec_cnf_concat(vfs.subrange(0, i as int), pos, view_strings(constants@)) == Some(view_clauses(out@)),
        decreases fs@.len() - i,
    {
        proof {
            if *f == FolFormula::Conjunction(*fs) {
                assert(decreases_to!(*f => (*f)->Conjunction_0));
            } else {
                assert(decreases_to!(*f => (*f)->Disjunction_0));
            }
            assert(decreases_to!(*fs => fs@));
            assert(decreases_to!(fs@ => fs@[i as int]));
            let pre = vfs.subrange(0, i + 1);
            assert(pre.subrange(0, pre.len() - 1) =~= vfs.subrange(0, i as int));
            assert(pre[pre.len() - 1] == fs@[i as int]@);
        }
        match cnf(&fs[i], pos, constants) {
            Some(mut cs) => {
                let ghost vo = view_clauses(out@);
                let ghost vc = view_clauses(cs@);
                let ghost oo = out@;
                let ghost oc = cs@;
                out.append(&mut cs);
                proof {
                    assert(out@ == oo + oc);
                    assert(view_clauses(out@) =~= vo + vc);
                }
            },
            None => {
                proof {
                    lemma_cnf_concat_none(vfs, i + 1, pos, view_strings(constants@));
                }
                return None;
            },
        }
        i = i + 1;
    }
    proof {
        assert(vfs.subrange(0, fs@.len() as int) =~= vfs);
    }
    Some(out)
}

/// The clauses of the disjunction of all of `fs` (the operands of `f`).
fn cnf_product(f: &FolFormula, fs: &Vec<FolFormula>, pos: bool, constants: &Vec<String>) -> (r: Option<Vec<Vec<SupFormula>>>)
    requires
        *f == FolFormula::Conjunction(*fs) || *f == FolFormula::Disjunction(*fs),
    ensures
        match spec_cnf_product(view_fol_formulas(fs@), pos, view_strings(constants@)) {
            Some(cs) => r matches Some(v) && view_clauses(v@) == cs,
            None => r is None,
        },
    decreases f, 0int,
{
    let ghost vfs = view_fol_formulas(fs@);
    let mut out: Vec<Vec<SupFormula>> = vec![Vec::new()];
    proof {
        assert(view_clauses(out@) =~= seq![Seq::<SForm>::empty()]) by {
            assert(view_sup_formulas(out@[0]@) =~= Seq::<SForm>::empty());
        }
    }
    let mut i: usize = 0;
    while i < fs.len()
        invariant
            *f == FolFormula::Conjunction(*fs) || *f == FolFormula::Disjunction(*fs),
            vfs == view_fol_formulas(fs@),
            i <= fs@.len(),
            spec_cnf_product(vfs.subrange(0, i as int), pos, view_strings(constants@)) == Some(view_clauses(out@)),
        decreases fs@.len() - i,
    {
        proof {
            if *f == FolFormula::Conjunction(*fs) {
                assert(decreases_to!(*f => (*f)->Conjunction_0));
            } else {
                assert(decreases_to!(*f => (*f)->Disjunction_0));
            }
            assert(decreases_to!(*fs => fs@));
            assert(decreases_to!(fs@ => fs@[i as int]));
            let pre = vfs.subrange(0, i + 1);
            assert(pre.subrange(0, pre.len() - 1) =~= vfs.subrange(0, i as int));
            assert(pre[pre.len() - 1] == fs@[i as int]@);
        }
        match cnf(&fs[i], pos, constants) {
            Some(cs) => {
                out = product(&out, &cs);
            },
            None => {
                proof {
                    lemma_cnf_product_none(vfs, i + 1, pos, view_strings(constants@));
                }
                return None;
            },
        }
        i = i + 1;
    }
    proof {
        assert(vfs.subrange(0, fs@.len() as int) =~= vfs);
    }
    Some(out)
}

proof fn lemma_cnf_concat_none(fs: Seq<FForm>, k: int, pos: bool, consts: Seq<Seq<char>>)
    requires
        0 <= k <= fs.len(),
        spec_cnf_concat(fs.subrange(0, k), pos, consts) is None,
    ensures
        spec_cnf_concat(fs, pos, consts) is None,
    decreases fs.len() - k,
{
    if k == fs.len() {
        assert(fs.subrange(0, k) =~= fs);
    } else {
        let init = fs.subrange(0, fs.len() - 1);
        assert(init.subrange(0, k) =~= fs.subrange(0, k));
        lemma_cnf_concat_none(init, k, pos, consts);
    }
}

proof fn lemma_cnf_product_none(fs: Seq<FForm>, k: int, pos: bool, consts: Seq<Seq<char>>)
    requires
        0 <= k <= fs.len(),
        spec_cnf_product(fs.subrange(0, k), pos, consts) is None,
    ensures
        spec_cnf_product(fs, pos, consts) is None,
    decreases fs.len() - k,
{
    if k == fs.len() {
        assert(fs.subrange(0, k) =~= fs);
    } else {
        let init = fs.subrange(0, fs.len() - 1);
        assert(init.subrange(0, k) =~= fs.subrange(0, k));
        lemma_cnf_product_none(init, k, pos, consts);
    }
}

/// What [`clausify`] answers a formula that needs an existential quantifier.
pub const CLAUSIFY_UNSUPPORTED: &'static str = "existential quantification cannot be clausified";

/// The clauses of `formula`, over the superposition terms in which the
/// names of `constants` are constants; each clause of one literal is that
/// literal. An existential quantifier, a universal one under a negation, is
/// not supported.
pub fn clausify(formula: &FolFormula, constants: &Vec<String>) -> (r: Result<Vec<SupFormula>, LofError>)
    ensures
        match spec_cnf(formula@, true, view_strings(constants@)) {
            Some(cs) => r matches Ok(v) && view_sup_formulas(v@) == cs.map_values(|c: Seq<SForm>| spec_as_clause(c)),
            None => r matches Err(LofError::Unsupported(m)) && m@ == CLAUSIFY_UNSUPPORTED@,
        },
{
    match cnf(formula, true, constants) {
        None => Err(LofError::unsupported(CLAUSIFY_UNSUPPORTED)),
        Some(clauses) => {
            let ghost vcs = view_clauses(clauses@);
            let mut out: Vec<SupFormula> = Vec::new();
            let mut i: usize = 0;
            while i < clauses.len()
                invariant
                    vcs == view_clauses(clauses@),
                    i <= clauses@.len(),
                    view_sup_formulas(out@) == vcs.subrange(0, i as int).map_values(|c: Seq<SForm>| spec_as_clause(c)),
                decreases clauses@.len() - i,
            {
                let literals = &clauses[i];
                let clause = if literals.len() == 1 {
                    copy_sup_formula(&literals[0])
                } else {
                    let lits = copy_literals(literals);
                    proof {
                        lemma_clause_view(lits);
                    }
                    SupFormula::Clause(lits)
                };
                let ghost before = out@;
                out.push(clause);
                proof {
                    assert(vcs[i as int] == view_sup_formulas(clauses@[i as int]@));
                    assert(clause@ == spec_as_clause(vcs[i as int]));
                    assert(view_sup_formulas(out@) =~= view_sup_formulas(before).push(clause@));
                    assert(vcs.subrange(0, i + 1).map_values(|c: Seq<SForm>| spec_as_clause(c)) =~= vcs.subrange(
                        0,
                        i as int,
                    ).map_values(|c: Seq<SForm>| spec_as_clause(c)).push(spec_as_clause(vcs[i as int])));
                }
                i = i + 1;
            }
            proof {
                assert(vcs.subrange(0, clauses@.len() as int) =~= vcs);
            }
            Ok(out)
        },
    }
}

} // verus!
