//! SLD resolution, the proof procedure behind Prolog, on definite Horn
//! clauses `h :- g1,...,gn`: solving `h` is solving every subgoal in turn,
//! backtracking to the next candidate clause when a subgoal has no (further)
//! solution.

use vstd::prelude::*;
use crate::cic::model::view_strings;
use crate::error::{spec_message, LofError};
use crate::fol::fol::{FForm, FolFormula, view_fol_formulas};
use crate::fol::fol_utils::{clausify, spec_as_clause, spec_cnf, CLAUSIFY_UNSUPPORTED};
use crate::sup::sup::{
    copy_sup_formula, copy_sup_formulas, render_sup_formula, lemma_application_view, lemma_clause_view,
    spec_unpack_literals, spec_render_sup_formula, unpack_literals, view_sup_formulas, view_sup_terms, SForm, STerm,
    SupFormula, SupTerm,
};
use crate::sup::unification::{
    formula_apply_substitution, formulas_unify, spec_apply_formula, spec_formulas_unify, spec_merge, Bindings,
    SupSubstitution,
};
use crate::text::{concat, decimal_u64, spec_decimal};

verus! {

//########################### HORN CLAUSES

/// A definite Horn clause `head :- body1,...,bodyN` (`body` empty for a
/// fact). The head is mandatory: program rules and facts always have one,
/// and queries are lists of atoms.
#[derive(Debug, PartialEq)]
pub struct HornClause {
    pub head: SupFormula,
    pub body: Vec<SupFormula>,
}

/// Model of a Horn clause: its head and its body.
pub type HornModel = (SForm, Seq<SForm>);

impl View for HornClause {
    type V = HornModel;

    open spec fn view(&self) -> HornModel {
        (self.head@, view_sup_formulas(self.body@))
    }
}

/// The model of a list of Horn clauses.
pub open spec fn view_horns(cs: Seq<HornClause>) -> Seq<HornModel> {
    Seq::new(cs.len(), |i: int| cs[i]@)
}

impl Clone for HornClause {
    fn clone(&self) -> (r: Self)
        ensures
            r@ == self@,
    {
        HornClause { head: copy_sup_formula(&self.head), body: copy_sup_formulas(&self.body) }
    }
}

/// Where the scan of the literals of a clause stands: the head and body
/// found so far, or the first literal that makes it no definite Horn clause.
pub enum HornScan {
    Scanned(Option<SForm>, Seq<SForm>),
    TwoHeads,
    BadNegated(SForm),
    BadLiteral(SForm),
}

/// The scan of `lits`, left to right: an atom is the head, a negated atom
/// goes to the body.
pub open spec fn spec_horn_scan(lits: Seq<SForm>) -> HornScan
    decreases lits.len(),
{
    if lits.len() == 0 {
        HornScan::Scanned(None, Seq::empty())
    } else {
        match spec_horn_scan(lits.drop_last()) {
            HornScan::Scanned(head, body) => match lits.last() {
                SForm::Atom(_, _) => if head is Some {
                    HornScan::TwoHeads
                } else {
                    HornScan::Scanned(Some(lits.last()), body)
                },
                SForm::Not(inner) => match *inner {
                    SForm::Atom(_, _) => HornScan::Scanned(head, body.push(*inner)),
                    other => HornScan::BadNegated(other),
                },
                other => HornScan::BadLiteral(other),
            },
            failed => failed,
        }
    }
}

/// The head and body of `c` when it is a definite Horn clause: exactly one
/// atom, every other literal a negated atom.
pub open spec fn spec_horn(c: SForm) -> Option<HornModel> {
    match spec_horn_scan(spec_unpack_literals(c)) {
        HornScan::Scanned(Some(h), b) => Some((h, b)),
        _ => None,
    }
}

/// Why `c` is no definite Horn clause.
pub open spec fn spec_horn_message(c: SForm) -> Seq<char> {
    let d = spec_render_sup_formula(c);
    match spec_horn_scan(spec_unpack_literals(c)) {
        HornScan::TwoHeads => "clause "@ + d + " is not a Horn clause: it has more than one positive literal"@,
        HornScan::BadNegated(o) => "SLD only supports negated atoms as body literals, found ¬"@ + spec_render_sup_formula(o)
            + " in clause "@ + d,
        HornScan::BadLiteral(o) => "literal "@ + spec_render_sup_formula(o) + " in clause "@ + d
            + " isn't supported by SLD (only atoms and their negations are)"@,
        _ => "clause "@ + d + " has no positive literal: SLD program clauses must be definite (headed) Horn clauses"@,
    }
}

spec fn view_opt(f: Option<SupFormula>) -> Option<SForm> {
    match f {
        Some(g) => Some(g@),
        None => None,
    }
}

/// Splits `clause` into its head and body when it is a definite Horn clause
/// (see [`spec_horn`]); says why it is not otherwise.
pub fn to_horn_clause(clause: &SupFormula) -> (r: Result<HornClause, LofError>)
    ensures
        match spec_horn(clause@) {
            Some(h) => r matches Ok(c) && c@ == h,
            None => r matches Err(LofError::Other(m)) && m@ == spec_horn_message(clause@),
        },
{
    let literals = unpack_literals(clause);
    let ghost lits = view_sup_formulas(literals@);
    let mut head: Option<SupFormula> = None;
    let mut body: Vec<SupFormula> = Vec::new();
    let mut i: usize = 0;
    assert(lits.subrange(0, 0) =~= Seq::<SForm>::empty());
    assert(view_sup_formulas(body@) =~= Seq::<SForm>::empty());
    while i < literals.len()
        invariant
            i <= literals@.len(),
            lits == view_sup_formulas(literals@),
            lits == spec_unpack_literals(clause@),
            spec_horn_scan(lits.subrange(0, i as int)) == HornScan::Scanned(view_opt(head), view_sup_formulas(body@)),
        decreases literals@.len() - i,
    {
        let ghost pre = lits.subrange(0, i + 1);
        proof {
            assert(pre.drop_last() =~= lits.subrange(0, i as int));
            assert(pre.last() == literals@[i as int]@);
        }
        match &literals[i] {
            SupFormula::Atom(_, _) => {
                if head.is_some() {
                    proof {
                        lemma_scan_failed(lits, (i + 1) as nat);
                    }
                    let d = render_sup_formula(clause);
                    let m = concat(concat("clause ", d.as_str()).as_str(), " is not a Horn clause: it has more than one positive literal");
                    return Err(LofError::Other(m));
                }
                head = Some(copy_sup_formula(&literals[i]));
            },
            SupFormula::Not(inner) => match &**inner {
                SupFormula::Atom(_, _) => {
                    let ghost before = body@;
                    body.push(copy_sup_formula(inner));
                    proof {
                        assert(view_sup_formulas(body@) =~= view_sup_formulas(before).push(inner@));
                    }
                },
                _ => {
                    proof {
                        lemma_scan_failed(lits, (i + 1) as nat);
                    }
                    let o = render_sup_formula(inner);
                    let d = render_sup_formula(clause);
                    let m1 = concat("SLD only supports negated atoms as body literals, found ¬", o.as_str());
                    let m2 = concat(m1.as_str(), " in clause ");
                    let m = concat(m2.as_str(), d.as_str());
                    return Err(LofError::Other(m));
                },
            },
            _ => {
                proof {
                    lemma_scan_failed(lits, (i + 1) as nat);
                }
                let o = render_sup_formula(&literals[i]);
                let d = render_sup_formula(clause);
                let m1 = concat("literal ", o.as_str());
                let m2 = concat(m1.as_str(), " in clause ");
                let m3 = concat(m2.as_str(), d.as_str());
                let m = concat(m3.as_str(), " isn't supported by SLD (only atoms and their negations are)");
                return Err(LofError::Other(m));
            },
        }
        i = i + 1;
    }
    proof {
        assert(lits.subrange(0, literals@.len() as int) =~= lits);
    }
    match head {
        Some(h) => Ok(HornClause { head: h, body }),
        None => {
            let d = render_sup_formula(clause);
            let m = concat(
                concat("clause ", d.as_str()).as_str(),
                " has no positive literal: SLD program clauses must be definite (headed) Horn clauses",
            );
            Err(LofError::Other(m))
        },
    }
}

/// Once the scan fails on a prefix, it fails the same way on the whole.
proof fn lemma_scan_failed(lits: Seq<SForm>, k: nat)
    requires
        k <= lits.len(),
        !(spec_horn_scan(lits.subrange(0, k as int)) is Scanned),
    ensures
        spec_horn_scan(lits) == spec_horn_scan(lits.subrange(0, k as int)),
    decreases lits.len() - k,
{
    if k == lits.len() {
        assert(lits.subrange(0, k as int) =~= lits);
    } else {
        let init = lits.drop_last();
        assert(init.subrange(0, k as int) =~= lits.subrange(0, k as int));
        lemma_scan_failed(init, k);
    }
}

//########################### PREPROCESSING

/// The clauses of `f`, each clause of one literal being that literal.
pub open spec fn spec_clausified(f: FForm, consts: Seq<Seq<char>>) -> Option<Seq<SForm>> {
    match spec_cnf(f, true, consts) {
        Some(cs) => Some(cs.map_values(|c: Seq<SForm>| spec_as_clause(c))),
        None => None,
    }
}

/// The Horn clauses of `cs`, or the reason why the first one that is no
/// definite Horn clause is not.
pub open spec fn spec_horns(cs: Seq<SForm>) -> Result<Seq<HornModel>, Seq<char>>
    decreases cs.len(),
{
    if cs.len() == 0 {
        Ok(Seq::empty())
    } else {
        match spec_horns(cs.drop_last()) {
            Ok(a) => match spec_horn(cs.last()) {
                Some(h) => Ok(a.push(h)),
                None => Err(spec_horn_message(cs.last())),
            },
            Err(m) => Err(m),
        }
    }
}

/// The SLD program of `fs`: the Horn clauses of each formula in turn, or the
/// message of the first failure.
pub open spec fn spec_program(fs: Seq<FForm>, consts: Seq<Seq<char>>) -> Result<Seq<HornModel>, Seq<char>>
    decreases fs.len(),
{
    if fs.len() == 0 {
        Ok(Seq::empty())
    } else {
        match spec_program(fs.drop_last(), consts) {
            Ok(p) => match spec_clausified(fs.last(), consts) {
                Some(cs) => match spec_horns(cs) {
                    Ok(h) => Ok(p + h),
                    Err(m) => Err(m),
                },
                None => Err(CLAUSIFY_UNSUPPORTED@),
            },
            Err(m) => Err(m),
        }
    }
}

/// Why the clause `c` cannot be a goal: it has a body.
pub open spec fn spec_goal_message(c: SForm) -> Seq<char> {
    "goal "@ + spec_render_sup_formula(c) + " isn't a plain atomic subgoal: SLD goals must be atoms"@
}

/// The atoms of the goal clauses `cs`, or the message of the first clause
/// that is no single atom.
pub open spec fn spec_goal_atoms(cs: Seq<SForm>) -> Result<Seq<SForm>, Seq<char>>
    decreases cs.len(),
{
    if cs.len() == 0 {
        Ok(Seq::empty())
    } else {
        match spec_goal_atoms(cs.drop_last()) {
            Ok(a) => match spec_horn(cs.last()) {
                Some(h) => if h.1.len() == 0 {
                    Ok(a.push(h.0))
                } else {
                    Err(spec_goal_message(cs.last()))
                },
                None => Err(spec_horn_message(cs.last())),
            },
            Err(m) => Err(m),
        }
    }
}

/// The subgoals of the goals `fs`, left to right, or the message of the
/// first failure.
pub open spec fn spec_query(fs: Seq<FForm>, consts: Seq<Seq<char>>) -> Result<Seq<SForm>, Seq<char>>
    decreases fs.len(),
{
    if fs.len() == 0 {
        Ok(Seq::empty())
    } else {
        match spec_query(fs.drop_last(), consts) {
            Ok(q) => match spec_clausified(fs.last(), consts) {
                Some(cs) => match spec_goal_atoms(cs) {
                    Ok(a) => Ok(q + a),
                    Err(m) => Err(m),
                },
                None => Err(CLAUSIFY_UNSUPPORTED@),
            },
            Err(m) => Err(m),
        }
    }
}

/// The Horn clauses of `cs`, in order (see [`spec_horns`]).
fn horn_clauses(cs: &Vec<SupFormula>) -> (r: Result<Vec<HornClause>, LofError>)
    ensures
        match spec_horns(view_sup_formulas(cs@)) {
            Ok(h) => r matches Ok(v) && view_horns(v@) == h,
            Err(m) => r matches Err(e) && spec_message(e) == m,
        },
{
    let ghost vcs = view_sup_formulas(cs@);
    let mut out: Vec<HornClause> = Vec::new();
    let mut i: usize = 0;
    assert(vcs.subrange(0, 0) =~= Seq::<SForm>::empty());
    assert(view_horns(out@) =~= Seq::<HornModel>::empty());
    while i < cs.len()
        invariant
            i <= cs@.len(),
            vcs == view_sup_formulas(cs@),
            spec_horns(vcs.subrange(0, i as int)) == Ok::<Seq<HornModel>, Seq<char>>(view_horns(out@)),
        decreases cs@.len() - i,
    {
        let ghost pre = vcs.subrange(0, i + 1);
        proof {
            assert(pre.drop_last() =~= vcs.subrange(0, i as int));
            assert(pre.last() == cs@[i as int]@);
        }
        match to_horn_clause(&cs[i]) {
            Ok(h) => {
                let ghost before = out@;
                out.push(h);
                proof {
                    assert(view_horns(out@) =~= view_horns(before).push(h@));
                }
            },
            Err(e) => {
                proof {
                    lemma_horns_failed(vcs, (i + 1) as nat);
                }
                return Err(e);
            },
        }
        i = i + 1;
    }
    proof {
        assert(vcs.subrange(0, cs@.len() as int) =~= vcs);
    }
    Ok(out)
}

proof fn lemma_horns_failed(cs: Seq<SForm>, k: nat)
    requires
        k <= cs.len(),
        spec_horns(cs.subrange(0, k as int)) is Err,
    ensures
        spec_horns(cs) == spec_horns(cs.subrange(0, k as int)),
    decreases cs.len() - k,
{
    if k == cs.len() {
        assert(cs.subrange(0, k as int) =~= cs);
    } else {
        let init = cs.drop_last();
        assert(init.subrange(0, k as int) =~= cs.subrange(0, k as int));
        lemma_horns_failed(init, k);
    }
}

proof fn lemma_program_failed(fs: Seq<FForm>, consts: Seq<Seq<char>>, k: nat)
    requires
        k <= fs.len(),
        spec_program(fs.subrange(0, k as int), consts) is Err,
    ensures
        spec_program(fs, consts) == spec_program(fs.subrange(0, k as int), consts),
    decreases fs.len() - k,
{
    if k == fs.len() {
        assert(fs.subrange(0, k as int) =~= fs);
    } else {
        let init = fs.drop_last();
        assert(init.subrange(0, k as int) =~= fs.subrange(0, k as int));
        lemma_program_failed(init, consts, k);
    }
}

/// Clausifies each assumption and checks that every clause is a definite
/// Horn clause, giving the SLD program (see [`spec_program`]).
pub fn preprocess_assumptions(assumptions: &Vec<FolFormula>, constants: &Vec<String>) -> (r: Result<
    Vec<HornClause>,
    LofError,
>)
    ensures
        match spec_program(view_fol_formulas(assumptions@), view_strings(constants@)) {
            Ok(p) => r matches Ok(v) && view_horns(v@) == p,
            Err(m) => r matches Err(e) && spec_message(e) == m,
        },
{
    let ghost fs = view_fol_formulas(assumptions@);
    let ghost consts = view_strings(constants@);
    let mut program: Vec<HornClause> = Vec::new();
    let mut i: usize = 0;
    assert(fs.subrange(0, 0) =~= Seq::<FForm>::empty());
    assert(view_horns(program@) =~= Seq::<HornModel>::empty());
    while i < assumptions.len()
        invariant
            i <= assumptions@.len(),
            fs == view_fol_formulas(assumptions@),
            consts == view_strings(constants@),
            spec_program(fs.subrange(0, i as int), consts) == Ok::<Seq<HornModel>, Seq<char>>(view_horns(program@)),
        decreases assumptions@.len() - i,
    {
        let ghost pre = fs.subrange(0, i + 1);
        proof {
            assert(pre.drop_last() =~= fs.subrange(0, i as int));
            assert(pre.last() == assumptions@[i as int]@);
        }
        match clausify(&assumptions[i], constants) {
            Ok(clauses) => {
                proof {
                    assert(view_sup_formulas(clauses@) == spec_clausified(assumptions@[i as int]@, consts).unwrap());
                }
                match horn_clauses(&clauses) {
                    Ok(mut hs) => {
                        let ghost before = program@;
                        let ghost added = hs@;
                        program.append(&mut hs);
                        proof {
                            assert(program@ == before + added);
                            assert(view_horns(program@) =~= view_horns(before) + view_horns(added));
                        }
                    },
                    Err(e) => {
                        proof {
                            lemma_program_failed(fs, consts, (i + 1) as nat);
                        }
                        return Err(e);
                    },
                }
            },
            Err(e) => {
                proof {
                    lemma_program_failed(fs, consts, (i + 1) as nat);
                }
                return Err(e);
            },
        }
        i = i + 1;
    }
    proof {
        assert(fs.subrange(0, assumptions@.len() as int) =~= fs);
    }
    Ok(program)
}

/// The atoms of the goal clauses `cs` (see [`spec_goal_atoms`]).
fn goal_atoms(cs: &Vec<SupFormula>) -> (r: Result<Vec<SupFormula>, LofError>)
    ensures
        match spec_goal_atoms(view_sup_formulas(cs@)) {
            Ok(a) => r matches Ok(v) && view_sup_formulas(v@) == a,
            Err(m) => r matches Err(e) && spec_message(e) == m,
        },
{
    let ghost vcs = view_sup_formulas(cs@);
    let mut out: Vec<SupFormula> = Vec::new();
    let mut i: usize = 0;
    assert(vcs.subrange(0, 0) =~= Seq::<SForm>::empty());
    assert(view_sup_formulas(out@) =~= Seq::<SForm>::empty());
    while i < cs.len()
        invariant
            i <= cs@.len(),
            vcs == view_sup_formulas(cs@),
            spec_goal_atoms(vcs.subrange(0, i as int)) == Ok::<Seq<SForm>, Seq<char>>(view_sup_formulas(out@)),
        decreases cs@.len() - i,
    {
        let ghost pre = vcs.subrange(0, i + 1);
        proof {
            assert(pre.drop_last() =~= vcs.subrange(0, i as int));
            assert(pre.last() == cs@[i as int]@);
        }
        match to_horn_clause(&cs[i]) {
            Ok(h) => {
                if h.body.len() != 0 {
                    proof {
                        lemma_goal_atoms_failed(vcs, (i + 1) as nat);
                    }
                    let d = render_sup_formula(&cs[i]);
                    let m = concat(
                        concat("goal ", d.as_str()).as_str(),
                        " isn't a plain atomic subgoal: SLD goals must be atoms",
                    );
                    return Err(LofError::Other(m));
                }
                let ghost before = out@;
                out.push(h.head);
                proof {
                    assert(view_sup_formulas(out@) =~= view_sup_formulas(before).push(h@.0));
                }
            },
            Err(e) => {
                proof {
                    lemma_goal_atoms_failed(vcs, (i + 1) as nat);
                }
                return Err(e);
            },
        }
        i = i + 1;
    }
    proof {
        assert(vcs.subrange(0, cs@.len() as int) =~= vcs);
    }
    Ok(out)
}

proof fn lemma_goal_atoms_failed(cs: Seq<SForm>, k: nat)
    requires
        k <= cs.len(),
        spec_goal_atoms(cs.subrange(0, k as int)) is Err,
    ensures
        spec_goal_atoms(cs) == spec_goal_atoms(cs.subrange(0, k as int)),
    decreases cs.len() - k,
{
    if k == cs.len() {
        assert(cs.subrange(0, k as int) =~= cs);
    } else {
        let init = cs.drop_last();
        assert(init.subrange(0, k as int) =~= cs.subrange(0, k as int));
        lemma_goal_atoms_failed(init, k);
    }
}

proof fn lemma_query_failed(fs: Seq<FForm>, consts: Seq<Seq<char>>, k: nat)
    requires
        k <= fs.len(),
        spec_query(fs.subrange(0, k as int), consts) is Err,
    ensures
        spec_query(fs, consts) == spec_query(fs.subrange(0, k as int), consts),
    decreases fs.len() - k,
{
    if k == fs.len() {
        assert(fs.subrange(0, k as int) =~= fs);
    } else {
        let init = fs.drop_last();
        assert(init.subrange(0, k as int) =~= fs.subrange(0, k as int));
        lemma_query_failed(init, consts, k);
    }
}

/// Clausifies each goal and checks that every clause is a single atom,
/// giving the subgoals to solve left to right (see [`spec_query`]).
pub fn preprocess_goals(goals: &Vec<FolFormula>, constants: &Vec<String>) -> (r: Result<Vec<SupFormula>, LofError>)
    ensures
        match spec_query(view_fol_formulas(goals@), view_strings(constants@)) {
            Ok(q) => r matches Ok(v) && view_sup_formulas(v@) == q,
            Err(m) => r matches Err(e) && spec_message(e) == m,
        },
{
    let ghost fs = view_fol_formulas(goals@);
    let ghost consts = view_strings(constants@);
    let mut subgoals: Vec<SupFormula> = Vec::new();
    let mut i: usize = 0;
    assert(fs.subrange(0, 0) =~= Seq::<FForm>::empty());
    assert(view_sup_formulas(subgoals@) =~= Seq::<SForm>::empty());
    while i < goals.len()
        invariant
            i <= goals@.len(),
            fs == view_fol_formulas(goals@),
            consts == view_strings(constants@),
            spec_query(fs.subrange(0, i as int), consts) == Ok::<Seq<SForm>, Seq<char>>(view_sup_formulas(subgoals@)),
        decreases goals@.len() - i,
    {
        let ghost pre = fs.subrange(0, i + 1);
        proof {
            assert(pre.drop_last() =~= fs.subrange(0, i as int));
            assert(pre.last() == goals@[i as int]@);
        }
        match clausify(&goals[i], constants) {
            Ok(clauses) => {
                match goal_atoms(&clauses) {
                    Ok(mut atoms) => {
                        let ghost before = subgoals@;
                        let ghost added = atoms@;
                        subgoals.append(&mut atoms);
                        proof {
                            assert(subgoals@ == before + added);
                            assert(view_sup_formulas(subgoals@) =~= view_sup_formulas(before) + view_sup_formulas(added));
                        }
                    },
                    Err(e) => {
                        proof {
                            lemma_query_failed(fs, consts, (i + 1) as nat);
                        }
                        return Err(e);
                    },
                }
            },
            Err(e) => {
                proof {
                    lemma_query_failed(fs, consts, (i + 1) as nat);
                }
                return Err(e);
            },
        }
        i = i + 1;
    }
    proof {
        assert(fs.subrange(0, goals@.len() as int) =~= fs);
    }
    Ok(subgoals)
}

//########################### RENAMING APART

/// `t` with `suffix` appended to the name of each of its variables.
pub open spec fn spec_rename_term(t: STerm, suffix: Seq<char>) -> STerm
    decreases t,
{
    match t {
        STerm::Var(x) => STerm::Var(x + suffix),
        STerm::App(f, args) => STerm::App(
            f,
            Seq::new(args.len(), |i: int| if 0 <= i < args.len() { spec_rename_term(args[i], suffix) } else { STerm::Var(Seq::empty()) }),
        ),
    }
}

/// `f` with `suffix` appended to the name of each variable of its terms; a
/// quantified formula is left as it is.
pub open spec fn spec_rename_formula(f: SForm, suffix: Seq<char>) -> SForm
    decreases f,
{
    match f {
        SForm::Atom(p, args) => SForm::Atom(
            p,
            Seq::new(args.len(), |i: int| if 0 <= i < args.len() { spec_rename_term(args[i], suffix) } else { STerm::Var(Seq::empty()) }),
        ),
        SForm::Eq(l, r) => SForm::Eq(spec_rename_term(l, suffix), spec_rename_term(r, suffix)),
        SForm::Not(g) => SForm::Not(Box::new(spec_rename_formula(*g, suffix))),
        SForm::Clause(lits) => SForm::Clause(
            Seq::new(lits.len(), |i: int| if 0 <= i < lits.len() { spec_rename_formula(lits[i], suffix) } else { SForm::Clause(Seq::empty()) }),
        ),
        SForm::ForAll(_, _, _) => f,
    }
}

/// The suffix of the `n`-th renaming apart.
pub open spec fn fresh_suffix(n: nat) -> Seq<char> {
    "#"@ + spec_decimal(n)
}

/// The clause `c` with its variables renamed apart for the `n`-th time.
pub open spec fn spec_freshen(c: HornModel, n: nat) -> HornModel {
    (
        spec_rename_formula(c.0, fresh_suffix(n)),
        Seq::new(c.1.len(), |i: int| spec_rename_formula(c.1[i], fresh_suffix(n))),
    )
}

fn rename_term(term: &SupTerm, suffix: &str) -> (r: SupTerm)
    ensures
        r@ == spec_rename_term(term@, suffix@),
    decreases term,
{
    match term {
        SupTerm::Variable(x) => SupTerm::Variable(concat(x.as_str(), suffix)),
        SupTerm::Application(f, args) => {
            proof {
                lemma_application_view(*f, *args);
            }
            let mut out: Vec<SupTerm> = Vec::new();
            let mut i: usize = 0;
            while i < args.len()
                invariant
                    i <= args@.len(),
                    *term == SupTerm::Application(*f, *args),
                    out@.len() == i,
                    forall|j: int| 0 <= j < i ==> (#[trigger] out@[j])@ == spec_rename_term(args@[j]@, suffix@),
                decreases args@.len() - i,
            {
                proof {
                    assert(decreases_to!(*term => (*term)->Application_1));
                    assert(decreases_to!(*args => args@));
                    assert(decreases_to!(args@ => args@[i as int]));
                }
                out.push(rename_term(&args[i], suffix));
                i = i + 1;
            }
            let g = f.clone();
            proof {
                lemma_application_view(g, out);
                assert(view_sup_terms(out@) =~= spec_rename_term(term@, suffix@)->App_1);
            }
            SupTerm::Application(g, out)
        },
    }
}

fn rename_formula(formula: &SupFormula, suffix: &str) -> (r: SupFormula)
    ensures
        r@ == spec_rename_formula(formula@, suffix@),
    decreases formula,
{
    match formula {
        SupFormula::Atom(p, args) => {
            let mut out: Vec<SupTerm> = Vec::new();
            let mut i: usize = 0;
            while i < args.len()
                invariant
                    i <= args@.len(),
                    out@.len() == i,
                    forall|j: int| 0 <= j < i ==> (#[trigger] out@[j])@ == spec_rename_term(args@[j]@, suffix@),
                decreases args@.len() - i,
            {
                out.push(rename_term(&args[i], suffix));
                i = i + 1;
            }
            let r = SupFormula::Atom(p.clone(), out);
            assert(view_sup_terms(out@) =~= spec_rename_formula(formula@, suffix@)->Atom_1);
            r
        },
        SupFormula::Equality(l, r) => SupFormula::Equality(rename_term(l, suffix), rename_term(r, suffix)),
        SupFormula::Not(g) => SupFormula::Not(Box::new(rename_formula(g, suffix))),
        SupFormula::Clause(lits) => {
            proof {
                lemma_clause_view(*lits);
            }
            let mut out: Vec<SupFormula> = Vec::new();
            let mut i: usize = 0;
            while i < lits.len()
                invariant
                    i <= lits@.len(),
                    *formula == SupFormula::Clause(*lits),
                    out@.len() == i,
                    forall|j: int| 0 <= j < i ==> (#[trigger] out@[j])@ == spec_rename_formula(lits@[j]@, suffix@),
                decreases lits@.len() - i,
            {
                proof {
                    assert(decreases_to!(*formula => (*formula)->Clause_0));
                    assert(decreases_to!(*lits => lits@));
                    assert(decreases_to!(lits@ => lits@[i as int]));
                }
                out.push(rename_formula(&lits[i], suffix));
                i = i + 1;
            }
            proof {
                lemma_clause_view(out);
                assert(view_sup_formulas(out@) =~= spec_rename_formula(formula@, suffix@)->Clause_0);
            }
            SupFormula::Clause(out)
        },
        SupFormula::ForAll(_, _, _) => copy_sup_formula(formula),
    }
}

/// A copy of `clause` whose variables are renamed apart for the `n`-th
/// time: every use of a program clause in a search gets its own variables,
/// so that two uses of one recursive rule do not share bindings.
fn freshen_clause(clause: &HornClause, n: u64) -> (r: HornClause)
    ensures
        r@ == spec_freshen(clause@, n as nat),
{
    let suffix = concat("#", decimal_u64(n).as_str());
    let head = rename_formula(&clause.head, suffix.as_str());
    let mut body: Vec<SupFormula> = Vec::new();
    let mut i: usize = 0;
    while i < clause.body.len()
        invariant
            i <= clause.body@.len(),
            suffix@ == fresh_suffix(n as nat),
            body@.len() == i,
            forall|j: int| 0 <= j < i ==> (#[trigger] body@[j])@ == spec_rename_formula(clause.body@[j]@, suffix@),
        decreases clause.body@.len() - i,
    {
        body.push(rename_formula(&clause.body[i], suffix.as_str()));
        i = i + 1;
    }
    let r = HornClause { head, body };
    assert(r@.1 =~= spec_freshen(clause@, n as nat).1);
    r
}

//########################### SEARCH

/// The model of a list of substitutions.
pub open spec fn view_substs(v: Seq<SupSubstitution>) -> Seq<Bindings> {
    Seq::new(v.len(), |i: int| v[i]@)
}

/// Bound on the depth of a search: each resolution step spends one unit.
pub const SEARCH_FUEL: u64 = 18446744073709551615;

/// Depth-first SLD search of `goals` under the bindings `s`, within `fuel`
/// resolution steps, renaming clauses apart from the `counter`-th renaming
/// on: the answers found, in order, whether the search stopped at the first
/// answer (`first`), and the next renaming number.
pub open spec fn spec_derive(
    goals: Seq<SForm>,
    s: Bindings,
    program: Seq<HornModel>,
    fuel: nat,
    counter: nat,
    first: bool,
) -> (Seq<Bindings>, bool, nat)
    decreases fuel, 0int, 0int,
{
    if goals.len() == 0 {
        (seq![s], first, counter)
    } else if fuel == 0 {
        (Seq::empty(), false, counter)
    } else {
        spec_derive_clauses(
            spec_apply_formula(s, goals[0]),
            goals.drop_first(),
            s,
            program,
            (fuel - 1) as nat,
            counter,
            first,
            0,
        )
    }
}

/// The search of `goal` (already under `s`), then of `rest`, trying the
/// program clauses from the `k`-th one on: a clause whose renamed head
/// unifies with `goal` replaces it by its body under the composed bindings.
pub open spec fn spec_derive_clauses(
    goal: SForm,
    rest: Seq<SForm>,
    s: Bindings,
    program: Seq<HornModel>,
    fuel: nat,
    counter: nat,
    first: bool,
    k: nat,
) -> (Seq<Bindings>, bool, nat)
    decreases fuel, 1int, program.len() - k,
{
    if k >= program.len() || counter >= u64::MAX {
        (Seq::empty(), false, counter)
    } else {
        let candidate = spec_freshen(program[k as int], counter);
        match spec_formulas_unify(goal, candidate.0) {
            None => spec_derive_clauses(goal, rest, s, program, fuel, counter + 1, first, k + 1),
            Some(mgu) => {
                let sub = spec_derive(candidate.1 + rest, spec_merge(s, mgu), program, fuel, counter + 1, first);
                if sub.1 {
                    sub
                } else {
                    let more = spec_derive_clauses(goal, rest, s, program, fuel, sub.2, first, k + 1);
                    (sub.0 + more.0, more.1, more.2)
                }
            },
        }
    }
}

/// The SLD search of `goals` (see [`spec_derive`]): appends the answers to
/// `solutions` and says whether it stopped at the first one.
fn sld_derive(
    goals: &Vec<SupFormula>,
    subst: &SupSubstitution,
    program: &Vec<HornClause>,
    fuel: u64,
    counter: &mut u64,
    first: bool,
    solutions: &mut Vec<SupSubstitution>,
) -> (stopped: bool)
    ensures
        ({
            let r = spec_derive(
                view_sup_formulas(goals@),
                subst@,
                view_horns(program@),
                fuel as nat,
                *old(counter) as nat,
                first,
            );
            &&& view_substs(final(solutions)@) == view_substs(old(solutions)@) + r.0
            &&& stopped == r.1
            &&& *final(counter) as nat == r.2
        }),
    decreases fuel, 0int, 0int,
{
    if goals.len() == 0 {
        let ghost before = solutions@;
        let answer = subst.clone();
        solutions.push(answer);
        proof {
            assert(view_substs(solutions@) =~= view_substs(before) + seq![subst@]);
        }
        return first;
    }
    if fuel == 0 {
        proof {
            assert(view_substs(solutions@) =~= view_substs(solutions@) + Seq::<Bindings>::empty());
        }
        return false;
    }
    let goal = formula_apply_substitution(&goals[0], subst);
    let mut rest: Vec<SupFormula> = Vec::new();
    let mut i: usize = 1;
    while i < goals.len()
        invariant
            1 <= i <= goals@.len(),
            rest@.len() == i - 1,
            forall|j: int| 0 <= j < i - 1 ==> (#[trigger] rest@[j])@ == goals@[j + 1]@,
        decreases goals@.len() - i,
    {
        rest.push(copy_sup_formula(&goals[i]));
        i = i + 1;
    }
    proof {
        assert(view_sup_formulas(rest@) =~= view_sup_formulas(goals@).drop_first());
    }
    derive_clauses(&goal, &rest, subst, program, fuel - 1, counter, first, 0, solutions)
}

/// The search of `goal`, then of `rest`, trying the program clauses from
/// the `k`-th one on (see [`spec_derive_clauses`]).
fn derive_clauses(
    goal: &SupFormula,
    rest: &Vec<SupFormula>,
    subst: &SupSubstitution,
    program: &Vec<HornClause>,
    fuel: u64,
    counter: &mut u64,
    first: bool,
    k: usize,
    solutions: &mut Vec<SupSubstitution>,
) -> (stopped: bool)
    requires
        k <= program@.len(),
    ensures
        ({
            let r = spec_derive_clauses(
                goal@,
                view_sup_formulas(rest@),
                subst@,
                view_horns(program@),
                fuel as nat,
                *old(counter) as nat,
                first,
                k as nat,
            );
            &&& view_substs(final(solutions)@) == view_substs(old(solutions)@) + r.0
            &&& stopped == r.1
            &&& *final(counter) as nat == r.2
        }),
    decreases fuel, 1int, program@.len() - k,
{
    if k >= program.len() || *counter == u64::MAX {
        proof {
            assert(view_substs(solutions@) =~= view_substs(solutions@) + Seq::<Bindings>::empty());
        }
        return false;
    }
    let candidate = freshen_clause(&program[k], *counter);
    *counter = *counter + 1;
    match formulas_unify(goal, &candidate.head) {
        Err(_) => derive_clauses(goal, rest, subst, program, fuel, counter, first, k + 1, solutions),
        Ok(mgu) => {
            let mut extended = subst.clone();
            extended.merge(&mgu);
            let mut next_goals = copy_sup_formulas(&candidate.body);
            let mut tail = copy_sup_formulas(rest);
            let ghost nb = next_goals@;
            let ghost nt = tail@;
            next_goals.append(&mut tail);
            proof {
                assert(next_goals@ == nb + nt);
                assert(view_sup_formulas(next_goals@) =~= candidate@.1 + view_sup_formulas(rest@));
            }
            let ghost mid = solutions@;
            if sld_derive(&next_goals, &extended, program, fuel, counter, first, solutions) {
                return true;
            }
            let ghost after = solutions@;
            let stopped = derive_clauses(goal, rest, subst, program, fuel, counter, first, k + 1, solutions);
            proof {
                assert(view_substs(solutions@) =~= view_substs(mid) + (view_substs(after).subrange(
                    view_substs(mid).len() as int,
                    view_substs(after).len() as int,
                ) + view_substs(solutions@).subrange(view_substs(after).len() as int, view_substs(solutions@).len() as int)));
            }
            stopped
        },
    }
}

/// The first answer of the search of `query` in `program`, if any.
pub open spec fn spec_first_answer(program: Seq<HornModel>, query: Seq<SForm>) -> Option<Bindings> {
    let answers = spec_derive(query, Seq::empty(), program, SEARCH_FUEL as nat, 0, true).0;
    if answers.len() > 0 {
        Some(answers[0])
    } else {
        None
    }
}

/// Every answer of the search of `query` in `program`, in the order the
/// depth-first search finds them.
pub open spec fn spec_all_answers(program: Seq<HornModel>, query: Seq<SForm>) -> Seq<Bindings> {
    spec_derive(query, Seq::empty(), program, SEARCH_FUEL as nat, 0, false).0
}

/// The first SLD proof of `goals` from `program`, as the answer
/// substitution, if there is one (see [`spec_first_answer`]).
pub fn sld_prove_first(program: &Vec<HornClause>, goals: &Vec<SupFormula>) -> (r: Option<SupSubstitution>)
    ensures
        match spec_first_answer(view_horns(program@), view_sup_formulas(goals@)) {
            Some(s) => r matches Some(x) && x@ == s,
            None => r is None,
        },
{
    let mut solutions: Vec<SupSubstitution> = Vec::new();
    let mut counter: u64 = 0;
    let empty = SupSubstitution::empty();
    proof {
        assert(view_substs(solutions@) =~= Seq::<Bindings>::empty());
    }
    sld_derive(goals, &empty, program, SEARCH_FUEL, &mut counter, true, &mut solutions);
    proof {
        let answers = spec_derive(view_sup_formulas(goals@), Seq::empty(), view_horns(program@), SEARCH_FUEL as nat, 0, true).0;
        assert(view_substs(solutions@) =~= answers);
    }
    if solutions.len() > 0 {
        proof {
            assert(view_substs(solutions@)[0] == solutions@[0]@);
        }
        Some(solutions[0].clone())
    } else {
        None
    }
}

/// Every SLD proof of `goals` from `program`, exploring every backtracking
/// alternative (see [`spec_all_answers`]).
pub fn sld_prove_all(program: &Vec<HornClause>, goals: &Vec<SupFormula>) -> (r: Vec<SupSubstitution>)
    ensures
        view_substs(r@) == spec_all_answers(view_horns(program@), view_sup_formulas(goals@)),
{
    let mut solutions: Vec<SupSubstitution> = Vec::new();
    let mut counter: u64 = 0;
    let empty = SupSubstitution::empty();
    proof {
        assert(view_substs(solutions@) =~= Seq::<Bindings>::empty());
    }
    sld_derive(goals, &empty, program, SEARCH_FUEL, &mut counter, false, &mut solutions);
    proof {
        let answers = spec_derive(view_sup_formulas(goals@), Seq::empty(), view_horns(program@), SEARCH_FUEL as nat, 0, false).0;
        assert(view_substs(solutions@) =~= answers);
    }
    solutions
}

/// What [`sld_solve`] answers when the goals cannot be derived.
pub const SLD_FAILURE: &'static str = "SLD resolution failed: couldn't derive the goal(s) from the given assumptions";

/// Clausifies `assumptions` into a Horn program and `goals` into subgoals,
/// then finds a first SLD proof, with the substitution that witnesses it.
pub fn sld_solve(assumptions: &Vec<FolFormula>, goals: &Vec<FolFormula>, constants: &Vec<String>) -> (r: Result<
    SupSubstitution,
    LofError,
>)
    ensures
        match spec_program(view_fol_formulas(assumptions@), view_strings(constants@)) {
            Err(m) => r matches Err(e) && spec_message(e) == m,
            Ok(p) => match spec_query(view_fol_formulas(goals@), view_strings(constants@)) {
                Err(m) => r matches Err(e) && spec_message(e) == m,
                Ok(q) => match spec_first_answer(p, q) {
                    Some(s) => r matches Ok(x) && x@ == s,
                    None => r matches Err(e) && spec_message(e) == SLD_FAILURE@,
                },
            },
        },
{
    let program = match preprocess_assumptions(assumptions, constants) {
        Ok(p) => p,
        Err(e) => return Err(e),
    };
    let query = match preprocess_goals(goals, constants) {
        Ok(q) => q,
        Err(e) => return Err(e),
    };
    match sld_prove_first(&program, &query) {
        Some(s) => Ok(s),
        None => Err(LofError::custom(SLD_FAILURE)),
    }
}

/// As [`sld_solve`], but collects every proof found by backtracking through
/// all the alternatives.
pub fn sld_solve_all(assumptions: &Vec<FolFormula>, goals: &Vec<FolFormula>, constants: &Vec<String>) -> (r: Result<
    Vec<SupSubstitution>,
    LofError,
>)
    ensures
        match spec_program(view_fol_formulas(assumptions@), view_strings(constants@)) {
            Err(m) => r matches Err(e) && spec_message(e) == m,
            Ok(p) => match spec_query(view_fol_formulas(goals@), view_strings(constants@)) {
                Err(m) => r matches Err(e) && spec_message(e) == m,
                Ok(q) => r matches Ok(v) && view_substs(v@) == spec_all_answers(p, q),
            },
        },
{
    let program = match preprocess_assumptions(assumptions, constants) {
        Ok(p) => p,
        Err(e) => return Err(e),
    };
    let query = match preprocess_goals(goals, constants) {
        Ok(q) => q,
        Err(e) => return Err(e),
    };
    Ok(sld_prove_all(&program, &query))
}

//########################### LAWS

proof fn lemma_scan_shape(lits: Seq<SForm>)
    ensures
        spec_horn_scan(lits) matches HornScan::Scanned(head, body) ==> {
            &&& head matches Some(h) ==> h is Atom
            &&& forall|i: int| 0 <= i < body.len() ==> #[trigger] body[i] is Atom
            &&& lits.len() == body.len() + if head is Some { 1int } else { 0int }
        },
    decreases lits.len(),
{
    if lits.len() > 0 {
        lemma_scan_shape(lits.drop_last());
    }
}

/// A definite Horn clause splits into an atom for its head and atoms for
/// its body: exactly one positive literal, every other literal a negated
/// atom.
pub proof fn law_horn_clause_shape(c: SForm)
    requires
        spec_horn(c) is Some,
    ensures
        spec_horn(c).unwrap().0 is Atom,
        forall|i: int| 0 <= i < spec_horn(c).unwrap().1.len() ==> #[trigger] spec_horn(c).unwrap().1[i] is Atom,
        spec_unpack_literals(c).len() == spec_horn(c).unwrap().1.len() + 1,
{
    lemma_scan_shape(spec_unpack_literals(c));
}

proof fn lemma_derive_first_all(goals: Seq<SForm>, s: Bindings, program: Seq<HornModel>, fuel: nat, counter: nat)
    ensures
        ({
            let a = spec_derive(goals, s, program, fuel, counter, true);
            let b = spec_derive(goals, s, program, fuel, counter, false);
            &&& !b.1
            &&& b.0.len() == 0 ==> a == b
            &&& b.0.len() > 0 ==> a.0 == seq![b.0[0]] && a.1
        }),
    decreases fuel, 0int, 0int,
{
    if goals.len() > 0 && fuel > 0 {
        lemma_clauses_first_all(
            spec_apply_formula(s, goals[0]),
            goals.drop_first(),
            s,
            program,
            (fuel - 1) as nat,
            counter,
            0,
        );
    }
}

proof fn lemma_clauses_first_all(
    goal: SForm,
    rest: Seq<SForm>,
    s: Bindings,
    program: Seq<HornModel>,
    fuel: nat,
    counter: nat,
    k: nat,
)
    ensures
        ({
            let a = spec_derive_clauses(goal, rest, s, program, fuel, counter, true, k);
            let b = spec_derive_clauses(goal, rest, s, program, fuel, counter, false, k);
            &&& !b.1
            &&& b.0.len() == 0 ==> a == b
            &&& b.0.len() > 0 ==> a.0 == seq![b.0[0]] && a.1
        }),
    decreases fuel, 1int, program.len() - k,
{
    if !(k >= program.len() || counter >= u64::MAX) {
        let candidate = spec_freshen(program[k as int], counter);
        match spec_formulas_unify(goal, candidate.0) {
            None => {
                lemma_clauses_first_all(goal, rest, s, program, fuel, counter + 1, k + 1);
            },
            Some(mgu) => {
                let goals = candidate.1 + rest;
                let next = spec_merge(s, mgu);
                lemma_derive_first_all(goals, next, program, fuel, counter + 1);
                let sub_a = spec_derive(goals, next, program, fuel, counter + 1, true);
                let sub_b = spec_derive(goals, next, program, fuel, counter + 1, false);
                lemma_clauses_first_all(goal, rest, s, program, fuel, sub_b.2, k + 1);
                let more_b = spec_derive_clauses(goal, rest, s, program, fuel, sub_b.2, false, k + 1);
                if sub_b.0.len() == 0 {
                    assert(sub_b.0 + more_b.0 =~= more_b.0);
                } else {
                    assert((sub_b.0 + more_b.0)[0] == sub_b.0[0]);
                }
            },
        }
    }
}

/// The first proof is the first of all the proofs: [`sld_prove_first`]
/// answers what [`sld_prove_all`] finds first, and nothing when it finds
/// nothing.
pub proof fn law_first_answer_is_first_of_all(program: Seq<HornModel>, query: Seq<SForm>)
    ensures
        spec_first_answer(program, query) == (if spec_all_answers(program, query).len() > 0 {
            Some(spec_all_answers(program, query)[0])
        } else {
            None::<Bindings>
        }),
{
    lemma_derive_first_all(query, Seq::empty(), program, SEARCH_FUEL as nat, 0);
}

} // verus!
