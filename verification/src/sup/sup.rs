use vstd::prelude::*;
use vstd::string::*;
use crate::text::{join, quote, spec_join, spec_quote};

verus! {

/// First order terms of the superposition calculus.
#[derive(Debug, PartialEq)]
pub enum SupTerm {
    Variable(String),
    /// (function symbol, arguments); a constant has no arguments
    Application(String, Vec<SupTerm>),
}

/// Mathematical model of a [`SupTerm`].
#[verifier::ext_equal]
pub enum STerm {
    Var(Seq<char>),
    App(Seq<char>, Seq<STerm>),
}

pub open spec fn view_sup_term(t: SupTerm) -> STerm
    decreases t,
{
    match t {
        SupTerm::Variable(n) => STerm::Var(n@),
        SupTerm::Application(f, args) => STerm::App(
            f@,
            Seq::new(args@.len(), |i: int| if 0 <= i < args@.len() { view_sup_term(args@[i]) } else { STerm::Var(Seq::empty()) }),
        ),
    }
}

impl View for SupTerm {
    type V = STerm;

    open spec fn view(&self) -> STerm {
        view_sup_term(*self)
    }
}

/// The model of a list of terms.
pub open spec fn view_sup_terms(ts: Seq<SupTerm>) -> Seq<STerm> {
    Seq::new(ts.len(), |i: int| if 0 <= i < ts.len() { ts[i]@ } else { STerm::Var(Seq::empty()) })
}

pub proof fn lemma_application_view(f: String, args: Vec<SupTerm>)
    ensures
        SupTerm::Application(f, args)@ == STerm::App(f@, view_sup_terms(args@)),
{
    assert(view_sup_terms(args@) =~= (SupTerm::Application(f, args)@)->App_1);
}

/// Formulas of the superposition calculus: literals and clauses.
#[derive(Debug, PartialEq)]
pub enum SupFormula {
    /// (predicate, arguments)
    Atom(String, Vec<SupTerm>),
    Equality(SupTerm, SupTerm),
    Not(Box<SupFormula>),
    /// disjunction of literals
    Clause(Vec<SupFormula>),
    /// (variable, type, body)
    ForAll(String, Box<SupFormula>, Box<SupFormula>),
}

/// Mathematical model of a [`SupFormula`].
#[verifier::ext_equal]
pub enum SForm {
    Atom(Seq<char>, Seq<STerm>),
    Eq(STerm, STerm),
    Not(Box<SForm>),
    Clause(Seq<SForm>),
    ForAll(Seq<char>, Box<SForm>, Box<SForm>),
}

pub open spec fn view_sup_formula(f: SupFormula) -> SForm
    decreases f,
{
    match f {
        SupFormula::Atom(p, args) => SForm::Atom(p@, view_sup_terms(args@)),
        SupFormula::Equality(l, r) => SForm::Eq(l@, r@),
        SupFormula::Not(inner) => SForm::Not(Box::new(view_sup_formula(*inner))),
        SupFormula::Clause(lits) => SForm::Clause(
            Seq::new(
                lits@.len(),
                |i: int| if 0 <= i < lits@.len() { view_sup_formula(lits@[i]) } else { SForm::Clause(Seq::empty()) },
            ),
        ),
        SupFormula::ForAll(v, ty, body) => SForm::ForAll(
            v@,
            Box::new(view_sup_formula(*ty)),
            Box::new(view_sup_formula(*body)),
        ),
    }
}

impl View for SupFormula {
    type V = SForm;

    open spec fn view(&self) -> SForm {
        view_sup_formula(*self)
    }
}

/// The model of a list of formulas.
pub open spec fn view_sup_formulas(fs: Seq<SupFormula>) -> Seq<SForm> {
    Seq::new(fs.len(), |i: int| if 0 <= i < fs.len() { fs[i]@ } else { SForm::Clause(Seq::empty()) })
}

pub proof fn lemma_clause_view(lits: Vec<SupFormula>)
    ensures
        SupFormula::Clause(lits)@ == SForm::Clause(view_sup_formulas(lits@)),
{
    assert(view_sup_formulas(lits@) =~= (SupFormula::Clause(lits)@)->Clause_0);
}

/// A deep copy of `t`.
pub fn copy_sup_term(t: &SupTerm) -> (r: SupTerm)
    ensures
        r@ == t@,
    decreases t,
{
    match t {
        SupTerm::Variable(n) => SupTerm::Variable(n.clone()),
        SupTerm::Application(f, args) => {
            let mut out: Vec<SupTerm> = Vec::new();
            let mut i: usize = 0;
            while i < args.len()
                invariant
                    *t == SupTerm::Application(*f, *args),
                    i <= args@.len(),
                    out@.len() == i,
                    forall|j: int| 0 <= j < i ==> (#[trigger] out@[j])@ == args@[j]@,
                decreases args@.len() - i,
            {
                proof {
                    assert(decreases_to!(*t => (*t)->Application_1));
                    assert(decreases_to!(*args => args@));
                    assert(decreases_to!(args@ => args@[i as int]));
                }
                out.push(copy_sup_term(&args[i]));
                i = i + 1;
            }
            proof {
                lemma_application_view(*f, out);
                lemma_application_view(*f, *args);
                assert(view_sup_terms(out@) =~= view_sup_terms(args@));
            }
            SupTerm::Application(f.clone(), out)
        },
    }
}

/// A deep copy of a list of terms.
pub fn copy_sup_terms(ts: &Vec<SupTerm>) -> (r: Vec<SupTerm>)
    ensures
        view_sup_terms(r@) == view_sup_terms(ts@),
{
    let mut out: Vec<SupTerm> = Vec::new();
    let mut i: usize = 0;
    while i < ts.len()
        invariant
            i <= ts@.len(),
            out@.len() == i,
            forall|j: int| 0 <= j < i ==> (#[trigger] out@[j])@ == ts@[j]@,
        decreases ts@.len() - i,
    {
        out.push(copy_sup_term(&ts[i]));
        i = i + 1;
    }
    assert(view_sup_terms(out@) =~= view_sup_terms(ts@));
    out
}

/// A deep copy of `f`.
pub fn copy_sup_formula(f: &SupFormula) -> (r: SupFormula)
    ensures
        r@ == f@,
    decreases f,
{
    match f {
        SupFormula::Atom(p, args) => SupFormula::Atom(p.clone(), copy_sup_terms(args)),
        SupFormula::Equality(l, r) => SupFormula::Equality(copy_sup_term(l), copy_sup_term(r)),
        SupFormula::Not(inner) => SupFormula::Not(Box::new(copy_sup_formula(inner))),
        SupFormula::Clause(lits) => {
            let mut out: Vec<SupFormula> = Vec::new();
            let mut i: usize = 0;
            while i < lits.len()
                invariant
                    *f == SupFormula::Clause(*lits),
                    i <= lits@.len(),
                    out@.len() == i,
                    forall|j: int| 0 <= j < i ==> (#[trigger] out@[j])@ == lits@[j]@,
                decreases lits@.len() - i,
            {
                proof {
                    assert(decreases_to!(*f => (*f)->Clause_0));
                    assert(decreases_to!(*lits => lits@));
                    assert(decreases_to!(lits@ => lits@[i as int]));
                }
                out.push(copy_sup_formula(&lits[i]));
                i = i + 1;
            }
            proof {
                lemma_clause_view(out);
                lemma_clause_view(*lits);
                assert(view_sup_formulas(out@) =~= view_sup_formulas(lits@));
            }
            SupFormula::Clause(out)
        },
        SupFormula::ForAll(v, ty, body) => SupFormula::ForAll(
            v.clone(),
            Box::new(copy_sup_formula(ty)),
            Box::new(copy_sup_formula(body)),
        ),
    }
}

/// A deep copy of a list of formulas.
pub fn copy_sup_formulas(fs: &Vec<SupFormula>) -> (r: Vec<SupFormula>)
    ensures
        view_sup_formulas(r@) == view_sup_formulas(fs@),
{
    let mut out: Vec<SupFormula> = Vec::new();
    let mut i: usize = 0;
    while i < fs.len()
        invariant
            i <= fs@.len(),
            out@.len() == i,
            forall|j: int| 0 <= j < i ==> (#[trigger] out@[j])@ == fs@[j]@,
        decreases fs@.len() - i,
    {
        out.push(copy_sup_formula(&fs[i]));
        i = i + 1;
    }
    assert(view_sup_formulas(out@) =~= view_sup_formulas(fs@));
    out
}

impl Clone for SupTerm {
    fn clone(&self) -> (r: Self)
        ensures
            r@ == self@,
    {
        copy_sup_term(self)
    }
}

impl Clone for SupFormula {
    fn clone(&self) -> (r: Self)
        ensures
            r@ == self@,
    {
        copy_sup_formula(self)
    }
}

/// The text of a term, in the shape of its constructors:
/// `Variable("x")`, `Application("f", [...])`.
pub open spec fn spec_render_sup_term(t: STerm) -> Seq<char>
    decreases t,
{
    match t {
        STerm::Var(n) => "Variable("@ + spec_quote(n) + ")"@,
        STerm::App(f, args) => "Application("@ + spec_quote(f) + ", ["@ + spec_join(spec_render_sup_terms(args)) + "])"@,
    }
}

/// The texts of `ts`, in order.
pub open spec fn spec_render_sup_terms(ts: Seq<STerm>) -> Seq<Seq<char>>
    decreases ts,
{
    if ts.len() == 0 {
        Seq::empty()
    } else {
        spec_render_sup_terms(ts.subrange(0, ts.len() - 1)).push(spec_render_sup_term(ts[ts.len() - 1]))
    }
}

/// The text of a formula, in the shape of its constructors:
/// `Atom("P", [...])`, `Equality(l, r)`, `Not(f)`, `Clause([...])`, `ForAll("x", t, b)`.
pub open spec fn spec_render_sup_formula(f: SForm) -> Seq<char>
    decreases f,
{
    match f {
        SForm::Atom(p, args) => "Atom("@ + spec_quote(p) + ", ["@ + spec_join(spec_render_sup_terms(args)) + "])"@,
        SForm::Eq(l, r) => "Equality("@ + spec_render_sup_term(l) + ", "@ + spec_render_sup_term(r) + ")"@,
        SForm::Not(inner) => "Not("@ + spec_render_sup_formula(*inner) + ")"@,
        SForm::Clause(lits) => "Clause(["@ + spec_join(spec_render_sup_formulas(lits)) + "])"@,
        SForm::ForAll(v, ty, body) => "ForAll("@ + spec_quote(v) + ", "@ + spec_render_sup_formula(*ty) + ", "@
            + spec_render_sup_formula(*body) + ")"@,
    }
}

/// The texts of `fs`, in order.
pub open spec fn spec_render_sup_formulas(fs: Seq<SForm>) -> Seq<Seq<char>>
    decreases fs,
{
    if fs.len() == 0 {
        Seq::empty()
    } else {
        spec_render_sup_formulas(fs.subrange(0, fs.len() - 1)).push(spec_render_sup_formula(fs[fs.len() - 1]))
    }
}

/// The renderings of `ts`, in order.
fn render_sup_terms(ts: &Vec<SupTerm>) -> (r: Vec<String>)
    ensures
        r@.map_values(|p: String| p@) == spec_render_sup_terms(view_sup_terms(ts@)),
    decreases ts,
{
    let ghost vs = view_sup_terms(ts@);
    let mut out: Vec<String> = Vec::new();
    let mut i: usize = 0;
    while i < ts.len()
        invariant
            i <= ts@.len(),
            vs == view_sup_terms(ts@),
            out@.map_values(|p: String| p@) == spec_render_sup_terms(vs.subrange(0, i as int)),
        decreases ts@.len() - i,
    {
        proof {
            assert(decreases_to!(ts => ts@));
            assert(decreases_to!(ts@ => ts@[i as int]));
            let pre = vs.subrange(0, i + 1);
            assert(pre.subrange(0, pre.len() - 1) =~= vs.subrange(0, i as int));
            assert(pre[pre.len() - 1] == ts@[i as int]@);
        }
        let ghost before = out@.map_values(|p: String| p@);
        out.push(render_sup_term(&ts[i]));
        proof {
            assert(out@.map_values(|p: String| p@) =~= before.push(spec_render_sup_term(ts@[i as int]@)));
        }
        i = i + 1;
    }
    assert(vs.subrange(0, ts@.len() as int) =~= vs);
    out
}

/// [`spec_render_sup_term`], computed.
pub fn render_sup_term(t: &SupTerm) -> (r: String)
    ensures
        r@ == spec_render_sup_term(t@),
    decreases t,
{
    match t {
        SupTerm::Variable(n) => {
            let mut out = String::from_str("Variable(");
            out.append(quote(n.as_str()).as_str());
            out.append(")");
            assert(t@ == STerm::Var(n@));
            assert(out@ =~= spec_render_sup_term(t@));
            out
        },
        SupTerm::Application(f, args) => {
            proof {
                assert(decreases_to!(*t => (*t)->Application_1));
            }
            let parts = render_sup_terms(args);
            let mut out = String::from_str("Application(");
            out.append(quote(f.as_str()).as_str());
            out.append(", [");
            out.append(join(&parts).as_str());
            out.append("])");
            proof {
                lemma_application_view(*f, *args);
                assert(out@ =~= spec_render_sup_term(t@));
            }
            out
        },
    }
}

/// [`spec_render_sup_formula`], computed.
pub fn render_sup_formula(f: &SupFormula) -> (r: String)
    ensures
        r@ == spec_render_sup_formula(f@),
    decreases f,
{
    match f {
        SupFormula::Atom(p, args) => {
            let parts = render_sup_terms(args);
            let mut out = String::from_str("Atom(");
            out.append(quote(p.as_str()).as_str());
            out.append(", [");
            out.append(join(&parts).as_str());
            out.append("])");
            assert(f@ == SForm::Atom(p@, view_sup_terms(args@)));
            assert(out@ =~= spec_render_sup_formula(f@));
            out
        },
        SupFormula::Equality(l, r) => {
            let mut out = String::from_str("Equality(");
            out.append(render_sup_term(l).as_str());
            out.append(", ");
            out.append(render_sup_term(r).as_str());
            out.append(")");
            assert(out@ =~= spec_render_sup_formula(f@));
            out
        },
        SupFormula::Not(inner) => {
            let mut out = String::from_str("Not(");
            out.append(render_sup_formula(inner).as_str());
            out.append(")");
            assert(out@ =~= spec_render_sup_formula(f@));
            out
        },
        SupFormula::Clause(lits) => {
            let ghost ls = view_sup_formulas(lits@);
            let mut parts: Vec<String> = Vec::new();
            let mut i: usize = 0;
            while i < lits.len()
                invariant
                    *f == SupFormula::Clause(*lits),
                    ls == view_sup_formulas(lits@),
                    i <= lits@.len(),
                    parts@.map_values(|p: String| p@) == spec_render_sup_formulas(ls.subrange(0, i as int)),
                decreases lits@.len() - i,
            {
                proof {
                    assert(decreases_to!(*f => (*f)->Clause_0));
                    assert(decreases_to!(*lits => lits@));
                    assert(decreases_to!(lits@ => lits@[i as int]));
                    let pre = ls.subrange(0, i + 1);
                    assert(pre.subrange(0, pre.len() - 1) =~= ls.subrange(0, i as int));
                    assert(pre[pre.len() - 1] == lits@[i as int]@);
                }
                let ghost before = parts@.map_values(|p: String| p@);
                parts.push(render_sup_formula(&lits[i]));
                proof {
                    assert(parts@.map_values(|p: String| p@) =~= before.push(spec_render_sup_formula(lits@[i as int]@)));
                }
                i = i + 1;
            }
            let mut out = String::from_str("Clause([");
            out.append(join(&parts).as_str());
            out.append("])");
            proof {
                assert(ls.subrange(0, lits@.len() as int) =~= ls);
                lemma_clause_view(*lits);
                assert(out@ =~= spec_render_sup_formula(f@));
            }
            out
        },
        SupFormula::ForAll(v, ty, body) => {
            let mut out = String::from_str("ForAll(");
            out.append(quote(v.as_str()).as_str());
            out.append(", ");
            out.append(render_sup_formula(ty).as_str());
            out.append(", ");
            out.append(render_sup_formula(body).as_str());
            out.append(")");
            assert(out@ =~= spec_render_sup_formula(f@));
            out
        },
    }
}

/// The literals of a clause; any other formula is a clause of one literal.
pub open spec fn spec_unpack_literals(f: SForm) -> Seq<SForm> {
    match f {
        SForm::Clause(lits) => lits,
        _ => seq![f],
    }
}

/// The literals of `clause` (see [`spec_unpack_literals`]).
pub fn unpack_literals(clause: &SupFormula) -> (r: Vec<SupFormula>)
    ensures
        view_sup_formulas(r@) == spec_unpack_literals(clause@),
{
    match clause {
        SupFormula::Clause(lits) => {
            proof {
                lemma_clause_view(*lits);
            }
            copy_sup_formulas(lits)
        },
        _ => {
            let v = vec![copy_sup_formula(clause)];
            assert(view_sup_formulas(v@) =~= seq![clause@]);
            v
        },
    }
}

} // verus!
