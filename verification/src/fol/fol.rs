use vstd::prelude::*;

verus! {

/// First order terms.
#[derive(Debug, PartialEq)]
pub enum FolTerm {
    Variable(String),
    /// (function symbol, arguments)
    Application(String, Vec<FolTerm>),
}

/// Mathematical model of a [`FolTerm`].
#[verifier::ext_equal]
pub enum FTerm {
    Var(Seq<char>),
    App(Seq<char>, Seq<FTerm>),
}

pub open spec fn view_fol_term(t: FolTerm) -> FTerm
    decreases t,
{
    match t {
        FolTerm::Variable(n) => FTerm::Var(n@),
        FolTerm::Application(f, args) => FTerm::App(
            f@,
            Seq::new(args@.len(), |i: int| if 0 <= i < args@.len() { view_fol_term(args@[i]) } else { FTerm::Var(Seq::empty()) }),
        ),
    }
}

impl View for FolTerm {
    type V = FTerm;

    open spec fn view(&self) -> FTerm {
        view_fol_term(*self)
    }
}

/// The model of a list of terms.
pub open spec fn view_fol_terms(ts: Seq<FolTerm>) -> Seq<FTerm> {
    Seq::new(ts.len(), |i: int| if 0 <= i < ts.len() { ts[i]@ } else { FTerm::Var(Seq::empty()) })
}

pub proof fn lemma_fol_application_view(f: String, args: Vec<FolTerm>)
    ensures
        FolTerm::Application(f, args)@ == FTerm::App(f@, view_fol_terms(args@)),
{
    assert(view_fol_terms(args@) =~= (FolTerm::Application(f, args)@)->App_1);
}

/// First order formulas.
#[derive(Debug, PartialEq)]
pub enum FolFormula {
    /// (predicate, arguments)
    Predicate(String, Vec<FolTerm>),
    Not(Box<FolFormula>),
    Conjunction(Vec<FolFormula>),
    Disjunction(Vec<FolFormula>),
    /// (premise, conclusion)
    Arrow(Box<FolFormula>, Box<FolFormula>),
    /// (variable, type, body)
    ForAll(String, Box<FolFormula>, Box<FolFormula>),
}

/// Mathematical model of a [`FolFormula`].
#[verifier::ext_equal]
pub enum FForm {
    Pred(Seq<char>, Seq<FTerm>),
    Not(Box<FForm>),
    And(Seq<FForm>),
    Or(Seq<FForm>),
    Imp(Box<FForm>, Box<FForm>),
    ForAll(Seq<char>, Box<FForm>, Box<FForm>),
}

pub open spec fn view_fol_formula(f: FolFormula) -> FForm
    decreases f,
{
    match f {
        FolFormula::Predicate(p, args) => FForm::Pred(p@, view_fol_terms(args@)),
        FolFormula::Not(g) => FForm::Not(Box::new(view_fol_formula(*g))),
        FolFormula::Conjunction(fs) => FForm::And(
            Seq::new(fs@.len(), |i: int| if 0 <= i < fs@.len() { view_fol_formula(fs@[i]) } else { FForm::And(Seq::empty()) }),
        ),
        FolFormula::Disjunction(fs) => FForm::Or(
            Seq::new(fs@.len(), |i: int| if 0 <= i < fs@.len() { view_fol_formula(fs@[i]) } else { FForm::And(Seq::empty()) }),
        ),
        FolFormula::Arrow(a, b) => FForm::Imp(Box::new(view_fol_formula(*a)), Box::new(view_fol_formula(*b))),
        FolFormula::ForAll(v, ty, body) => FForm::ForAll(
            v@,
            Box::new(view_fol_formula(*ty)),
            Box::new(view_fol_formula(*body)),
        ),
    }
}

impl View for FolFormula {
    type V = FForm;

    open spec fn view(&self) -> FForm {
        view_fol_formula(*self)
    }
}

/// The model of a list of formulas.
pub open spec fn view_fol_formulas(fs: Seq<FolFormula>) -> Seq<FForm> {
    Seq::new(fs.len(), |i: int| if 0 <= i < fs.len() { fs[i]@ } else { FForm::And(Seq::empty()) })
}

pub proof fn lemma_junction_view(fs: Vec<FolFormula>)
    ensures
        FolFormula::Conjunction(fs)@ == FForm::And(view_fol_formulas(fs@)),
        FolFormula::Disjunction(fs)@ == FForm::Or(view_fol_formulas(fs@)),
{
    assert(view_fol_formulas(fs@) =~= (FolFormula::Conjunction(fs)@)->And_0);
    assert(view_fol_formulas(fs@) =~= (FolFormula::Disjunction(fs)@)->Or_0);
}

/// A deep copy of `t`.
pub fn copy_fol_term(t: &FolTerm) -> (r: FolTerm)
    ensures
        r@ == t@,
    decreases t,
{
    match t {
        FolTerm::Variable(n) => FolTerm::Variable(n.clone()),
        FolTerm::Application(f, args) => {
            let mut out: Vec<FolTerm> = Vec::new();
            let mut i: usize = 0;
            while i < args.len()
                invariant
                    *t == FolTerm::Application(*f, *args),
                    i <= args@.len(),
                    out@.len() == i,
                    forall|j: int| 0 <= j < i ==> (#[trigger] out@[j])@ == args@[j]@,
                decreases args@.len() - i,
            {
                proof {
                    assert(decreases_to!(*t => (*t)->Application_1));
                    assert(decreases_to!(*args => args@));
                    assert(decreases_to!(args@ => args@[i as int]));
                }
                out.push(copy_fol_term(&args[i]));
                i = i + 1;
            }
            proof {
                lemma_fol_application_view(*f, out);
                lemma_fol_application_view(*f, *args);
                assert(view_fol_terms(out@) =~= view_fol_terms(args@));
            }
            FolTerm::Application(f.clone(), out)
        },
    }
}

/// A deep copy of a list of formulas.
pub fn copy_fol_formulas(fs: &Vec<FolFormula>) -> (r: Vec<FolFormula>)
    ensures
        view_fol_formulas(r@) == view_fol_formulas(fs@),
    decreases fs,
{
    let mut out: Vec<FolFormula> = Vec::new();
    let mut i: usize = 0;
    while i < fs.len()
        invariant
            i <= fs@.len(),
            out@.len() == i,
            forall|j: int| 0 <= j < i ==> (#[trigger] out@[j])@ == fs@[j]@,
        decreases fs@.len() - i,
    {
        proof {
            assert(decreases_to!(fs => fs@));
            assert(decreases_to!(fs@ => fs@[i as int]));
        }
        out.push(copy_fol_formula(&fs[i]));
        i = i + 1;
    }
    assert(view_fol_formulas(out@) =~= view_fol_formulas(fs@));
    out
}

/// A deep copy of `f`.
pub fn copy_fol_formula(f: &FolFormula) -> (r: FolFormula)
    ensures
        r@ == f@,
    decreases f,
{
    match f {
        FolFormula::Predicate(p, args) => {
            let mut out: Vec<FolTerm> = Vec::new();
            let mut i: usize = 0;
            while i < args.len()
                invariant
                    i <= args@.len(),
                    out@.len() == i,
                    forall|j: int| 0 <= j < i ==> (#[trigger] out@[j])@ == args@[j]@,
                decreases args@.len() - i,
            {
                out.push(copy_fol_term(&args[i]));
                i = i + 1;
            }
            assert(view_fol_terms(out@) =~= view_fol_terms(args@));
            FolFormula::Predicate(p.clone(), out)
        },
        FolFormula::Not(g) => FolFormula::Not(Box::new(copy_fol_formula(g))),
        FolFormula::Conjunction(fs) => {
            let out = copy_fol_formulas(fs);
            proof {
                lemma_junction_view(out);
                lemma_junction_view(*fs);
            }
            FolFormula::Conjunction(out)
        },
        FolFormula::Disjunction(fs) => {
            let out = copy_fol_formulas(fs);
            proof {
                lemma_junction_view(out);
                lemma_junction_view(*fs);
            }
            FolFormula::Disjunction(out)
        },
        FolFormula::Arrow(a, b) => FolFormula::Arrow(Box::new(copy_fol_formula(a)), Box::new(copy_fol_formula(b))),
        FolFormula::ForAll(v, ty, body) => FolFormula::ForAll(
            v.clone(),
            Box::new(copy_fol_formula(ty)),
            Box::new(copy_fol_formula(body)),
        ),
    }
}

impl Clone for FolTerm {
    fn clone(&self) -> (r: Self)
        ensures
            r@ == self@,
    {
        copy_fol_term(self)
    }
}

impl Clone for FolFormula {
    fn clone(&self) -> (r: Self)
        ensures
            r@ == self@,
    {
        copy_fol_formula(self)
    }
}

} // verus!
