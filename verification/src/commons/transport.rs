//! The data that witnesses an equivalence between two inductive types,
//! as registered by an `equivalence` statement and read by transport.

use vstd::prelude::*;
use crate::cic::term::{copy_term, view_named, CicTerm, Term};

verus! {

/// An equivalence between the inductive types `type_a` and `type_b`, with
/// what transporting terms across it needs. The maps of the declaration
/// are association lists in which a later entry overrides an earlier one.
pub struct EquivConfig {
    pub name: String,
    pub type_a: String,
    pub type_b: String,
    /// f : A -> B
    pub forward: CicTerm,
    /// g : B -> A
    pub backward: CicTerm,
    /// forall a:A. Eq(A, g(f(a)), a)
    pub section: CicTerm,
    /// forall b:B. Eq(B, f(g(b)), b)
    pub retraction: CicTerm,
    /// for each constructor of A, the term of B that stands for it
    pub dep_constr: Vec<(String, CicTerm)>,
    /// the elimination principle over B used in place of one over A
    pub dep_elim: CicTerm,
    /// what repacks a value into the shape `dep_constr` and `dep_elim` expect
    pub eta: Option<CicTerm>,
    /// for each constructor of A, the proof bridging its reduction step
    pub iota: Vec<(String, CicTerm)>,
    /// the names already lifted under this equivalence, old to new
    pub lifted_names: Vec<(String, String)>,
}

/// Mathematical model of an [`EquivConfig`].
pub struct EquivModel {
    pub name: Seq<char>,
    pub type_a: Seq<char>,
    pub type_b: Seq<char>,
    pub forward: Term,
    pub backward: Term,
    pub section: Term,
    pub retraction: Term,
    pub dep_constr: Seq<(Seq<char>, Term)>,
    pub dep_elim: Term,
    pub eta: Option<Term>,
    pub iota: Seq<(Seq<char>, Term)>,
    pub lifted_names: Seq<(Seq<char>, Seq<char>)>,
}

/// The model of a list of renamings.
pub open spec fn view_renamings(rs: Seq<(String, String)>) -> Seq<(Seq<char>, Seq<char>)> {
    rs.map_values(|p: (String, String)| (p.0@, p.1@))
}

impl View for EquivConfig {
    type V = EquivModel;

    open spec fn view(&self) -> EquivModel {
        EquivModel {
            name: self.name@,
            type_a: self.type_a@,
            type_b: self.type_b@,
            forward: self.forward@,
            backward: self.backward@,
            section: self.section@,
            retraction: self.retraction@,
            dep_constr: view_named(self.dep_constr@),
            dep_elim: self.dep_elim@,
            eta: match self.eta {
                Some(t) => Some(t@),
                None => None,
            },
            iota: view_named(self.iota@),
            lifted_names: view_renamings(self.lifted_names@),
        }
    }
}

/// A deep copy of a list of named terms.
pub fn copy_named(v: &Vec<(String, CicTerm)>) -> (r: Vec<(String, CicTerm)>)
    ensures
        view_named(r@) == view_named(v@),
{
    let mut out: Vec<(String, CicTerm)> = Vec::new();
    let mut j: usize = 0;
    while j < v.len()
        invariant
            j <= v@.len(),
            out@.len() == j,
            forall|k: int| 0 <= k < j ==> (#[trigger] out@[k]).0@ == v@[k].0@ && out@[k].1@ == v@[k].1@,
        decreases v@.len() - j,
    {
        out.push((v[j].0.clone(), copy_term(&v[j].1)));
        j = j + 1;
    }
    assert(view_named(out@) =~= view_named(v@));
    out
}

/// A copy of a list of renamings.
pub fn copy_renamings(v: &Vec<(String, String)>) -> (r: Vec<(String, String)>)
    ensures
        view_renamings(r@) == view_renamings(v@),
{
    let mut out: Vec<(String, String)> = Vec::new();
    let mut j: usize = 0;
    while j < v.len()
        invariant
            j <= v@.len(),
            out@.len() == j,
            forall|k: int| 0 <= k < j ==> (#[trigger] out@[k]).0@ == v@[k].0@ && out@[k].1@ == v@[k].1@,
        decreases v@.len() - j,
    {
        out.push((v[j].0.clone(), v[j].1.clone()));
        j = j + 1;
    }
    assert(view_renamings(out@) =~= view_renamings(v@));
    out
}

impl Clone for EquivConfig {
    fn clone(&self) -> (r: Self)
        ensures
            r@ == self@,
    {
        let eta = match &self.eta {
            Some(t) => Some(copy_term(t)),
            None => None,
        };
        EquivConfig {
            name: self.name.clone(),
            type_a: self.type_a.clone(),
            type_b: self.type_b.clone(),
            forward: copy_term(&self.forward),
            backward: copy_term(&self.backward),
            section: copy_term(&self.section),
            retraction: copy_term(&self.retraction),
            dep_constr: copy_named(&self.dep_constr),
            dep_elim: copy_term(&self.dep_elim),
            eta,
            iota: copy_named(&self.iota),
            lifted_names: copy_renamings(&self.lifted_names),
        }
    }
}

} // verus!
