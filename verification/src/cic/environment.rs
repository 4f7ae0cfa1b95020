//! The typing environment: the context of typed names, the definitions
//! that δ-reduction unfolds, the predicates, the inductive declarations,
//! the proofs of theorems and the registered type equivalences.
//!
//! The context and the definitions are stacks: declaring a name again
//! shadows the previous declaration until the new one is removed, which is
//! how binders open and close scopes.

use vstd::prelude::*;
use crate::cic::assoc::{
    contains_name, is_last_of, keys_distinct, last_index_of, lemma_assoc_absent, lemma_assoc_found, lemma_assoc_last,
    lemma_assoc_prepend, lemma_assoc_without, lemma_remove_last_absent, lemma_remove_last_at, spec_assoc, spec_insert,
    spec_insert_all, spec_keys, spec_remove_last, spec_unwind, spec_without, has_key, has_entry, is_last_entry,
};
use crate::cic::term::{copy_term, view_named, view_seq, CicTerm, Term};
use crate::commons::transport::{copy_named, EquivConfig, EquivModel};
use crate::text::str_eq;

verus! {

/// Mathematical model of an [`Environment`]: each table is an association
/// list in which a later entry shadows an earlier one.
pub struct EnvModel {
    /// name, type
    pub context: Seq<(Seq<char>, Term)>,
    /// name, definition
    pub deltas: Seq<(Seq<char>, Term)>,
    /// predicate name, argument types
    pub predicates: Seq<(Seq<char>, Seq<Term>)>,
    /// inductive type name, its constructors with their types
    pub constructors: Seq<(Seq<char>, Seq<(Seq<char>, Term)>)>,
    /// theorem name, proof term
    pub theorem_proofs: Seq<(Seq<char>, Term)>,
    /// equivalence name, its configuration
    pub equivalences: Seq<(Seq<char>, EquivModel)>,
    /// inductive type name, number of left parameters
    pub param_counts: Seq<(Seq<char>, usize)>,
}

impl EnvModel {
    pub open spec fn with_context(self, context: Seq<(Seq<char>, Term)>) -> EnvModel {
        EnvModel { context, ..self }
    }

    pub open spec fn with_deltas(self, deltas: Seq<(Seq<char>, Term)>) -> EnvModel {
        EnvModel { deltas, ..self }
    }

    pub open spec fn with_predicates(self, predicates: Seq<(Seq<char>, Seq<Term>)>) -> EnvModel {
        EnvModel { predicates, ..self }
    }

    pub open spec fn with_constructors(self, constructors: Seq<(Seq<char>, Seq<(Seq<char>, Term)>)>) -> EnvModel {
        EnvModel { constructors, ..self }
    }

    pub open spec fn with_theorem_proofs(self, theorem_proofs: Seq<(Seq<char>, Term)>) -> EnvModel {
        EnvModel { theorem_proofs, ..self }
    }

    pub open spec fn with_equivalences(self, equivalences: Seq<(Seq<char>, EquivModel)>) -> EnvModel {
        EnvModel { equivalences, ..self }
    }

    pub open spec fn with_param_counts(self, param_counts: Seq<(Seq<char>, usize)>) -> EnvModel {
        EnvModel { param_counts, ..self }
    }
}

/// A definition handed to [`Environment::with_local_substitutions`]:
/// name, body and optional type.
pub open spec fn view_defs(ds: Seq<(String, CicTerm, Option<CicTerm>)>) -> Seq<(Seq<char>, Term, Option<Term>)> {
    ds.map_values(
        |d: (String, CicTerm, Option<CicTerm>)|
            (
                d.0@,
                d.1@,
                match d.2 {
                    Some(t) => Some(t@),
                    None => None,
                },
            ),
    )
}

/// The name and body of each definition.
pub open spec fn def_bodies(ds: Seq<(Seq<char>, Term, Option<Term>)>) -> Seq<(Seq<char>, Term)> {
    ds.map_values(|d: (Seq<char>, Term, Option<Term>)| (d.0, d.1))
}

/// The name and type of each definition that has a type, in order.
pub open spec fn typed_defs(ds: Seq<(Seq<char>, Term, Option<Term>)>) -> Seq<(Seq<char>, Term)>
    decreases ds.len(),
{
    if ds.len() == 0 {
        Seq::empty()
    } else {
        match ds.last().2 {
            Some(t) => typed_defs(ds.drop_last()).push((ds.last().0, t)),
            None => typed_defs(ds.drop_last()),
        }
    }
}

/// The model of a list of predicate declarations.
pub open spec fn view_predicates(ps: Seq<(String, Vec<CicTerm>)>) -> Seq<(Seq<char>, Seq<Term>)> {
    ps.map_values(|p: (String, Vec<CicTerm>)| (p.0@, view_seq(p.1@)))
}

/// The model of a constructor store.
pub open spec fn view_store(cs: Seq<(String, Vec<(String, CicTerm)>)>) -> Seq<(Seq<char>, Seq<(Seq<char>, Term)>)> {
    cs.map_values(|p: (String, Vec<(String, CicTerm)>)| (p.0@, view_named(p.1@)))
}

/// The model of a list of registered equivalences.
pub open spec fn view_equivalences(es: Seq<(String, EquivConfig)>) -> Seq<(Seq<char>, EquivModel)> {
    es.map_values(|p: (String, EquivConfig)| (p.0@, p.1@))
}

/// Replacing the configuration at position `i` replaces its model.
proof fn lemma_view_equivalences_update(es: Seq<(String, EquivConfig)>, i: int)
    requires
        0 <= i < es.len(),
    ensures
        forall|x: EquivConfig|
            #[trigger] view_equivalences(es.update(i, (es[i].0, x))) == view_equivalences(es).update(i, (es[i].0@, x@)),
{
    assert forall|x: EquivConfig|
        #[trigger] view_equivalences(es.update(i, (es[i].0, x))) == view_equivalences(es).update(i, (es[i].0@, x@)) by {
        assert(view_equivalences(es.update(i, (es[i].0, x))) =~= view_equivalences(es).update(i, (es[i].0@, x@)));
    }
}

/// The model of a list of parameter counts.
pub open spec fn view_counts(cs: Seq<(String, usize)>) -> Seq<(Seq<char>, usize)> {
    cs.map_values(|p: (String, usize)| (p.0@, p.1))
}

/// The typing environment (see the module documentation).
pub struct Environment {
    context: Vec<(String, CicTerm)>,
    deltas: Vec<(String, CicTerm)>,
    predicates: Vec<(String, Vec<CicTerm>)>,
    constructor_store: Vec<(String, Vec<(String, CicTerm)>)>,
    theorem_proofs: Vec<(String, CicTerm)>,
    equivalences: Vec<(String, EquivConfig)>,
    inductive_param_counts: Vec<(String, usize)>,
}

impl View for Environment {
    type V = EnvModel;

    closed spec fn view(&self) -> EnvModel {
        EnvModel {
            context: view_named(self.context@),
            deltas: view_named(self.deltas@),
            predicates: view_predicates(self.predicates@),
            constructors: view_store(self.constructor_store@),
            theorem_proofs: view_named(self.theorem_proofs@),
            equivalences: view_equivalences(self.equivalences@),
            param_counts: view_counts(self.inductive_param_counts@),
        }
    }
}

/// A deep copy of a list of terms.
fn copy_terms(v: &Vec<CicTerm>) -> (r: Vec<CicTerm>)
    ensures
        view_seq(r@) == view_seq(v@),
{
    let mut out: Vec<CicTerm> = Vec::new();
    let mut j: usize = 0;
    while j < v.len()
        invariant
            j <= v@.len(),
            out@.len() == j,
            forall|k: int| 0 <= k < j ==> (#[trigger] out@[k])@ == v@[k]@,
        decreases v@.len() - j,
    {
        out.push(copy_term(&v[j]));
        j = j + 1;
    }
    assert(view_seq(out@) =~= view_seq(v@));
    out
}

/// `v` with every entry of `name` replaced by one entry `(name, t)` at the end.
fn insert_named(v: &mut Vec<(String, CicTerm)>, name: &str, t: CicTerm)
    ensures
        view_named(final(v)@) == spec_insert(view_named(old(v)@), name@, t@),
{
    let ghost s = view_named(v@);
    let mut out: Vec<(String, CicTerm)> = Vec::new();
    let mut i: usize = 0;
    while i < v.len()
        invariant
            i <= v@.len(),
            s == view_named(v@),
            view_named(out@) == spec_without(s.subrange(0, i as int), name@),
        decreases v@.len() - i,
    {
        proof {
            let p = s.subrange(0, i + 1);
            assert(p.drop_last() =~= s.subrange(0, i as int));
            assert(p.last() == s[i as int]);
        }
        if !str_eq(v[i].0.as_str(), name) {
            let ghost before = out@;
            out.push((v[i].0.clone(), copy_term(&v[i].1)));
            proof {
                assert(view_named(out@) =~= view_named(before).push(s[i as int]));
            }
        }
        i = i + 1;
    }
    let ghost kept = out@;
    out.push((String::from_str(name), t));
    proof {
        assert(s.subrange(0, s.len() as int) =~= s);
        assert(view_named(out@) =~= view_named(kept).push((name@, t@)));
    }
    *v = out;
}

/// The entries of `v` that no later entry shadows, one per name.
fn visible_entries(v: &Vec<(String, CicTerm)>) -> (r: Vec<(String, CicTerm)>)
    ensures
        keys_distinct(view_named(r@)),
        forall|n: Seq<char>| #[trigger] spec_assoc(view_named(r@), n) == spec_assoc(view_named(v@), n),
{
    let ghost s = view_named(v@);
    let mut out: Vec<(String, CicTerm)> = Vec::new();
    let mut names: Vec<String> = Vec::new();
    let mut i: usize = v.len();
    proof {
        assert(s.subrange(v@.len() as int, v@.len() as int) =~= Seq::<(Seq<char>, Term)>::empty());
    }
    while i > 0
        invariant
            i <= v@.len(),
            s == view_named(v@),
            names@.len() == out@.len(),
            forall|k: int| 0 <= k < names@.len() ==> (#[trigger] names@[k])@ == out@[k].0@,
            keys_distinct(view_named(out@)),
            forall|n: Seq<char>|
                #[trigger] spec_assoc(view_named(out@), n) == spec_assoc(s.subrange(i as int, s.len() as int), n),
        decreases i,
    {
        let ghost suffix = s.subrange(i as int, s.len() as int);
        let ghost longer = s.subrange(i - 1, s.len() as int);
        proof {
            assert(longer =~= seq![s[i - 1]] + suffix);
        }
        let ghost old_names = names@;
        let ghost old_out = out@;
        if !contains_name(&names, v[i - 1].0.as_str()) {
            let ghost before = view_named(out@);
            out.push((v[i - 1].0.clone(), copy_term(&v[i - 1].1)));
            names.push(v[i - 1].0.clone());
            proof {
                let e = s[i - 1];
                assert(view_named(out@) =~= before.push(e));
                assert forall|k: int| 0 <= k < before.len() implies (#[trigger] before[k]).0 != e.0 by {
                    assert(old_names[k]@ == old_out[k].0@);
                    assert(old_names[k]@ != e.0);
                }
                lemma_assoc_absent(before, e.0);
                assert forall|n: Seq<char>|
                    #[trigger] spec_assoc(view_named(out@), n) == spec_assoc(longer, n) by {
                    lemma_assoc_prepend(e, suffix, n);
                    assert(spec_assoc(view_named(old_out), n) == spec_assoc(suffix, n));
                    let w = before.push(e);
                    assert(w.drop_last() =~= before);
                    assert(w.last() == e);
                }
                assert forall|a: int, b: int|
                    0 <= a < b < view_named(out@).len() implies (#[trigger] view_named(out@)[a]).0 != (#[trigger] view_named(
                    out@,
                )[b]).0 by {
                    if b == before.len() {
                        assert(view_named(out@)[a] == before[a]);
                    } else {
                        assert(view_named(out@)[a] == before[a]);
                        assert(view_named(out@)[b] == before[b]);
                    }
                }
            }
        } else {
            proof {
                let e = s[i - 1];
                let k = choose|k: int| 0 <= k < names@.len() && (#[trigger] names@[k])@ == e.0;
                assert(view_named(out@)[k].0 == e.0);
                lemma_assoc_found(view_named(out@), e.0);
                assert forall|n: Seq<char>|
                    #[trigger] spec_assoc(view_named(out@), n) == spec_assoc(longer, n) by {
                    lemma_assoc_prepend(e, suffix, n);
                    assert(spec_assoc(view_named(old_out), n) == spec_assoc(suffix, n));
                    if n == e.0 {
                        if spec_assoc(view_named(out@), n) is None {
                            assert(view_named(out@)[k].0 != n);
                        }
                    }
                }
            }
        }
        i = i - 1;
    }
    proof {
        assert(s.subrange(0, s.len() as int) =~= s);
    }
    out
}

impl Clone for Environment {
    fn clone(&self) -> (r: Self)
        ensures
            r@ == self@,
    {
        let mut predicates: Vec<(String, Vec<CicTerm>)> = Vec::new();
        let mut i: usize = 0;
        while i < self.predicates.len()
            invariant
                i <= self.predicates@.len(),
                predicates@.len() == i,
                forall|k: int|
                    0 <= k < i ==> (#[trigger] predicates@[k]).0@ == self.predicates@[k].0@ && view_seq(predicates@[k].1@)
                        == view_seq(self.predicates@[k].1@),
            decreases self.predicates@.len() - i,
        {
            predicates.push((self.predicates[i].0.clone(), copy_terms(&self.predicates[i].1)));
            i = i + 1;
        }
        let mut store: Vec<(String, Vec<(String, CicTerm)>)> = Vec::new();
        let mut i: usize = 0;
        while i < self.constructor_store.len()
            invariant
                i <= self.constructor_store@.len(),
                store@.len() == i,
                forall|k: int|
                    0 <= k < i ==> (#[trigger] store@[k]).0@ == self.constructor_store@[k].0@ && view_named(store@[k].1@)
                        == view_named(self.constructor_store@[k].1@),
            decreases self.constructor_store@.len() - i,
        {
            store.push((self.constructor_store[i].0.clone(), copy_named(&self.constructor_store[i].1)));
            i = i + 1;
        }
        let mut equivalences: Vec<(String, EquivConfig)> = Vec::new();
        let mut i: usize = 0;
        while i < self.equivalences.len()
            invariant
                i <= self.equivalences@.len(),
                equivalences@.len() == i,
                forall|k: int|
                    0 <= k < i ==> (#[trigger] equivalences@[k]).0@ == self.equivalences@[k].0@ && equivalences@[k].1@
                        == self.equivalences@[k].1@,
            decreases self.equivalences@.len() - i,
        {
            equivalences.push((self.equivalences[i].0.clone(), self.equivalences[i].1.clone()));
            i = i + 1;
        }
        let mut counts: Vec<(String, usize)> = Vec::new();
        let mut i: usize = 0;
        while i < self.inductive_param_counts.len()
            invariant
                i <= self.inductive_param_counts@.len(),
                counts@.len() == i,
                forall|k: int|
                    0 <= k < i ==> (#[trigger] counts@[k]).0@ == self.inductive_param_counts@[k].0@ && counts@[k].1
                        == self.inductive_param_counts@[k].1,
            decreases self.inductive_param_counts@.len() - i,
        {
            counts.push((self.inductive_param_counts[i].0.clone(), self.inductive_param_counts[i].1));
            i = i + 1;
        }
        let r = Environment {
            context: copy_named(&self.context),
            deltas: copy_named(&self.deltas),
            predicates,
            constructor_store: store,
            theorem_proofs: copy_named(&self.theorem_proofs),
            equivalences,
            inductive_param_counts: counts,
        };
        proof {
            assert(view_predicates(r.predicates@) =~= view_predicates(self.predicates@));
            assert(view_store(r.constructor_store@) =~= view_store(self.constructor_store@));
            assert(view_equivalences(r.equivalences@) =~= view_equivalences(self.equivalences@));
            assert(view_counts(r.inductive_param_counts@) =~= view_counts(self.inductive_param_counts@));
        }
        r
    }
}

//########################### INDUCTIVE DECLARATIONS

impl Environment {
    /// The constructors of the inductive type `name`, with their types.
    pub open spec fn constructors_of(&self, name: Seq<char>) -> Option<Seq<(Seq<char>, Term)>> {
        spec_assoc(self@.constructors, name)
    }

    /// The number of left parameters of the inductive type `name`.
    pub open spec fn param_count_of(&self, name: Seq<char>) -> Option<usize> {
        spec_assoc(self@.param_counts, name)
    }

    /// Declares the constructors of the inductive type `name`.
    pub fn add_constructor_store(&mut self, name: &str, constructors: Vec<(String, CicTerm)>)
        ensures
            final(self)@ == old(self)@.with_constructors(old(self)@.constructors.push((name@, view_named(constructors@)))),
    {
        self.constructor_store.push((String::from_str(name), constructors));
        proof {
            assert(view_store(self.constructor_store@) =~= view_store(old(self).constructor_store@).push(
                (name@, view_named(constructors@)),
            ));
        }
    }

    /// Declares the number of left parameters of the inductive type `name`.
    pub fn add_inductive_param_count(&mut self, ind_name: &str, count: usize)
        ensures
            final(self)@ == old(self)@.with_param_counts(old(self)@.param_counts.push((ind_name@, count))),
    {
        self.inductive_param_counts.push((String::from_str(ind_name), count));
        proof {
            assert(view_counts(self.inductive_param_counts@) =~= view_counts(old(self).inductive_param_counts@).push(
                (ind_name@, count),
            ));
        }
    }

    /// Declares the inductive type `name`: its constructors and its number
    /// of left parameters.
    pub fn add_to_inductive_store(&mut self, name: &str, constructors: Vec<(String, CicTerm)>, param_count: usize)
        ensures
            final(self)@ == old(self)@.with_constructors(old(self)@.constructors.push((name@, view_named(constructors@))))
                .with_param_counts(old(self)@.param_counts.push((name@, param_count))),
    {
        self.add_constructor_store(name, constructors);
        self.add_inductive_param_count(name, param_count);
    }

    /// The number of left parameters of the inductive type `ind_name`.
    pub fn get_inductive_param_count(&self, ind_name: &str) -> (r: Option<usize>)
        ensures
            r == self.param_count_of(ind_name@),
    {
        let ghost s = view_counts(self.inductive_param_counts@);
        match last_index_of(&self.inductive_param_counts, ind_name) {
            Some(i) => {
                proof {
                    assert forall|j: int| i < j < s.len() implies (#[trigger] s[j]).0 != s[i as int].0 by {
                        assert(s[j].0 == self.inductive_param_counts@[j].0@);
                    }
                    lemma_assoc_last(s, i as int);
                }
                Some(self.inductive_param_counts[i].1)
            },
            None => {
                proof {
                    assert forall|j: int| 0 <= j < s.len() implies (#[trigger] s[j]).0 != ind_name@ by {
                        assert(s[j].0 == self.inductive_param_counts@[j].0@);
                    }
                    lemma_assoc_absent(s, ind_name@);
                }
                None
            },
        }
    }

    /// The constructors of the inductive type `ind_name`, with their types.
    pub fn get_constructor_signatures(&self, ind_name: &str) -> (r: Option<Vec<(String, CicTerm)>>)
        ensures
            match self.constructors_of(ind_name@) {
                Some(cs) => r matches Some(v) && view_named(v@) == cs,
                None => r is None,
            },
    {
        let ghost s = view_store(self.constructor_store@);
        match last_index_of(&self.constructor_store, ind_name) {
            Some(i) => {
                proof {
                    assert forall|j: int| i < j < s.len() implies (#[trigger] s[j]).0 != s[i as int].0 by {
                        assert(s[j].0 == self.constructor_store@[j].0@);
                    }
                    lemma_assoc_last(s, i as int);
                }
                Some(copy_named(&self.constructor_store[i].1))
            },
            None => {
                proof {
                    assert forall|j: int| 0 <= j < s.len() implies (#[trigger] s[j]).0 != ind_name@ by {
                        assert(s[j].0 == self.constructor_store@[j].0@);
                    }
                    lemma_assoc_absent(s, ind_name@);
                }
                None
            },
        }
    }
}

//########################### CONTEXT

/// Removes the last entry of `name` from `v`.
fn remove_last_named(v: &mut Vec<(String, CicTerm)>, name: &str)
    ensures
        view_named(final(v)@) == spec_remove_last(view_named(old(v)@), name@),
{
    let ghost s = view_named(v@);
    match last_index_of(v, name) {
        Some(i) => {
            proof {
                assert forall|j: int| i < j < s.len() implies (#[trigger] s[j]).0 != s[i as int].0 by {
                    assert(s[j].0 == v@[j].0@);
                }
                lemma_remove_last_at(s, i as int);
            }
            v.remove(i);
            proof {
                assert(view_named(v@) =~= s.remove(i as int));
            }
        },
        None => {
            proof {
                assert forall|j: int| 0 <= j < s.len() implies (#[trigger] s[j]).0 != name@ by {
                    assert(s[j].0 == v@[j].0@);
                }
                lemma_remove_last_absent(s, name@);
            }
        },
    }
}

/// The last entry of `name` in `v`, copied, if any.
pub(crate) fn lookup_named(v: &Vec<(String, CicTerm)>, name: &str) -> (r: Option<(String, CicTerm)>)
    ensures
        match spec_assoc(view_named(v@), name@) {
            Some(t) => r matches Some(p) && p.0@ == name@ && p.1@ == t,
            None => r is None,
        },
{
    let ghost s = view_named(v@);
    match last_index_of(v, name) {
        Some(i) => {
            proof {
                assert forall|j: int| i < j < s.len() implies (#[trigger] s[j]).0 != s[i as int].0 by {
                    assert(s[j].0 == v@[j].0@);
                }
                lemma_assoc_last(s, i as int);
            }
            Some((String::from_str(name), copy_term(&v[i].1)))
        },
        None => {
            proof {
                assert forall|j: int| 0 <= j < s.len() implies (#[trigger] s[j]).0 != name@ by {
                    assert(s[j].0 == v@[j].0@);
                }
                lemma_assoc_absent(s, name@);
            }
            None
        },
    }
}

impl Environment {
    /// An environment that holds nothing.
    fn empty() -> (r: Environment)
        ensures
            r@.context.len() == 0,
            r@.deltas.len() == 0,
            r@.predicates.len() == 0,
            r@.constructors.len() == 0,
            r@.theorem_proofs.len() == 0,
            r@.equivalences.len() == 0,
            r@.param_counts.len() == 0,
    {
        Environment {
            context: Vec::new(),
            deltas: Vec::new(),
            predicates: Vec::new(),
            constructor_store: Vec::new(),
            theorem_proofs: Vec::new(),
            equivalences: Vec::new(),
            inductive_param_counts: Vec::new(),
        }
    }

    /// Assumes `name : typee`, shadowing an earlier assumption of `name`.
    pub fn add_to_context(&mut self, name: &str, typee: &CicTerm)
        ensures
            final(self)@ == old(self)@.with_context(old(self)@.context.push((name@, typee@))),
    {
        self.context.push((String::from_str(name), copy_term(typee)));
        proof {
            assert(view_named(self.context@) =~= view_named(old(self).context@).push((name@, typee@)));
        }
    }

    /// The type of `name` in the context, with the name, if it is assumed.
    pub fn get_from_context(&self, name: &str) -> (r: Option<(String, CicTerm)>)
        ensures
            match spec_assoc(self@.context, name@) {
                Some(t) => r matches Some(p) && p.0@ == name@ && p.1@ == t,
                None => r is None,
            },
    {
        lookup_named(&self.context, name)
    }

    /// Every assumption in force, one per name.
    pub fn get_context(&self) -> (r: Vec<(String, CicTerm)>)
        ensures
            keys_distinct(view_named(r@)),
            forall|n: Seq<char>| #[trigger] spec_assoc(view_named(r@), n) == spec_assoc(self@.context, n),
    {
        visible_entries(&self.context)
    }

    /// Drops the latest assumption of `name`, bringing back the one it
    /// shadowed, if any.
    pub fn remove_from_context(&mut self, name: &str)
        ensures
            final(self)@ == old(self)@.with_context(spec_remove_last(old(self)@.context, name@)),
    {
        remove_last_named(&mut self.context, name);
    }

    /// Runs `callable` on the environment with `name : typee` assumed, then
    /// drops that assumption from what `callable` hands back.
    pub fn with_local_assumption<F: FnOnce(Environment) -> (Environment, R), R>(
        &mut self,
        name: &str,
        typee: &CicTerm,
        callable: F,
    ) -> (r: R)
        requires
            forall|e: Environment| call_requires(callable, (e,)),
        ensures
            exists|e_in: Environment, e_out: Environment|
                {
                    &&& e_in@ == old(self)@.with_context(old(self)@.context.push((name@, typee@)))
                    &&& #[trigger] call_ensures(callable, (e_in,), (e_out, r))
                    &&& final(self)@ == e_out@.with_context(spec_remove_last(e_out@.context, name@))
                },
    {
        self.add_to_context(name, typee);
        let mut env = Environment::empty();
        std::mem::swap(&mut env, self);
        let ghost e_in = env;
        let (mut out, r) = callable(env);
        let ghost e_out = out;
        out.remove_from_context(name);
        *self = out;
        assert(call_ensures(callable, (e_in,), (e_out, r)));
        r
    }

    /// Runs `callable` on the environment with each of `assumptions`
    /// assumed in order, then drops them, the last one first, from what
    /// `callable` hands back.
    pub fn with_local_assumptions<F: FnOnce(Environment) -> (Environment, R), R>(
        &mut self,
        assumptions: &[(String, CicTerm)],
        callable: F,
    ) -> (r: R)
        requires
            forall|e: Environment| call_requires(callable, (e,)),
        ensures
            exists|e_in: Environment, e_out: Environment|
                {
                    &&& e_in@ == old(self)@.with_context(old(self)@.context + view_named(assumptions@))
                    &&& #[trigger] call_ensures(callable, (e_in,), (e_out, r))
                    &&& final(self)@ == e_out@.with_context(
                        spec_unwind(e_out@.context, spec_keys(view_named(assumptions@))),
                    )
                },
    {
        let ghost start = self@;
        let ghost added = view_named(assumptions@);
        let mut i: usize = 0;
        while i < assumptions.len()
            invariant
                i <= assumptions@.len(),
                added == view_named(assumptions@),
                self@ == start.with_context(start.context + added.subrange(0, i as int)),
            decreases assumptions@.len() - i,
        {
            self.add_to_context(assumptions[i].0.as_str(), &assumptions[i].1);
            proof {
                assert(start.context + added.subrange(0, i + 1) =~= (start.context + added.subrange(0, i as int)).push(
                    added[i as int],
                ));
            }
            i = i + 1;
        }
        proof {
            assert(added.subrange(0, added.len() as int) =~= added);
        }
        let mut env = Environment::empty();
        std::mem::swap(&mut env, self);
        let ghost e_in = env;
        let (mut out, r) = callable(env);
        let ghost e_out = out;
        let ghost keys = spec_keys(added);
        let mut i: usize = assumptions.len();
        proof {
            assert(keys.subrange(0, keys.len() as int) =~= keys);
        }
        while i > 0
            invariant
                i <= assumptions@.len(),
                added == view_named(assumptions@),
                keys == spec_keys(added),
                out@ == e_out@.with_context(out@.context),
                spec_unwind(out@.context, keys.subrange(0, i as int)) == spec_unwind(e_out@.context, keys),
            decreases i,
        {
            proof {
                let ks = keys.subrange(0, i as int);
                assert(ks.drop_last() =~= keys.subrange(0, i - 1));
                assert(ks.last() == assumptions@[i - 1].0@);
            }
            out.remove_from_context(assumptions[i - 1].0.as_str());
            i = i - 1;
        }
        *self = out;
        assert(call_ensures(callable, (e_in,), (e_out, r)));
        r
    }
}

//########################### DEFINITIONS

impl Environment {
    /// Defines `name` as `term` for δ-reduction, shadowing an earlier
    /// definition of `name`.
    pub fn add_substitution(&mut self, name: &str, term: &CicTerm)
        ensures
            final(self)@ == old(self)@.with_deltas(old(self)@.deltas.push((name@, term@))),
    {
        self.deltas.push((String::from_str(name), copy_term(term)));
        proof {
            assert(view_named(self.deltas@) =~= view_named(old(self).deltas@).push((name@, term@)));
        }
    }

    /// Defines `name` as `term` and assumes `name : typee`.
    pub fn add_substitution_with_type(&mut self, name: &str, term: &CicTerm, typee: &CicTerm)
        ensures
            final(self)@ == old(self)@.with_deltas(old(self)@.deltas.push((name@, term@))).with_context(
                old(self)@.context.push((name@, typee@)),
            ),
    {
        self.add_substitution(name, term);
        self.add_to_context(name, typee);
    }

    /// The definition of `name`, with the name, if it is defined.
    pub fn get_from_deltas(&self, name: &str) -> (r: Option<(String, CicTerm)>)
        ensures
            match spec_assoc(self@.deltas, name@) {
                Some(t) => r matches Some(p) && p.0@ == name@ && p.1@ == t,
                None => r is None,
            },
    {
        lookup_named(&self.deltas, name)
    }

    /// Every definition in force, one per name.
    pub fn get_deltas(&self) -> (r: Vec<(String, CicTerm)>)
        ensures
            keys_distinct(view_named(r@)),
            forall|n: Seq<char>| #[trigger] spec_assoc(view_named(r@), n) == spec_assoc(self@.deltas, n),
    {
        visible_entries(&self.deltas)
    }

    /// Drops the latest definition of `name`, bringing back the one it
    /// shadowed, if any.
    pub fn remove_substitution(&mut self, name: &str)
        ensures
            final(self)@ == old(self)@.with_deltas(spec_remove_last(old(self)@.deltas, name@)),
    {
        remove_last_named(&mut self.deltas, name);
    }

    /// Runs `callable` on the environment with `name` defined as `term`
    /// (and assumed of type `typee` when there is one), then drops the
    /// definition and the assumption from what `callable` hands back.
    pub fn with_local_substitution<F: FnOnce(Environment) -> (Environment, R), R>(
        &mut self,
        name: &str,
        term: &CicTerm,
        typee: &Option<CicTerm>,
        callable: F,
    ) -> (r: R)
        requires
            forall|e: Environment| call_requires(callable, (e,)),
        ensures
            exists|e_in: Environment, e_out: Environment|
                {
                    &&& e_in@ == old(self)@.with_deltas(old(self)@.deltas.push((name@, term@))).with_context(
                        match typee {
                            Some(t) => old(self)@.context.push((name@, t@)),
                            None => old(self)@.context,
                        },
                    )
                    &&& #[trigger] call_ensures(callable, (e_in,), (e_out, r))
                    &&& final(self)@ == e_out@.with_deltas(spec_remove_last(e_out@.deltas, name@)).with_context(
                        match typee {
                            Some(_) => spec_remove_last(e_out@.context, name@),
                            None => e_out@.context,
                        },
                    )
                },
    {
        self.add_substitution(name, term);
        match typee {
            Some(t) => self.add_to_context(name, t),
            None => {},
        }
        let mut env = Environment::empty();
        std::mem::swap(&mut env, self);
        let ghost e_in = env;
        let (mut out, r) = callable(env);
        let ghost e_out = out;
        out.remove_substitution(name);
        match typee {
            Some(_) => out.remove_from_context(name),
            None => {},
        }
        *self = out;
        assert(call_ensures(callable, (e_in,), (e_out, r)));
        r
    }

    /// Runs `callable` on the environment with each of `substitutions`
    /// (name, body, optional type) defined in order, then drops them, the
    /// last one first, from what `callable` hands back.
    pub fn with_local_substitutions<F: FnOnce(Environment) -> (Environment, R), R>(
        &mut self,
        substitutions: &[(String, CicTerm, Option<CicTerm>)],
        callable: F,
    ) -> (r: R)
        requires
            forall|e: Environment| call_requires(callable, (e,)),
        ensures
            exists|e_in: Environment, e_out: Environment|
                {
                    &&& e_in@ == old(self)@.with_deltas(
                        old(self)@.deltas + def_bodies(view_defs(substitutions@)),
                    ).with_context(old(self)@.context + typed_defs(view_defs(substitutions@)))
                    &&& #[trigger] call_ensures(callable, (e_in,), (e_out, r))
                    &&& final(self)@ == e_out@.with_deltas(
                        spec_unwind(e_out@.deltas, spec_keys(def_bodies(view_defs(substitutions@)))),
                    ).with_context(
                        spec_unwind(e_out@.context, spec_keys(typed_defs(view_defs(substitutions@)))),
                    )
                },
    {
        let ghost start = self@;
        let ghost defs = view_defs(substitutions@);
        let mut i: usize = 0;
        while i < substitutions.len()
            invariant
                i <= substitutions@.len(),
                defs == view_defs(substitutions@),
                self@ == start.with_deltas(start.deltas + def_bodies(defs.subrange(0, i as int))).with_context(
                    start.context + typed_defs(defs.subrange(0, i as int)),
                ),
            decreases substitutions@.len() - i,
        {
            proof {
                let p = defs.subrange(0, i + 1);
                assert(p.drop_last() =~= defs.subrange(0, i as int));
                assert(p.last() == defs[i as int]);
                assert(def_bodies(p) =~= def_bodies(defs.subrange(0, i as int)).push((defs[i as int].0, defs[i as int].1)));
            }
            self.add_substitution(substitutions[i].0.as_str(), &substitutions[i].1);
            match &substitutions[i].2 {
                Some(t) => {
                    self.add_to_context(substitutions[i].0.as_str(), t);
                },
                None => {},
            }
            proof {
                assert(start.deltas + def_bodies(defs.subrange(0, i + 1)) =~= (start.deltas + def_bodies(
                    defs.subrange(0, i as int),
                )).push((defs[i as int].0, defs[i as int].1)));
                assert(start.context + typed_defs(defs.subrange(0, i + 1)) =~= match defs[i as int].2 {
                    Some(t) => (start.context + typed_defs(defs.subrange(0, i as int))).push((defs[i as int].0, t)),
                    None => start.context + typed_defs(defs.subrange(0, i as int)),
                });
            }
            i = i + 1;
        }
        proof {
            assert(defs.subrange(0, defs.len() as int) =~= defs);
        }
        let mut env = Environment::empty();
        std::mem::swap(&mut env, self);
        let ghost e_in = env;
        let (mut out, r) = callable(env);
        let ghost e_out = out;
        let ghost dkeys = spec_keys(def_bodies(defs));
        let mut i: usize = substitutions.len();
        proof {
            assert(dkeys.subrange(0, i as int) =~= dkeys);
        }
        while i > 0
            invariant
                i <= substitutions@.len(),
                defs == view_defs(substitutions@),
                dkeys == spec_keys(def_bodies(defs)),
                out@ == e_out@.with_deltas(out@.deltas).with_context(out@.context),
                spec_unwind(out@.deltas, dkeys.subrange(0, i as int)) == spec_unwind(e_out@.deltas, dkeys),
                spec_unwind(out@.context, spec_keys(typed_defs(defs.subrange(0, i as int)))) == spec_unwind(
                    e_out@.context,
                    spec_keys(typed_defs(defs)),
                ),
            decreases i,
        {
            proof {
                let ks = dkeys.subrange(0, i as int);
                assert(ks.drop_last() =~= dkeys.subrange(0, i - 1));
                assert(ks.last() == substitutions@[i - 1].0@);
                let p = defs.subrange(0, i as int);
                assert(p.drop_last() =~= defs.subrange(0, i - 1));
                assert(p.last() == defs[i - 1]);
                let tk = spec_keys(typed_defs(p));
                if defs[i - 1].2 is Some {
                    assert(tk.drop_last() =~= spec_keys(typed_defs(defs.subrange(0, i - 1))));
                    assert(tk.last() == substitutions@[i - 1].0@);
                } else {
                    assert(tk =~= spec_keys(typed_defs(defs.subrange(0, i - 1))));
                }
            }
            out.remove_substitution(substitutions[i - 1].0.as_str());
            match &substitutions[i - 1].2 {
                Some(_) => {
                    out.remove_from_context(substitutions[i - 1].0.as_str());
                },
                None => {},
            }
            i = i - 1;
        }
        proof {
            assert(dkeys.subrange(0, 0) =~= Seq::<Seq<char>>::empty());
            assert(spec_keys(typed_defs(defs.subrange(0, 0))) =~= Seq::<Seq<char>>::empty());
        }
        *self = out;
        assert(call_ensures(callable, (e_in,), (e_out, r)));
        r
    }
}

//########################### PREDICATES, CONSTRUCTORS, PROOFS, EQUIVALENCES

impl Environment {
    /// Declares the predicate `name` with the types of its arguments.
    pub fn add_predicate(&mut self, name: &str, arg_types: &Vec<CicTerm>)
        ensures
            final(self)@ == old(self)@.with_predicates(old(self)@.predicates.push((name@, view_seq(arg_types@)))),
    {
        self.predicates.push((String::from_str(name), copy_terms(arg_types)));
        proof {
            assert(view_predicates(self.predicates@) =~= view_predicates(old(self).predicates@).push(
                (name@, view_seq(arg_types@)),
            ));
        }
    }

    /// The argument types of the predicate `name`, if it is declared.
    pub fn get_predicate(&self, name: &str) -> (r: Option<Vec<CicTerm>>)
        ensures
            match spec_assoc(self@.predicates, name@) {
                Some(ts) => r matches Some(v) && view_seq(v@) == ts,
                None => r is None,
            },
    {
        let ghost s = view_predicates(self.predicates@);
        match last_index_of(&self.predicates, name) {
            Some(i) => {
                proof {
                    assert forall|j: int| i < j < s.len() implies (#[trigger] s[j]).0 != s[i as int].0 by {
                        assert(s[j].0 == self.predicates@[j].0@);
                    }
                    lemma_assoc_last(s, i as int);
                }
                Some(copy_terms(&self.predicates[i].1))
            },
            None => {
                proof {
                    assert forall|j: int| 0 <= j < s.len() implies (#[trigger] s[j]).0 != name@ by {
                        assert(s[j].0 == self.predicates@[j].0@);
                    }
                    lemma_assoc_absent(s, name@);
                }
                None
            },
        }
    }

    /// Which inductive type declares the constructor `constructor_name`, if
    /// any does. When several do, one of them.
    pub fn constructor_type_of(&self, constructor_name: &str) -> (r: Option<String>)
        ensures
            r matches Some(t) ==> (self.constructors_of(t@) matches Some(cs) && has_key(cs, constructor_name@)),
            r is None ==> forall|t: Seq<char>|
                #[trigger] self.constructors_of(t) matches Some(cs) ==> !has_key(cs, constructor_name@),
    {
        let ghost s = view_store(self.constructor_store@);
        let mut i: usize = self.constructor_store.len();
        while i > 0
            invariant
                i <= self.constructor_store@.len(),
                s == view_store(self.constructor_store@),
                forall|j: int| i <= j < s.len() && #[trigger] is_last_of(s, j) ==> !has_key(s[j].1, constructor_name@),
            decreases i,
        {
            let k = i - 1;
            if is_last_entry(&self.constructor_store, k) && has_entry(&self.constructor_store[k].1, constructor_name) {
                proof {
                    assert forall|j: int| k < j < s.len() implies (#[trigger] s[j]).0 != s[k as int].0 by {
                        assert(s[j].0 == self.constructor_store@[j].0@);
                    }
                    lemma_assoc_last(s, k as int);
                    let m = choose|m: int|
                        0 <= m < self.constructor_store@[k as int].1@.len() && (#[trigger] self.constructor_store@[
                            k as int].1@[m]).0@ == constructor_name@;
                    assert(s[k as int].1[m].0 == constructor_name@);
                }
                return Some(self.constructor_store[k].0.clone());
            }
            proof {
                if is_last_of(s, k as int) {
                    assert forall|j: int| k < j < self.constructor_store@.len() implies (
                    #[trigger] self.constructor_store@[j]).0@ != self.constructor_store@[k as int].0@ by {
                        assert(s[j].0 == self.constructor_store@[j].0@);
                    }
                    if has_key(s[k as int].1, constructor_name@) {
                        let m = choose|m: int| 0 <= m < s[k as int].1.len() && (#[trigger] s[k as int].1[m]).0 == constructor_name@;
                        assert(self.constructor_store@[k as int].1@[m].0@ == constructor_name@);
                    }
                }
            }
            i = k;
        }
        proof {
            assert forall|t: Seq<char>| #[trigger] self.constructors_of(t) is Some implies !has_key(
                self.constructors_of(t).unwrap(),
                constructor_name@,
            ) by {
                lemma_assoc_found(s, t);
            }
        }
        None
    }

    /// The names of the constructors of the inductive type `name`, in
    /// declaration order, if it is declared.
    pub fn get_constructors_for(&self, name: &str) -> (r: Option<Vec<String>>)
        ensures
            match self.constructors_of(name@) {
                Some(cs) => r matches Some(v) && v@.map_values(|x: String| x@) == spec_keys(cs),
                None => r is None,
            },
    {
        match self.get_constructor_signatures(name) {
            Some(cs) => {
                let mut names: Vec<String> = Vec::new();
                let mut j: usize = 0;
                while j < cs.len()
                    invariant
                        j <= cs@.len(),
                        names@.len() == j,
                        forall|k: int| 0 <= k < j ==> (#[trigger] names@[k])@ == cs@[k].0@,
                    decreases cs@.len() - j,
                {
                    names.push(cs[j].0.clone());
                    j = j + 1;
                }
                proof {
                    assert(names@.map_values(|x: String| x@) =~= spec_keys(view_named(cs@)));
                }
                Some(names)
            },
            None => None,
        }
    }

    /// Records `proof_term` as the proof of the theorem `theorem_name`.
    pub fn add_theorem_proof(&mut self, theorem_name: &str, proof_term: &CicTerm)
        ensures
            final(self)@ == old(self)@.with_theorem_proofs(
                old(self)@.theorem_proofs.push((theorem_name@, proof_term@)),
            ),
    {
        self.theorem_proofs.push((String::from_str(theorem_name), copy_term(proof_term)));
        proof {
            assert(view_named(self.theorem_proofs@) =~= view_named(old(self).theorem_proofs@).push(
                (theorem_name@, proof_term@),
            ));
        }
    }

    /// The latest recorded proof of the theorem `theorem_name`, if any.
    pub fn get_theorem_proof(&self, theorem_name: &str) -> (r: Option<CicTerm>)
        ensures
            match spec_assoc(self@.theorem_proofs, theorem_name@) {
                Some(t) => r matches Some(x) && x@ == t,
                None => r is None,
            },
    {
        match lookup_named(&self.theorem_proofs, theorem_name) {
            Some(p) => Some(p.1),
            None => None,
        }
    }

    /// Registers the equivalence `name`.
    pub fn add_equivalence(&mut self, name: &str, config: EquivConfig)
        ensures
            final(self)@ == old(self)@.with_equivalences(old(self)@.equivalences.push((name@, config@))),
    {
        let ghost c = config@;
        self.equivalences.push((String::from_str(name), config));
        proof {
            assert(view_equivalences(self.equivalences@) =~= view_equivalences(old(self).equivalences@).push(
                (name@, c),
            ));
        }
    }

    /// The equivalence registered as `name`, if any.
    pub fn get_equivalence(&self, name: &str) -> (r: Option<&EquivConfig>)
        ensures
            match spec_assoc(self@.equivalences, name@) {
                Some(c) => r matches Some(x) && x@ == c,
                None => r is None,
            },
    {
        let ghost s = view_equivalences(self.equivalences@);
        match last_index_of(&self.equivalences, name) {
            Some(i) => {
                proof {
                    assert forall|j: int| i < j < s.len() implies (#[trigger] s[j]).0 != s[i as int].0 by {
                        assert(s[j].0 == self.equivalences@[j].0@);
                    }
                    lemma_assoc_last(s, i as int);
                }
                Some(&self.equivalences[i].1)
            },
            None => {
                proof {
                    assert forall|j: int| 0 <= j < s.len() implies (#[trigger] s[j]).0 != name@ by {
                        assert(s[j].0 == self.equivalences@[j].0@);
                    }
                    lemma_assoc_absent(s, name@);
                }
                None
            },
        }
    }

    /// The equivalence registered as `name`, to be changed in place, if
    /// any. What is written through it replaces that registration.
    pub fn get_equivalence_mut(&mut self, name: &str) -> (r: Option<&mut EquivConfig>)
        ensures
            match spec_assoc(old(self)@.equivalences, name@) {
                Some(c) => {
                    &&& r is Some
                    &&& (*r->0)@ == c
                    &&& exists|i: int|
                        #[trigger] is_last_of(old(self)@.equivalences, i) && old(self)@.equivalences[i].0 == name@
                            && final(self)@ == old(self)@.with_equivalences(
                            old(self)@.equivalences.update(i, (name@, (*final(r->0))@)),
                        )
                },
                None => r is None && final(self)@ == old(self)@,
            },
    {
        let ghost s = view_equivalences(self.equivalences@);
        match last_index_of(&self.equivalences, name) {
            Some(i) => {
                proof {
                    assert forall|j: int| i < j < s.len() implies (#[trigger] s[j]).0 != s[i as int].0 by {
                        assert(s[j].0 == self.equivalences@[j].0@);
                    }
                    lemma_assoc_last(s, i as int);
                    assert(is_last_of(s, i as int));
                    lemma_view_equivalences_update(self.equivalences@, i as int);
                }
                Some(&mut self.equivalences[i].1)
            },
            None => {
                proof {
                    assert forall|j: int| 0 <= j < s.len() implies (#[trigger] s[j]).0 != name@ by {
                        assert(s[j].0 == self.equivalences@[j].0@);
                    }
                    lemma_assoc_absent(s, name@);
                }
                None
            },
        }
    }
}

//########################### SET UP AND QUERIES

/// The model of the axioms handed to [`Environment::with_defaults`].
pub open spec fn view_axioms(axioms: Seq<(&str, &CicTerm)>) -> Seq<(Seq<char>, Term)> {
    axioms.map_values(|a: (&str, &CicTerm)| (a.0@, a.1@))
}

/// The model of the definitions handed to [`Environment::with_defaults`].
pub open spec fn view_default_defs(ds: Seq<(&str, &CicTerm, &Option<CicTerm>)>) -> Seq<(Seq<char>, Term, Option<Term>)> {
    ds.map_values(
        |d: (&str, &CicTerm, &Option<CicTerm>)|
            (
                d.0@,
                d.1@,
                match *d.2 {
                    Some(t) => Some(t@),
                    None => None,
                },
            ),
    )
}

/// The model of the predicates handed to [`Environment::with_defaults`].
pub open spec fn view_default_predicates(ps: Seq<(&str, &Vec<CicTerm>)>) -> Seq<(Seq<char>, Seq<Term>)> {
    ps.map_values(|p: (&str, &Vec<CicTerm>)| (p.0@, view_seq(p.1@)))
}

impl Environment {
    /// An environment holding the given axioms (name, type), definitions
    /// (name, body, optional type) and predicates (name, argument types),
    /// and nothing else. A name given twice keeps its later entry only, and
    /// a typed definition's type replaces an axiom of the same name.
    pub fn with_defaults(
        axioms: Vec<(&str, &CicTerm)>,
        deltas: Vec<(&str, &CicTerm, &Option<CicTerm>)>,
        predicates: Vec<(&str, &Vec<CicTerm>)>,
    ) -> (r: Environment)
        ensures
            r@.context == spec_insert_all(
                spec_insert_all(Seq::empty(), view_axioms(axioms@)),
                typed_defs(view_default_defs(deltas@)),
            ),
            r@.deltas == spec_insert_all(Seq::empty(), def_bodies(view_default_defs(deltas@))),
            r@.predicates == view_default_predicates(predicates@),
            r@.constructors.len() == 0,
            r@.theorem_proofs.len() == 0,
            r@.equivalences.len() == 0,
            r@.param_counts.len() == 0,
    {
        let mut env = Environment::empty();
        let ghost ax = view_axioms(axioms@);
        let mut i: usize = 0;
        while i < axioms.len()
            invariant
                i <= axioms@.len(),
                ax == view_axioms(axioms@),
                env@.context == spec_insert_all(Seq::empty(), ax.subrange(0, i as int)),
                env@.deltas.len() == 0,
                env@.predicates.len() == 0,
                env@.constructors.len() == 0,
                env@.theorem_proofs.len() == 0,
                env@.equivalences.len() == 0,
                env@.param_counts.len() == 0,
            decreases axioms@.len() - i,
        {
            proof {
                let p = ax.subrange(0, i + 1);
                assert(p.drop_last() =~= ax.subrange(0, i as int));
                assert(p.last() == ax[i as int]);
            }
            insert_named(&mut env.context, axioms[i].0, copy_term(axioms[i].1));
            i = i + 1;
        }
        proof {
            assert(ax.subrange(0, ax.len() as int) =~= ax);
        }
        let ghost ds = view_default_defs(deltas@);
        let ghost base = env@.context;
        let mut i: usize = 0;
        while i < deltas.len()
            invariant
                i <= deltas@.len(),
                ds == view_default_defs(deltas@),
                base == spec_insert_all(Seq::empty(), ax),
                env@.context == spec_insert_all(base, typed_defs(ds.subrange(0, i as int))),
                env@.deltas == spec_insert_all(Seq::empty(), def_bodies(ds.subrange(0, i as int))),
                env@.predicates.len() == 0,
                env@.constructors.len() == 0,
                env@.theorem_proofs.len() == 0,
                env@.equivalences.len() == 0,
                env@.param_counts.len() == 0,
            decreases deltas@.len() - i,
        {
            proof {
                let p = ds.subrange(0, i + 1);
                assert(p.drop_last() =~= ds.subrange(0, i as int));
                assert(p.last() == ds[i as int]);
                let b = def_bodies(p);
                assert(b.drop_last() =~= def_bodies(ds.subrange(0, i as int)));
                assert(b.last() == (ds[i as int].0, ds[i as int].1));
                match ds[i as int].2 {
                    Some(t) => {
                        let td = typed_defs(p);
                        assert(td.drop_last() =~= typed_defs(ds.subrange(0, i as int)));
                        assert(td.last() == (ds[i as int].0, t));
                    },
                    None => {},
                }
            }
            insert_named(&mut env.deltas, deltas[i].0, copy_term(deltas[i].1));
            match deltas[i].2 {
                Some(t) => {
                    insert_named(&mut env.context, deltas[i].0, copy_term(t));
                },
                None => {},
            }
            i = i + 1;
        }
        proof {
            assert(ds.subrange(0, ds.len() as int) =~= ds);
        }
        let mut i: usize = 0;
        while i < predicates.len()
            invariant
                i <= predicates@.len(),
                env@.predicates == view_default_predicates(predicates@).subrange(0, i as int),
                env@.context == spec_insert_all(base, typed_defs(ds)),
                env@.deltas == spec_insert_all(Seq::empty(), def_bodies(ds)),
                env@.constructors.len() == 0,
                env@.theorem_proofs.len() == 0,
                env@.equivalences.len() == 0,
                env@.param_counts.len() == 0,
            decreases predicates@.len() - i,
        {
            env.add_predicate(predicates[i].0, predicates[i].1);
            proof {
                assert(view_default_predicates(predicates@).subrange(0, i + 1) =~= view_default_predicates(
                    predicates@,
                ).subrange(0, i as int).push((predicates@[i as int].0@, view_seq(predicates@[i as int].1@))));
            }
            i = i + 1;
        }
        proof {
            assert(view_default_predicates(predicates@).subrange(0, predicates@.len() as int) =~= view_default_predicates(
                predicates@,
            ));
        }
        env
    }

    /// Whether `var_name` is assumed or defined.
    pub fn is_var_bound(&self, var_name: &str) -> (r: bool)
        ensures
            r == (spec_assoc(self@.context, var_name@) is Some || spec_assoc(self@.deltas, var_name@) is Some),
    {
        match self.get_from_context(var_name) {
            Some(_) => true,
            None => match self.get_from_deltas(var_name) {
                Some(_) => true,
                None => false,
            },
        }
    }

    /// The type of `var_name` in the context, if it is assumed.
    pub fn get_variable_type(&self, var_name: &str) -> (r: Option<CicTerm>)
        ensures
            match spec_assoc(self@.context, var_name@) {
                Some(t) => r matches Some(x) && x@ == t,
                None => r is None,
            },
    {
        match self.get_from_context(var_name) {
            Some((_, var_type)) => Some(var_type),
            None => None,
        }
    }

    /// The names assumed in the context, each once.
    pub fn get_constants(&self) -> (r: Vec<String>)
        ensures
            forall|a: int, b: int| 0 <= a < b < r@.len() ==> (#[trigger] r@[a])@ != (#[trigger] r@[b])@,
            forall|n: Seq<char>|
                (exists|k: int| 0 <= k < r@.len() && (#[trigger] r@[k])@ == n) <==> #[trigger] spec_assoc(
                    self@.context,
                    n,
                ) is Some,
    {
        let visible = self.get_context();
        let ghost vs = view_named(visible@);
        let mut names: Vec<String> = Vec::new();
        let mut j: usize = 0;
        while j < visible.len()
            invariant
                j <= visible@.len(),
                vs == view_named(visible@),
                names@.len() == j,
                forall|k: int| 0 <= k < j ==> (#[trigger] names@[k])@ == vs[k].0,
            decreases visible@.len() - j,
        {
            names.push(visible[j].0.clone());
            j = j + 1;
        }
        proof {
            assert forall|a: int, b: int| 0 <= a < b < names@.len() implies (#[trigger] names@[a])@ != (
            #[trigger] names@[b])@ by {
                assert(vs[a].0 != vs[b].0);
            }
            assert forall|n: Seq<char>|
                (exists|k: int| 0 <= k < names@.len() && (#[trigger] names@[k])@ == n) <==> #[trigger] spec_assoc(
                    self@.context,
                    n,
                ) is Some by {
                lemma_assoc_found(vs, n);
                if exists|k: int| 0 <= k < names@.len() && (#[trigger] names@[k])@ == n {
                    let k = choose|k: int| 0 <= k < names@.len() && (#[trigger] names@[k])@ == n;
                    assert(vs[k].0 == n);
                }
                if spec_assoc(vs, n) is Some {
                    let i = choose|i: int| is_last_of(vs, i) && (#[trigger] vs[i]) == (n, spec_assoc(vs, n).unwrap());
                    assert(names@[i]@ == n);
                }
            }
        }
        names
    }

    /// Runs `callable` on a copy of the environment, leaving the
    /// environment itself as it is.
    pub fn with_rollback<F: FnOnce(Environment) -> R, R>(&self, callable: F) -> (r: R)
        requires
            forall|e: Environment| call_requires(callable, (e,)),
        ensures
            exists|e: Environment| e@ == self@ && #[trigger] call_ensures(callable, (e,), r),
    {
        let cloned = self.clone();
        let ghost e = cloned;
        let r = callable(cloned);
        assert(call_ensures(callable, (e,), r));
        r
    }
}

//########################### LAWS

/// A new entry shadows the earlier entries of its name and leaves every
/// other name's lookup as it was.
pub proof fn law_shadowing<V>(entries: Seq<(Seq<char>, V)>, name: Seq<char>, value: V, other: Seq<char>)
    ensures
        spec_assoc(entries.push((name, value)), other) == if other == name {
            Some(value)
        } else {
            spec_assoc(entries, other)
        },
{
    assert(entries.push((name, value)).drop_last() =~= entries);
}

/// Setting a name replaces whatever it held and leaves every other name's
/// lookup as it was.
pub proof fn law_insert_replaces<V>(entries: Seq<(Seq<char>, V)>, name: Seq<char>, value: V, other: Seq<char>)
    ensures
        spec_assoc(spec_insert(entries, name, value), other) == if other == name {
            Some(value)
        } else {
            spec_assoc(entries, other)
        },
{
    let w = spec_insert(entries, name, value);
    assert(w.drop_last() =~= spec_without(entries, name));
    lemma_assoc_without(entries, name, other);
}

/// Removing the latest entry of a name undoes adding it.
pub proof fn law_remove_undoes_add<V>(entries: Seq<(Seq<char>, V)>, name: Seq<char>, value: V)
    ensures
        spec_remove_last(entries.push((name, value)), name) == entries,
{
    assert(entries.push((name, value)).drop_last() =~= entries);
}

/// Removing the latest entry of a name leaves every other name's lookup
/// as it was.
pub proof fn law_remove_keeps_others<V>(entries: Seq<(Seq<char>, V)>, name: Seq<char>, other: Seq<char>)
    requires
        other != name,
    ensures
        spec_assoc(spec_remove_last(entries, name), other) == spec_assoc(entries, other),
    decreases entries.len(),
{
    if entries.len() > 0 && entries.last().0 != name {
        let d = entries.drop_last();
        law_remove_keeps_others(d, name, other);
        let w = spec_remove_last(d, name).push(entries.last());
        assert(w.drop_last() =~= spec_remove_last(d, name));
    }
}

/// Leaving the scopes of entries opened in order, the last one first,
/// gives back the entries from before.
pub proof fn law_unwind_undoes_extend<V>(entries: Seq<(Seq<char>, V)>, added: Seq<(Seq<char>, V)>)
    ensures
        spec_unwind(entries + added, spec_keys(added)) == entries,
    decreases added.len(),
{
    if added.len() == 0 {
        assert(entries + added =~= entries);
    } else {
        let d = added.drop_last();
        let all = entries + added;
        assert(all.last() == added.last());
        assert(spec_keys(added).last() == added.last().0);
        assert(spec_keys(added).drop_last() =~= spec_keys(d));
        assert(all.drop_last() =~= entries + d);
        law_unwind_undoes_extend(entries, d);
    }
}

/// A local assumption leaves the environment as it found it when what
/// runs under it hands the environment back unchanged.
pub proof fn law_local_assumption_restores(env: EnvModel, name: Seq<char>, typee: Term)
    ensures
        ({
            let inside = env.with_context(env.context.push((name, typee)));
            inside.with_context(spec_remove_last(inside.context, name)) == env
        }),
{
    law_remove_undoes_add(env.context, name, typee);
}

/// Local assumptions leave the environment as they found it when what
/// runs under them hands the environment back unchanged.
pub proof fn law_local_assumptions_restore(env: EnvModel, added: Seq<(Seq<char>, Term)>)
    ensures
        ({
            let inside = env.with_context(env.context + added);
            inside.with_context(spec_unwind(inside.context, spec_keys(added))) == env
        }),
{
    law_unwind_undoes_extend(env.context, added);
}

/// A local definition leaves the environment as it found it when what
/// runs under it hands the environment back unchanged.
pub proof fn law_local_substitution_restores(env: EnvModel, name: Seq<char>, term: Term, typee: Option<Term>)
    ensures
        ({
            let inside = env.with_deltas(env.deltas.push((name, term))).with_context(
                match typee {
                    Some(t) => env.context.push((name, t)),
                    None => env.context,
                },
            );
            inside.with_deltas(spec_remove_last(inside.deltas, name)).with_context(
                match typee {
                    Some(_) => spec_remove_last(inside.context, name),
                    None => inside.context,
                },
            ) == env
        }),
{
    law_remove_undoes_add(env.deltas, name, term);
    match typee {
        Some(t) => law_remove_undoes_add(env.context, name, t),
        None => {},
    }
}

/// Local definitions leave the environment as they found it when what
/// runs under them hands the environment back unchanged.
pub proof fn law_local_substitutions_restore(env: EnvModel, defs: Seq<(Seq<char>, Term, Option<Term>)>)
    ensures
        ({
            let inside = env.with_deltas(env.deltas + def_bodies(defs)).with_context(env.context + typed_defs(defs));
            inside.with_deltas(spec_unwind(inside.deltas, spec_keys(def_bodies(defs)))).with_context(
                spec_unwind(inside.context, spec_keys(typed_defs(defs))),
            ) == env
        }),
{
    law_unwind_undoes_extend(env.deltas, def_bodies(defs));
    law_unwind_undoes_extend(env.context, typed_defs(defs));
}

} // verus!
