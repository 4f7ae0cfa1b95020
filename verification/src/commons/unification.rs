use vstd::prelude::*;
use crate::cic::term::{copy_term, CicTerm, Term};
use crate::text::str_eq;

verus! {

/// A substitution: solutions of unification variables, each named by a key,
/// in the order they were found.
#[derive(Debug, PartialEq)]
pub struct Substitution {
    entries: Vec<(String, CicTerm)>,
}

/// The model of a list of keyed terms.
pub open spec fn view_entries(entries: Seq<(String, CicTerm)>) -> Seq<(Seq<char>, Term)> {
    entries.map_values(|e: (String, CicTerm)| (e.0@, e.1@))
}

impl View for Substitution {
    type V = Seq<(Seq<char>, Term)>;

    closed spec fn view(&self) -> Seq<(Seq<char>, Term)> {
        view_entries(self.entries@)
    }
}

/// The solution stored for `key`, the latest one when there are several.
pub open spec fn subst_lookup(s: Seq<(Seq<char>, Term)>, key: Seq<char>) -> Option<Term>
    decreases s.len(),
{
    if s.len() == 0 {
        None
    } else if s.last().0 == key {
        Some(s.last().1)
    } else {
        subst_lookup(s.drop_last(), key)
    }
}

/// `s` with the solution of `key` set to `value`: in place when `key` is
/// already solved, at the end otherwise.
pub open spec fn subst_insert(s: Seq<(Seq<char>, Term)>, key: Seq<char>, value: Term) -> Seq<(Seq<char>, Term)> {
    if exists|i: int| 0 <= i < s.len() && s[i].0 == key {
        let i = choose|i: int| 0 <= i < s.len() && s[i].0 == key && forall|j: int| i < j < s.len() ==> s[j].0 != key;
        s.update(i, (key, value))
    } else {
        s.push((key, value))
    }
}

/// Looking up past entries with other keys.
proof fn lemma_lookup_skip(s: Seq<(Seq<char>, Term)>, key: Seq<char>, i: int)
    requires
        0 <= i <= s.len(),
        forall|j: int| i <= j < s.len() ==> s[j].0 != key,
    ensures
        subst_lookup(s, key) == subst_lookup(s.subrange(0, i), key),
    decreases s.len() - i,
{
    if i == s.len() {
        assert(s.subrange(0, i) =~= s);
    } else {
        lemma_lookup_skip(s.drop_last(), key, i);
        assert(s.drop_last().subrange(0, i) =~= s.subrange(0, i));
    }
}

impl Substitution {
    /// The substitution that solves nothing.
    pub fn empty() -> (r: Substitution)
        ensures
            r@ == Seq::<(Seq<char>, Term)>::empty(),
    {
        let r = Substitution { entries: Vec::new() };
        assert(r@ =~= Seq::<(Seq<char>, Term)>::empty());
        r
    }

    /// The substitution made of `entries`, in order.
    pub fn from_entries(entries: Vec<(String, CicTerm)>) -> (r: Substitution)
        ensures
            r@ == view_entries(entries@),
    {
        Substitution { entries }
    }

    /// The substitution that solves each key of `entries` in turn.
    pub fn from<const N: usize>(entries: [(String, CicTerm); N]) -> (r: Substitution)
        ensures
            r@ == entries@.fold_left(
                Seq::<(Seq<char>, Term)>::empty(),
                |acc: Seq<(Seq<char>, Term)>, e: (String, CicTerm)| subst_insert(acc, e.0@, e.1@),
            ),
    {
        let mut r = Substitution::empty();
        let mut i: usize = 0;
        while i < N
            invariant
                i <= N,
                N == entries@.len(),
                r@ == entries@.subrange(0, i as int).fold_left(
                    Seq::<(Seq<char>, Term)>::empty(),
                    |acc: Seq<(Seq<char>, Term)>, e: (String, CicTerm)| subst_insert(acc, e.0@, e.1@),
                ),
            decreases N - i,
        {
            proof {
                let pre = entries@.subrange(0, i + 1);
                assert(pre.drop_last() =~= entries@.subrange(0, i as int));
                assert(pre.last() == entries@[i as int]);
            }
            let name = entries[i].0.clone();
            let value = copy_term(&entries[i].1);
            r.insert(name, value);
            i = i + 1;
        }
        proof {
            assert(entries@.subrange(0, N as int) =~= entries@);
        }
        r
    }

    /// Number of solved keys.
    pub fn len(&self) -> (r: usize)
        ensures
            r == self@.len(),
    {
        self.entries.len()
    }

    /// The key of the `i`-th solution.
    pub fn name_at(&self, i: usize) -> (r: &String)
        requires
            i < self@.len(),
        ensures
            r@ == self@[i as int].0,
    {
        &self.entries[i].0
    }

    /// The `i`-th solution.
    pub fn value_at(&self, i: usize) -> (r: &CicTerm)
        requires
            i < self@.len(),
        ensures
            r@ == self@[i as int].1,
    {
        &self.entries[i].1
    }

    /// The solved keys, in order.
    pub fn names(&self) -> (r: Vec<String>)
        ensures
            r@.len() == self@.len(),
            forall|i: int| 0 <= i < r@.len() ==> (#[trigger] r@[i])@ == self@[i].0,
    {
        let mut out: Vec<String> = Vec::new();
        let mut i: usize = 0;
        while i < self.entries.len()
            invariant
                i <= self@.len(),
                self@.len() == self.entries@.len(),
                out@.len() == i,
                forall|j: int| 0 <= j < i ==> (#[trigger] out@[j])@ == self@[j].0,
            decreases self@.len() - i,
        {
            out.push(self.entries[i].0.clone());
            i = i + 1;
        }
        out
    }

    /// The solution of `name`, if it is solved.
    pub fn get(&self, name: &str) -> (r: Option<&CicTerm>)
        ensures
            match subst_lookup(self@, name@) {
                Some(t) => r matches Some(x) && x@ == t,
                None => r is None,
            },
    {
        let n = self.entries.len();
        let mut i: usize = n;
        while i > 0
            invariant
                i <= n,
                n == self@.len(),
                n == self.entries@.len(),
                forall|j: int| i <= j < n ==> self@[j].0 != name@,
            decreases i,
        {
            if str_eq(self.entries[i - 1].0.as_str(), name) {
                proof {
                    lemma_lookup_skip(self@, name@, i as int);
                    assert(self@.subrange(0, i as int).last() == self@[i - 1]);
                }
                return Some(&self.entries[i - 1].1);
            }
            i = i - 1;
        }
        proof {
            lemma_lookup_skip(self@, name@, 0);
        }
        None
    }

    /// Sets the solution of `name` to `value`: in place when `name` is
    /// already solved, at the end otherwise.
    pub fn insert(&mut self, name: String, value: CicTerm)
        ensures
            final(self)@ == subst_insert(old(self)@, name@, value@),
    {
        let n = self.entries.len();
        let mut i: usize = n;
        while i > 0
            invariant
                i <= n,
                n == self@.len(),
                n == self.entries@.len(),
                *self == *old(self),
                forall|j: int| i <= j < n ==> self@[j].0 != name@,
            decreases i,
        {
            if str_eq(self.entries[i - 1].0.as_str(), name.as_str()) {
                let ghost before = self@;
                proof {
                    let k = (i - 1) as int;
                    assert(before[k].0 == name@);
                    let c = choose|c: int| 0 <= c < before.len() && before[c].0 == name@ && forall|j: int| c < j < before.len() ==> before[j].0 != name@;
                    if c < k {
                        assert(before[k].0 != name@);
                    }
                    if c > k {
                        assert(before[c].0 != name@);
                    }
                    assert(c == k);
                }
                self.entries.set(i - 1, (name, value));
                proof {
                    assert(self@ =~= before.update(i - 1, (name@, value@)));
                }
                return;
            }
            i = i - 1;
        }
        let ghost before = self@;
        self.entries.push((name, value));
        proof {
            assert(self@ =~= before.push((name@, value@)));
        }
    }

    /// Appends the solution `value` of the unsolved key `name`.
    pub fn push_new(&mut self, name: String, value: CicTerm)
        requires
            subst_lookup(old(self)@, name@) is None,
        ensures
            final(self)@ == old(self)@.push((name@, value@)),
    {
        let ghost before = self@;
        self.entries.push((name, value));
        proof {
            assert(self@ =~= before.push((name@, value@)));
        }
    }
}

/// Looking up a key after setting it gives the value set, and leaves every
/// other key as it was.
pub proof fn law_insert_then_lookup(s: Seq<(Seq<char>, Term)>, key: Seq<char>, value: Term, other: Seq<char>)
    requires
        other != key,
    ensures
        subst_lookup(subst_insert(s, key, value), key) == Some(value),
        subst_lookup(subst_insert(s, key, value), other) == subst_lookup(s, other),
{
    let r = subst_insert(s, key, value);
    if exists|i: int| 0 <= i < s.len() && s[i].0 == key {
        let i = choose|i: int| 0 <= i < s.len() && s[i].0 == key && forall|j: int| i < j < s.len() ==> s[j].0 != key;
        assert(exists|i: int| 0 <= i < s.len() && s[i].0 == key && forall|j: int| i < j < s.len() ==> s[j].0 != key) by {
            lemma_last_occurrence(s, key);
        }
        lemma_lookup_skip(r, key, i + 1);
        assert(r.subrange(0, i + 1).last() == (key, value));
        lemma_lookup_update(s, i, key, value, other);
    } else {
        assert(r.drop_last() == s);
    }
}

/// A key that occurs has a last occurrence.
proof fn lemma_last_occurrence(s: Seq<(Seq<char>, Term)>, key: Seq<char>)
    requires
        exists|i: int| 0 <= i < s.len() && s[i].0 == key,
    ensures
        exists|i: int| 0 <= i < s.len() && s[i].0 == key && forall|j: int| i < j < s.len() ==> s[j].0 != key,
    decreases s.len(),
{
    if s.last().0 == key {
        assert(forall|j: int| s.len() - 1 < j < s.len() ==> s[j].0 != key);
    } else {
        let init = s.drop_last();
        let w = choose|i: int| 0 <= i < s.len() && s[i].0 == key;
        assert(init[w].0 == key);
        lemma_last_occurrence(init, key);
        let i = choose|i: int| 0 <= i < init.len() && init[i].0 == key && forall|j: int| i < j < init.len() ==> init[j].0 != key;
        assert(s[i].0 == key);
        assert forall|j: int| i < j < s.len() implies s[j].0 != key by {
            if j < init.len() {
                assert(init[j] == s[j]);
            }
        }
    }
}

/// Updating the entry at `i` to another key's value leaves lookups of
/// `other` unchanged.
proof fn lemma_lookup_update(s: Seq<(Seq<char>, Term)>, i: int, key: Seq<char>, value: Term, other: Seq<char>)
    requires
        0 <= i < s.len(),
        s[i].0 == key,
        other != key,
    ensures
        subst_lookup(s.update(i, (key, value)), other) == subst_lookup(s, other),
    decreases s.len(),
{
    let u = s.update(i, (key, value));
    if i < s.len() - 1 {
        assert(u.drop_last() =~= s.drop_last().update(i, (key, value)));
        lemma_lookup_update(s.drop_last(), i, key, value, other);
    } else {
        assert(u.drop_last() =~= s.drop_last());
    }
}

} // verus!
