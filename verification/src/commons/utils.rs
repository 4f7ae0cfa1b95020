use vstd::prelude::*;
use crate::cic::model::view_strings;

verus! {

/// The names bound around a point of an expression, outermost first.
pub struct ElabStore {
    names: Vec<String>,
}

impl View for ElabStore {
    type V = Seq<Seq<char>>;

    closed spec fn view(&self) -> Seq<Seq<char>> {
        view_strings(self.names@)
    }
}

/// De Bruijn index of `name` in `store`: the number of names bound after its
/// innermost binding, or `None` when it is not bound.
pub open spec fn spec_lookup(store: Seq<Seq<char>>, name: Seq<char>) -> Option<int>
    decreases store.len(),
{
    if store.len() == 0 {
        None
    } else if store.last() == name {
        Some(0)
    } else {
        match spec_lookup(store.drop_last(), name) {
            Some(d) => Some(d + 1),
            None => None,
        }
    }
}

/// A found index points inside the store.
pub proof fn lemma_lookup_range(store: Seq<Seq<char>>, name: Seq<char>)
    ensures
        spec_lookup(store, name) matches Some(d) ==> 0 <= d < store.len(),
    decreases store.len(),
{
    if store.len() > 0 {
        lemma_lookup_range(store.drop_last(), name);
    }
}

/// Looking up past a suffix of other names adds the suffix's length.
proof fn lemma_lookup_skip(store: Seq<Seq<char>>, name: Seq<char>, i: int)
    requires
        0 <= i <= store.len(),
        forall|j: int| i <= j < store.len() ==> store[j] != name,
    ensures
        spec_lookup(store, name) == (match spec_lookup(store.subrange(0, i), name) {
            Some(d) => Some(d + (store.len() - i)),
            None => None::<int>,
        }),
    decreases store.len() - i,
{
    if i == store.len() {
        assert(store.subrange(0, i) =~= store);
    } else {
        lemma_lookup_skip(store.drop_last(), name, i);
        assert(store.drop_last().subrange(0, i) =~= store.subrange(0, i));
    }
}

impl ElabStore {
    /// The store of a closed expression: nothing bound.
    pub fn empty() -> (r: ElabStore)
        ensures
            r@ == Seq::<Seq<char>>::empty(),
    {
        let r = ElabStore { names: Vec::new() };
        assert(r@ =~= Seq::<Seq<char>>::empty());
        r
    }

    /// This store under one more binder, for `name`.
    pub fn push_name(&self, name: &str) -> (r: ElabStore)
        ensures
            r@ == self@.push(name@),
    {
        let mut names = self.names.clone();
        names.push(String::from_str(name));
        let r = ElabStore { names };
        assert(r@ =~= self@.push(name@));
        r
    }

    /// This store under one binder for each of `names`, in order.
    pub fn push_names(&self, names: &Vec<String>) -> (r: ElabStore)
        ensures
            r@ == self@ + view_strings(names@),
    {
        let mut out = self.names.clone();
        let mut i: usize = 0;
        while i < names.len()
            invariant
                i <= names@.len(),
                view_strings(out@) == self@ + view_strings(names@.subrange(0, i as int)),
            decreases names@.len() - i,
        {
            let ghost before = out@;
            let next = names[i].clone();
            assert(next@ == names@[i as int]@);
            out.push(next);
            proof {
                assert(out@ == before.push(next));
                assert(names@.subrange(0, i + 1) =~= names@.subrange(0, i as int).push(names@[i as int]));
                assert(view_strings(out@) =~= view_strings(before).push(next@));
                assert(view_strings(names@.subrange(0, i + 1)) =~= view_strings(names@.subrange(0, i as int)).push(next@));
                assert(view_strings(out@) =~= self@ + view_strings(names@.subrange(0, i + 1)));
            }
            i = i + 1;
        }
        assert(names@.subrange(0, names@.len() as int) =~= names@);
        ElabStore { names: out }
    }

    /// The De Bruijn index of the innermost binding of `name`, as an `i32`
    /// (a store deeper than `i32::MAX` names wraps around).
    pub fn lookup_dbi(&self, name: &str) -> (r: Option<i32>)
        ensures
            match spec_lookup(self@, name@) {
                Some(d) => r == Some(d as i32),
                None => r is None,
            },
    {
        let n = self.names.len();
        let mut i: usize = n;
        while i > 0
            invariant
                i <= n,
                n == self@.len(),
                forall|j: int| i <= j < n ==> self@[j] != name@,
            decreases i,
        {
            let candidate: &str = self.names[i - 1].as_str();
            if crate::text::str_eq(candidate, name) {
                proof {
                    lemma_lookup_skip(self@, name@, i as int);
                    assert(self@.subrange(0, i as int).last() == name@);
                }
                let d: usize = n - i;
                return Some(d as i32);
            }
            i = i - 1;
        }
        proof {
            lemma_lookup_skip(self@, name@, 0);
        }
        None
    }

    /// Number of names in the store.
    pub fn len(&self) -> (r: usize)
        ensures
            r == self@.len(),
    {
        self.names.len()
    }
}

/// The name bound last is found at index 0, and binding another name
/// shifts every other index by one.
pub proof fn law_lookup_after_push(store: Seq<Seq<char>>, name: Seq<char>, other: Seq<char>)
    requires
        other != name,
    ensures
        spec_lookup(store.push(name), name) == Some(0int),
        spec_lookup(store.push(name), other) == (match spec_lookup(store, other) {
            Some(d) => Some(d + 1),
            None => None,
        }),
{
    assert(store.push(name).drop_last() =~= store);
}

} // verus!
