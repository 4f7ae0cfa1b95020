use vstd::prelude::*;
use crate::cic::model::{
    depth_ok, fits_substitution, indices_le, lemma_indices_le_mono, spec_binder_count, spec_subst, view_strings,
};
use crate::cic::term::{CicTerm, NameKind, Term};
use crate::cic::utils::{pattern_binder_names, substitute_and_lift};

verus! {

/// The largest De Bruijn index occurring in `t`, or 0.
pub open spec fn spec_max_index(t: Term) -> int
    decreases t,
{
    match t {
        Term::Var(_, NameKind::Bound(d)) => if d > 0 { d as int } else { 0 },
        Term::Abs(_, a, b) => max2(spec_max_index(*a), spec_max_index(*b)),
        Term::Prod(_, a, b) => max2(spec_max_index(*a), spec_max_index(*b)),
        Term::App(l, r) => max2(spec_max_index(*l), spec_max_index(*r)),
        Term::Let(_, ty, b, s) => max2(
            match ty {
                Some(x) => spec_max_index(*x),
                None => 0,
            },
            max2(spec_max_index(*b), spec_max_index(*s)),
        ),
        Term::Match(m, bs) => max2(spec_max_index(*m), spec_max_index_branches(bs)),
        _ => 0,
    }
}

/// The largest De Bruijn index occurring in a list of branches, or 0.
pub open spec fn spec_max_index_branches(bs: Seq<(Term, Term)>) -> int
    decreases bs,
{
    if bs.len() == 0 {
        0
    } else {
        let last = bs[bs.len() - 1];
        max2(
            spec_max_index_branches(bs.subrange(0, bs.len() - 1)),
            max2(spec_max_index(last.0), spec_max_index(last.1)),
        )
    }
}

pub open spec fn max2(a: int, b: int) -> int {
    if a >= b { a } else { b }
}

/// Substituting `arg` into `term` keeps every index and depth within `i32`.
pub open spec fn subst_fits(term: Term, arg: Term) -> bool {
    depth_ok(arg, 0, i32::MAX as int) && depth_ok(term, 0, i32::MAX - spec_max_index(arg))
}

/// Every index of `t` is at most its largest index, which is not negative.
pub proof fn lemma_max_index(t: Term)
    ensures
        0 <= spec_max_index(t),
        indices_le(t, spec_max_index(t)),
    decreases t,
{
    match t {
        Term::Abs(_, a, b) => {
            lemma_max_index(*a);
            lemma_max_index(*b);
            lemma_indices_le_mono(*a, spec_max_index(*a), spec_max_index(t));
            lemma_indices_le_mono(*b, spec_max_index(*b), spec_max_index(t));
        },
        Term::Prod(_, a, b) => {
            lemma_max_index(*a);
            lemma_max_index(*b);
            lemma_indices_le_mono(*a, spec_max_index(*a), spec_max_index(t));
            lemma_indices_le_mono(*b, spec_max_index(*b), spec_max_index(t));
        },
        Term::App(a, b) => {
            lemma_max_index(*a);
            lemma_max_index(*b);
            lemma_indices_le_mono(*a, spec_max_index(*a), spec_max_index(t));
            lemma_indices_le_mono(*b, spec_max_index(*b), spec_max_index(t));
        },
        Term::Let(_, ty, b, s) => {
            if let Some(x) = ty {
                lemma_max_index(*x);
                lemma_indices_le_mono(*x, spec_max_index(*x), spec_max_index(t));
            }
            lemma_max_index(*b);
            lemma_max_index(*s);
            lemma_indices_le_mono(*b, spec_max_index(*b), spec_max_index(t));
            lemma_indices_le_mono(*s, spec_max_index(*s), spec_max_index(t));
        },
        Term::Match(m, bs) => {
            lemma_max_index(*m);
            lemma_indices_le_mono(*m, spec_max_index(*m), spec_max_index(t));
            lemma_max_index_branches(bs);
            assert forall|i: int| 0 <= i < bs.len() implies indices_le(#[trigger] bs[i].0, spec_max_index(t))
                && indices_le(bs[i].1, spec_max_index(t)) by {
                lemma_indices_le_mono(bs[i].0, spec_max_index_branches(bs), spec_max_index(t));
                lemma_indices_le_mono(bs[i].1, spec_max_index_branches(bs), spec_max_index(t));
            }
        },
        _ => {},
    }
}

/// Every index of a list of branches is at most their largest index.
pub proof fn lemma_max_index_branches(bs: Seq<(Term, Term)>)
    ensures
        0 <= spec_max_index_branches(bs),
        forall|i: int|
            0 <= i < bs.len() ==> indices_le(#[trigger] bs[i].0, spec_max_index_branches(bs))
                && indices_le(bs[i].1, spec_max_index_branches(bs)),
    decreases bs,
{
    if bs.len() > 0 {
        let init = bs.subrange(0, bs.len() - 1);
        let last = bs[bs.len() - 1];
        lemma_max_index_branches(init);
        lemma_max_index(last.0);
        lemma_max_index(last.1);
        let m = spec_max_index_branches(bs);
        assert forall|i: int| 0 <= i < bs.len() implies indices_le(#[trigger] bs[i].0, m) && indices_le(bs[i].1, m) by {
            if i < bs.len() - 1 {
                assert(bs[i] == init[i]);
                lemma_indices_le_mono(bs[i].0, spec_max_index_branches(init), m);
                lemma_indices_le_mono(bs[i].1, spec_max_index_branches(init), m);
            } else {
                lemma_indices_le_mono(bs[i].0, spec_max_index(last.0), m);
                lemma_indices_le_mono(bs[i].1, spec_max_index(last.1), m);
            }
        }
    }
}

/// The largest De Bruijn index of `term`, or 0.
pub fn max_bound_index(term: &CicTerm) -> (r: i32)
    ensures
        r == spec_max_index(term@),
    decreases term,
{
    match term {
        CicTerm::Variable(_, NameKind::Bound(d)) => if *d > 0 { *d } else { 0 },
        CicTerm::Abstraction(_, a, b) => max_i32(max_bound_index(a), max_bound_index(b)),
        CicTerm::Product(_, a, b) => max_i32(max_bound_index(a), max_bound_index(b)),
        CicTerm::Application(a, b) => max_i32(max_bound_index(a), max_bound_index(b)),
        CicTerm::Let(_, ty, b, s) => {
            let t = match &**ty {
                Some(x) => max_bound_index(x),
                None => 0,
            };
            max_i32(t, max_i32(max_bound_index(b), max_bound_index(s)))
        },
        CicTerm::Match(m, bs) => {
            let ghost vbs = crate::cic::term::view_branches(bs@);
            proof {
                crate::cic::term::lemma_match_view(**m, *bs);
            }
            let mut acc: i32 = 0;
            let mut i: usize = 0;
            while i < bs.len()
                invariant
                    *term == CicTerm::Match(*m, *bs),
                    vbs == crate::cic::term::view_branches(bs@),
                    i <= bs@.len(),
                    acc == spec_max_index_branches(vbs.subrange(0, i as int)),
                decreases bs@.len() - i,
            {
                proof {
                    assert(decreases_to!(*term => (*term)->Match_1));
                    assert(decreases_to!(*bs => bs@));
                    assert(decreases_to!(bs@ => bs@[i as int]));
                    let pre = vbs.subrange(0, i + 1);
                    assert(pre.subrange(0, pre.len() - 1) =~= vbs.subrange(0, i as int));
                    assert(pre[pre.len() - 1] == (bs@[i as int].0@, bs@[i as int].1@));
                }
                let p = max_bound_index(&bs[i].0);
                let b = max_bound_index(&bs[i].1);
                acc = max_i32(acc, max_i32(p, b));
                i = i + 1;
            }
            proof {
                assert(vbs.subrange(0, bs@.len() as int) =~= vbs);
            }
            max_i32(max_bound_index(m), acc)
        },
        _ => 0,
    }
}

fn max_i32(a: i32, b: i32) -> (r: i32)
    ensures
        r == max2(a as int, b as int),
{
    if a >= b { a } else { b }
}

/// Whether every binder depth reached while walking `term` from `depth`
/// stays within `0..=limit`.
pub fn depth_fits(term: &CicTerm, depth: i32, limit: i32) -> (r: bool)
    ensures
        r == depth_ok(term@, depth as int, limit as int),
    decreases term,
{
    if depth < 0 || depth > limit {
        return false;
    }
    match term {
        CicTerm::Abstraction(_, a, b) => depth_fits(a, depth, limit) && depth < limit && depth_fits(b, depth + 1, limit),
        CicTerm::Product(_, a, b) => depth_fits(a, depth, limit) && depth < limit && depth_fits(b, depth + 1, limit),
        CicTerm::Application(a, b) => depth_fits(a, depth, limit) && depth_fits(b, depth, limit),
        CicTerm::Let(_, ty, b, s) => {
            if depth >= limit {
                return false;
            }
            let ty_ok = match &**ty {
                Some(x) => depth_fits(x, depth + 1, limit),
                None => true,
            };
            ty_ok && depth_fits(b, depth, limit) && depth_fits(s, depth + 1, limit)
        },
        CicTerm::Match(m, bs) => {
            proof {
                crate::cic::term::lemma_match_view(**m, *bs);
            }
            if !depth_fits(m, depth, limit) {
                return false;
            }
            let mut i: usize = 0;
            while i < bs.len()
                invariant
                    *term == CicTerm::Match(*m, *bs),
                    0 <= depth <= limit,
                    i <= bs@.len(),
                    forall|j: int| 0 <= j < i ==> {
                        &&& depth + spec_binder_count(#[trigger] bs@[j].0@) <= limit
                        &&& depth_ok(bs@[j].0@, depth + spec_binder_count(bs@[j].0@), limit as int)
                        &&& depth_ok(bs@[j].1@, depth + spec_binder_count(bs@[j].0@), limit as int)
                    },
                decreases bs@.len() - i,
            {
                proof {
                    assert(decreases_to!(*term => (*term)->Match_1));
                    assert(decreases_to!(*bs => bs@));
                    assert(decreases_to!(bs@ => bs@[i as int]));
                }
                let names = pattern_binder_names(&bs[i].0);
                proof {
                    assert(view_strings(names@).len() == names@.len());
                }
                let count = names.len();
                if count > (limit - depth) as usize {
                    proof {
                        let vb = (term@)->Match_1;
                        assert(vb[i as int] == (bs@[i as int].0@, bs@[i as int].1@));
                        assert(spec_binder_count(vb[i as int].0) == count);
                        assert(depth + spec_binder_count(vb[i as int].0) > limit);
                        assert(term@ == Term::Match(Box::new(m@), vb));
                        assert(!depth_ok(term@, depth as int, limit as int));
                    }
                    return false;
                }
                let inner: i32 = depth + count as i32;
                if !depth_fits(&bs[i].0, inner, limit) || !depth_fits(&bs[i].1, inner, limit) {
                    proof {
                        let vb = (term@)->Match_1;
                        assert(vb[i as int] == (bs@[i as int].0@, bs@[i as int].1@));
                        assert(spec_binder_count(vb[i as int].0) == count);
                        assert(term@ == Term::Match(Box::new(m@), vb));
                        assert(!depth_ok(term@, depth as int, limit as int));
                    }
                    return false;
                }
                proof {
                    assert(spec_binder_count(bs@[i as int].0@) == count);
                }
                i = i + 1;
            }
            proof {
                let vb = (term@)->Match_1;
                assert forall|j: int| 0 <= j < vb.len() implies {
                    &&& depth + spec_binder_count(#[trigger] vb[j].0) <= limit
                    &&& depth_ok(vb[j].0, depth + spec_binder_count(vb[j].0), limit as int)
                    &&& depth_ok(vb[j].1, depth + spec_binder_count(vb[j].0), limit as int)
                } by {
                    assert(vb[j] == (bs@[j].0@, bs@[j].1@));
                }
            }
            true
        },
        _ => true,
    }
}

/// Substitution within bounds is substitution as `substitute` takes it.
pub proof fn lemma_subst_fits(term: Term, arg: Term)
    requires
        subst_fits(term, arg),
    ensures
        fits_substitution(term, arg),
{
    lemma_max_index(arg);
    let k = spec_max_index(arg);
    assert(0 <= k && depth_ok(term, 0, i32::MAX - k) && indices_le(arg, k) && depth_ok(arg, 0, i32::MAX as int));
}

/// `substitute(term, target_name, arg)` when its indices and depths stay
/// within `i32`, `None` otherwise.
pub fn try_substitute(term: &CicTerm, target_name: &str, arg: &CicTerm) -> (r: Option<CicTerm>)
    ensures
        r is Some <==> subst_fits(term@, arg@),
        r matches Some(t) ==> t@ == spec_subst(term@, target_name@, arg@, 0),
{
    let k = max_bound_index(arg);
    proof {
        lemma_max_index(arg@);
    }
    if depth_fits(arg, 0, i32::MAX) && depth_fits(term, 0, i32::MAX - k) {
        proof {
            lemma_subst_fits(term@, arg@);
        }
        Some(substitute_and_lift(term, target_name, arg))
    } else {
        None
    }
}

} // verus!
