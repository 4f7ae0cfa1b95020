use vstd::prelude::*;
use crate::cic::model::{
    spec_application_args, spec_applied_function, spec_apply_args, spec_arg_types, spec_multiarg_fun_type,
    depth_ok, spec_subst, spec_shift, indices_le, lemma_depth_ok_branch, lemma_indices_le_branch, spec_arg_binder_names,
    spec_binder_count, spec_close, spec_open, spec_pattern_binder_names,
};
use crate::cic::term::{NameKind, Term};

verus! {

/// Opening keeps the number of binders a pattern introduces.
pub proof fn lemma_open_keeps_binder_names(t: Term, name: Seq<char>, depth: int)
    ensures
        spec_pattern_binder_names(spec_open(t, name, depth)).len() == spec_pattern_binder_names(t).len(),
        spec_arg_binder_names(spec_open(t, name, depth)).len() == spec_arg_binder_names(t).len(),
    decreases t,
{
    match t {
        Term::App(l, r) => {
            lemma_open_keeps_binder_names(*l, name, depth);
            lemma_open_keeps_binder_names(*r, name, depth);
        },
        _ => {},
    }
}

/// Closing keeps the number of binders a pattern introduces.
pub proof fn lemma_close_keeps_binder_names(t: Term, name: Seq<char>, depth: int)
    ensures
        spec_pattern_binder_names(spec_close(t, name, depth)).len() == spec_pattern_binder_names(t).len(),
        spec_arg_binder_names(spec_close(t, name, depth)).len() == spec_arg_binder_names(t).len(),
    decreases t,
{
    match t {
        Term::App(l, r) => {
            lemma_close_keeps_binder_names(*l, name, depth);
            lemma_close_keeps_binder_names(*r, name, depth);
        },
        _ => {},
    }
}

/// Opening a term just closed over `name`, at the same binder, gives it back.
pub proof fn law_open_close(t: Term, name: Seq<char>, depth: int)
    requires
        depth_ok(t, depth, i32::MAX as int),
        indices_le(t, i32::MAX - 1),
    ensures
        spec_open(spec_close(t, name, depth), name, depth) == t,
    decreases t,
{
    match t {
        Term::App(l, r) => {
            law_open_close(*l, name, depth);
            law_open_close(*r, name, depth);
        },
        Term::Abs(n, d, c) => {
            law_open_close(*d, name, depth);
            law_open_close(*c, name, depth + 1);
        },
        Term::Prod(n, d, c) => {
            law_open_close(*d, name, depth);
            law_open_close(*c, name, depth + 1);
        },
        Term::Let(n, ty, b, s) => {
            if let Some(x) = ty {
                law_open_close(*x, name, depth + 1);
            }
            law_open_close(*b, name, depth);
            law_open_close(*s, name, depth + 1);
        },
        Term::Match(m, bs) => {
            law_open_close(*m, name, depth);
            let closed = spec_close(t, name, depth);
            let cbs = closed->Match_1;
            assert forall|i: int| 0 <= i < bs.len() implies #[trigger] spec_open(closed, name, depth)->Match_1[i] == bs[i] by {
                lemma_depth_ok_branch(*m, bs, i, depth, i32::MAX as int);
                lemma_indices_le_branch(*m, bs, i, i32::MAX - 1);
                let inner = depth + spec_binder_count(bs[i].0);
                lemma_close_keeps_binder_names(bs[i].0, name, inner);
                assert(cbs[i].0 == spec_close(bs[i].0, name, inner));
                assert(spec_binder_count(cbs[i].0) == spec_binder_count(bs[i].0));
                law_open_close(bs[i].0, name, inner);
                law_open_close(bs[i].1, name, inner);
            }
            assert(spec_open(closed, name, depth)->Match_1 =~= bs);
        },
        _ => {},
    }
}

/// `name` does not occur locally free in `t`, and every occurrence of the
/// binder at `depth` is named `name`.
pub open spec fn opens_cleanly(t: Term, name: Seq<char>, depth: int) -> bool
    decreases t,
{
    match t {
        Term::Var(n, NameKind::Local()) => n != name,
        Term::Var(n, NameKind::Bound(d)) => d == depth ==> n == name,
        Term::App(l, r) => opens_cleanly(*l, name, depth) && opens_cleanly(*r, name, depth),
        Term::Abs(_, d, c) => opens_cleanly(*d, name, depth) && opens_cleanly(*c, name, depth + 1),
        Term::Prod(_, d, c) => opens_cleanly(*d, name, depth) && opens_cleanly(*c, name, depth + 1),
        Term::Let(_, ty, b, s) => {
            &&& match ty {
                Some(x) => opens_cleanly(*x, name, depth + 1),
                None => true,
            }
            &&& opens_cleanly(*b, name, depth)
            &&& opens_cleanly(*s, name, depth + 1)
        },
        Term::Match(m, bs) => {
            &&& opens_cleanly(*m, name, depth)
            &&& forall|i: int|
                0 <= i < bs.len() ==> {
                    &&& opens_cleanly(#[trigger] bs[i].0, name, depth + spec_binder_count(bs[i].0))
                    &&& opens_cleanly(bs[i].1, name, depth + spec_binder_count(bs[i].0))
                }
        },
        _ => true,
    }
}

/// Closing a term just opened at a binder whose occurrences are all named
/// `name`, when `name` is not already locally free, gives it back.
pub proof fn law_close_open(t: Term, name: Seq<char>, depth: int)
    requires
        depth_ok(t, depth, i32::MAX as int),
        opens_cleanly(t, name, depth),
    ensures
        spec_close(spec_open(t, name, depth), name, depth) == t,
    decreases t,
{
    match t {
        Term::App(l, r) => {
            law_close_open(*l, name, depth);
            law_close_open(*r, name, depth);
        },
        Term::Abs(n, d, c) => {
            law_close_open(*d, name, depth);
            law_close_open(*c, name, depth + 1);
        },
        Term::Prod(n, d, c) => {
            law_close_open(*d, name, depth);
            law_close_open(*c, name, depth + 1);
        },
        Term::Let(n, ty, b, s) => {
            if let Some(x) = ty {
                law_close_open(*x, name, depth + 1);
            }
            law_close_open(*b, name, depth);
            law_close_open(*s, name, depth + 1);
        },
        Term::Match(m, bs) => {
            law_close_open(*m, name, depth);
            let opened = spec_open(t, name, depth);
            let obs = opened->Match_1;
            assert forall|i: int| 0 <= i < bs.len() implies #[trigger] spec_close(opened, name, depth)->Match_1[i] == bs[i] by {
                lemma_depth_ok_branch(*m, bs, i, depth, i32::MAX as int);
                let inner = depth + spec_binder_count(bs[i].0);
                lemma_open_keeps_binder_names(bs[i].0, name, inner);
                assert(obs[i].0 == spec_open(bs[i].0, name, inner));
                assert(spec_binder_count(obs[i].0) == spec_binder_count(bs[i].0));
                law_close_open(bs[i].0, name, inner);
                law_close_open(bs[i].1, name, inner);
            }
            assert(spec_close(opened, name, depth)->Match_1 =~= bs);
        },
        _ => {},
    }
}

/// Opening keeps the binder depths within their limit and raises no index.
pub proof fn lemma_open_keeps_bounds(t: Term, name: Seq<char>, depth: int, limit: int, k: int)
    requires
        depth_ok(t, depth, limit),
    ensures
        depth_ok(spec_open(t, name, depth), depth, limit),
        indices_le(t, k) ==> indices_le(spec_open(t, name, depth), k),
    decreases t,
{
    match t {
        Term::App(l, r) => {
            lemma_open_keeps_bounds(*l, name, depth, limit, k);
            lemma_open_keeps_bounds(*r, name, depth, limit, k);
        },
        Term::Abs(_, d, c) => {
            lemma_open_keeps_bounds(*d, name, depth, limit, k);
            lemma_open_keeps_bounds(*c, name, depth + 1, limit, k);
        },
        Term::Prod(_, d, c) => {
            lemma_open_keeps_bounds(*d, name, depth, limit, k);
            lemma_open_keeps_bounds(*c, name, depth + 1, limit, k);
        },
        Term::Let(_, ty, b, s) => {
            if let Some(x) = ty {
                lemma_open_keeps_bounds(*x, name, depth + 1, limit, k);
            }
            lemma_open_keeps_bounds(*b, name, depth, limit, k);
            lemma_open_keeps_bounds(*s, name, depth + 1, limit, k);
        },
        Term::Match(m, bs) => {
            lemma_open_keeps_bounds(*m, name, depth, limit, k);
            let opened = spec_open(t, name, depth);
            let obs = opened->Match_1;
            assert forall|i: int| 0 <= i < obs.len() implies {
                &&& depth + spec_binder_count(#[trigger] obs[i].0) <= limit
                &&& depth_ok(obs[i].0, depth + spec_binder_count(obs[i].0), limit)
                &&& depth_ok(obs[i].1, depth + spec_binder_count(obs[i].0), limit)
                &&& (indices_le(t, k) ==> indices_le(obs[i].0, k) && indices_le(obs[i].1, k))
            } by {
                lemma_depth_ok_branch(*m, bs, i, depth, limit);
                let inner = depth + spec_binder_count(bs[i].0);
                lemma_open_keeps_binder_names(bs[i].0, name, inner);
                assert(obs[i].0 == spec_open(bs[i].0, name, inner));
                lemma_open_keeps_bounds(bs[i].0, name, inner, limit, k);
                lemma_open_keeps_bounds(bs[i].1, name, inner, limit, k);
                if indices_le(t, k) {
                    lemma_indices_le_branch(*m, bs, i, k);
                }
            }
        },
        _ => {},
    }
}

/// Closing keeps the binder depths within their limit, and indices below
/// the limit stay within it.
pub proof fn lemma_close_keeps_bounds(t: Term, name: Seq<char>, depth: int, limit: int)
    requires
        depth_ok(t, depth, limit),
    ensures
        depth_ok(spec_close(t, name, depth), depth, limit),
        indices_le(t, limit - 1) ==> indices_le(spec_close(t, name, depth), limit),
    decreases t,
{
    match t {
        Term::App(l, r) => {
            lemma_close_keeps_bounds(*l, name, depth, limit);
            lemma_close_keeps_bounds(*r, name, depth, limit);
        },
        Term::Abs(_, d, c) => {
            lemma_close_keeps_bounds(*d, name, depth, limit);
            lemma_close_keeps_bounds(*c, name, depth + 1, limit);
        },
        Term::Prod(_, d, c) => {
            lemma_close_keeps_bounds(*d, name, depth, limit);
            lemma_close_keeps_bounds(*c, name, depth + 1, limit);
        },
        Term::Let(_, ty, b, s) => {
            if let Some(x) = ty {
                lemma_close_keeps_bounds(*x, name, depth + 1, limit);
            }
            lemma_close_keeps_bounds(*b, name, depth, limit);
            lemma_close_keeps_bounds(*s, name, depth + 1, limit);
        },
        Term::Match(m, bs) => {
            lemma_close_keeps_bounds(*m, name, depth, limit);
            let closed = spec_close(t, name, depth);
            let cbs = closed->Match_1;
            assert forall|i: int| 0 <= i < cbs.len() implies {
                &&& depth + spec_binder_count(#[trigger] cbs[i].0) <= limit
                &&& depth_ok(cbs[i].0, depth + spec_binder_count(cbs[i].0), limit)
                &&& depth_ok(cbs[i].1, depth + spec_binder_count(cbs[i].0), limit)
                &&& (indices_le(t, limit - 1) ==> indices_le(cbs[i].0, limit) && indices_le(cbs[i].1, limit))
            } by {
                lemma_depth_ok_branch(*m, bs, i, depth, limit);
                let inner = depth + spec_binder_count(bs[i].0);
                lemma_close_keeps_binder_names(bs[i].0, name, inner);
                assert(cbs[i].0 == spec_close(bs[i].0, name, inner));
                lemma_close_keeps_bounds(bs[i].0, name, inner, limit);
                lemma_close_keeps_bounds(bs[i].1, name, inner, limit);
                if indices_le(t, limit - 1) {
                    lemma_indices_le_branch(*m, bs, i, limit - 1);
                }
            }
        },
        _ => {},
    }
}

/// Closing a term over `name` and opening the result gives the term back;
/// the closed term meets what `open_term` requires, so `close_term` then
/// `open_term` can be called in a row.
pub proof fn law_open_term_close_term(b: Term, name: Seq<char>)
    requires
        depth_ok(b, 0, i32::MAX as int),
        indices_le(b, i32::MAX - 1),
    ensures
        depth_ok(spec_close(b, name, 0), 0, i32::MAX as int),
        spec_open(spec_close(b, name, 0), name, 0) == b,
{
    lemma_close_keeps_bounds(b, name, 0, i32::MAX as int);
    law_open_close(b, name, 0);
}

/// Opening a term at its outer binder, named `name` wherever it occurs, and
/// closing the result over `name` gives the term back, when `name` is not
/// already locally free; the opened term meets what `close_term` requires,
/// so `open_term` then `close_term` can be called in a row.
pub proof fn law_close_term_open_term(b: Term, name: Seq<char>)
    requires
        depth_ok(b, 0, i32::MAX as int),
        indices_le(b, i32::MAX - 1),
        opens_cleanly(b, name, 0),
    ensures
        depth_ok(spec_open(b, name, 0), 0, i32::MAX as int),
        indices_le(spec_open(b, name, 0), i32::MAX - 1),
        spec_close(spec_open(b, name, 0), name, 0) == b,
{
    lemma_open_keeps_bounds(b, name, 0, i32::MAX as int, i32::MAX - 1);
    law_close_open(b, name, 0);
}

/// The argument types of a function type built from named arguments and a
/// base type are the arguments' types, in order, then those of the base.
pub proof fn law_arg_types_of_multiarg_fun_type(args: Seq<(Seq<char>, Term)>, base: Term)
    ensures
        spec_arg_types(spec_multiarg_fun_type(args, base)) == args.map_values(|a: (Seq<char>, Term)| a.1)
            + spec_arg_types(base),
    decreases args.len(),
{
    if args.len() == 0 {
        assert(args.map_values(|a: (Seq<char>, Term)| a.1) + spec_arg_types(base) =~= spec_arg_types(base));
    } else {
        law_arg_types_of_multiarg_fun_type(args.skip(1), base);
        assert(args.map_values(|a: (Seq<char>, Term)| a.1) =~= seq![args[0].1] + args.skip(1).map_values(
            |a: (Seq<char>, Term)| a.1,
        ));
        assert(seq![args[0].1] + (args.skip(1).map_values(|a: (Seq<char>, Term)| a.1) + spec_arg_types(base))
            =~= args.map_values(|a: (Seq<char>, Term)| a.1) + spec_arg_types(base));
    }
}

/// Taking apart an application built by applying a function that is not
/// itself an application to arguments gives back the arguments and the function.
pub proof fn law_take_apart_application(f: Term, args: Seq<Term>)
    requires
        !(f is App),
    ensures
        spec_application_args(spec_apply_args(f, args)) == args,
        spec_applied_function(spec_apply_args(f, args)) == f,
    decreases args.len(),
{
    if args.len() == 0 {
        assert(spec_application_args(f) =~= args);
    } else {
        law_take_apart_application(f, args.drop_last());
        assert(args.drop_last().push(args.last()) =~= args);
    }
}

/// Substituting the locally free `name` for the binder at `depth`, when every
/// occurrence of that binder is named `name`, is opening the binder as `name`.
pub proof fn law_subst_local_is_open(t: Term, name: Seq<char>, depth: int)
    requires
        opens_cleanly(t, name, depth),
    ensures
        spec_subst(t, name, Term::Var(name, NameKind::Local()), depth) == spec_open(t, name, depth),
    decreases t,
{
    let local = Term::Var(name, NameKind::Local());
    assert(spec_shift(local, depth) == local) by {
        reveal_with_fuel(crate::cic::model::spec_shift_from, 2);
    }
    match t {
        Term::App(l, r) => {
            law_subst_local_is_open(*l, name, depth);
            law_subst_local_is_open(*r, name, depth);
        },
        Term::Abs(_, d, c) => {
            law_subst_local_is_open(*d, name, depth);
            law_subst_local_is_open(*c, name, depth + 1);
        },
        Term::Prod(_, d, c) => {
            law_subst_local_is_open(*d, name, depth);
            law_subst_local_is_open(*c, name, depth + 1);
        },
        Term::Let(_, ty, b, s) => {
            if let Some(x) = ty {
                law_subst_local_is_open(*x, name, depth + 1);
            }
            law_subst_local_is_open(*b, name, depth);
            law_subst_local_is_open(*s, name, depth + 1);
        },
        Term::Match(m, bs) => {
            law_subst_local_is_open(*m, name, depth);
            assert forall|i: int| 0 <= i < bs.len() implies #[trigger] spec_subst(t, name, local, depth)->Match_1[i]
                == spec_open(t, name, depth)->Match_1[i] by {
                let inner = depth + spec_binder_count(bs[i].0);
                law_subst_local_is_open(bs[i].0, name, inner);
                law_subst_local_is_open(bs[i].1, name, inner);
            }
            assert(spec_subst(t, name, local, depth)->Match_1 =~= spec_open(t, name, depth)->Match_1);
        },
        _ => {},
    }
}

} // verus!
