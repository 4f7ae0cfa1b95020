use vstd::prelude::*;
use crate::cic::term::{no_branch, NameKind, Term};

verus! {


//########################### MODEL FUNCTIONS

/// Number of nested products at the head of `t`.
pub open spec fn prod_len(t: Term) -> nat
    decreases t,
{
    match t {
        Term::Prod(_, _, c) => 1 + prod_len(*c),
        _ => 0,
    }
}

/// Variables bound by the products of a function type, numbered from `index`.
pub open spec fn spec_variables_as_terms(t: Term, index: int) -> Seq<Term>
    decreases t,
{
    match t {
        Term::Prod(n, _, c) => seq![Term::Var(n, NameKind::Bound(index as i32))] + spec_variables_as_terms(*c, index + 1),
        _ => seq![],
    }
}

/// Domains of the products at the head of a function type.
pub open spec fn spec_arg_types(t: Term) -> Seq<Term>
    decreases t,
{
    match t {
        Term::Prod(_, d, c) => seq![*d] + spec_arg_types(*c),
        _ => seq![],
    }
}

/// `f` applied, left to right, to every element of `args`.
pub open spec fn spec_apply_args(f: Term, args: Seq<Term>) -> Term
    decreases args.len(),
{
    if args.len() == 0 {
        f
    } else {
        Term::App(Box::new(spec_apply_args(f, args.drop_last())), Box::new(args.last()))
    }
}

/// A chain of products that ends in a sort or a variable.
pub open spec fn ends_in_atom(t: Term) -> bool
    decreases t,
{
    match t {
        Term::Prod(_, _, c) => ends_in_atom(*c),
        Term::Sort(_) => true,
        Term::Var(_, _) => true,
        _ => false,
    }
}

/// `t` with the innermost body of its product chain replaced by `r`.
pub open spec fn spec_replace_result(t: Term, r: Term) -> Term
    decreases t,
{
    match t {
        Term::Prod(n, d, c) => Term::Prod(n, d, Box::new(spec_replace_result(*c, r))),
        _ => r,
    }
}

/// A chain of abstractions that ends in a sort, a variable or an application.
pub open spec fn has_hole_shape(t: Term) -> bool
    decreases t,
{
    match t {
        Term::Abs(_, _, b) => has_hole_shape(*b),
        Term::Sort(_) => true,
        Term::Var(_, _) => true,
        Term::App(_, _) => true,
        _ => false,
    }
}

/// `t` with the innermost body of its abstraction chain replaced by `r`.
pub open spec fn spec_swap_hole(t: Term, r: Term) -> Term
    decreases t,
{
    match t {
        Term::Abs(n, ty, b) => Term::Abs(n, ty, Box::new(spec_swap_hole(*b, r))),
        _ => r,
    }
}

/// The innermost body of the product chain of `t`.
pub open spec fn spec_prod_innermost(t: Term) -> Term
    decreases t,
{
    match t {
        Term::Prod(_, _, c) => spec_prod_innermost(*c),
        _ => t,
    }
}

/// The arguments of an application spine, leftmost first.
pub open spec fn spec_application_args(t: Term) -> Seq<Term>
    decreases t,
{
    match t {
        Term::App(l, r) => spec_application_args(*l).push(*r),
        _ => seq![],
    }
}

/// The head of an application spine.
pub open spec fn spec_applied_function(t: Term) -> Term
    decreases t,
{
    match t {
        Term::App(l, _) => spec_applied_function(*l),
        _ => t,
    }
}

/// The head of the application spine of `t` is a variable named `name`.
pub open spec fn spec_is_instance_of(t: Term, name: Seq<char>) -> bool
    decreases t,
{
    match t {
        Term::Var(n, _) => n == name,
        Term::App(d, _) => spec_is_instance_of(*d, name),
        _ => false,
    }
}

pub open spec fn spec_is_constant(t: Term) -> bool {
    t matches Term::Var(_, NameKind::Const())
}

/// `name` occurs in `t` as a variable or sort name.
pub open spec fn spec_references(t: Term, name: Seq<char>) -> bool
    decreases t,
{
    match t {
        Term::Var(n, _) => n == name,
        Term::Sort(s) => s == name,
        Term::App(l, r) => spec_references(*l, name) || spec_references(*r, name),
        Term::Abs(_, d, c) => spec_references(*d, name) || spec_references(*c, name),
        Term::Prod(_, d, c) => spec_references(*d, name) || spec_references(*c, name),
        Term::Let(_, ty, b, s) => (match ty {
            Some(x) => spec_references(*x, name),
            None => false,
        }) || spec_references(*b, name) || spec_references(*s, name),
        Term::Match(m, bs) => spec_references(*m, name) || spec_references_branches(bs, name),
        Term::Meta(_) => false,
    }
}

/// `name` occurs in a pattern or a body of `bs`.
pub open spec fn spec_references_branches(bs: Seq<(Term, Term)>, name: Seq<char>) -> bool
    decreases bs,
{
    if bs.len() == 0 {
        false
    } else {
        spec_references_branches(bs.subrange(0, bs.len() - 1), name) || spec_references(bs[bs.len() - 1].0, name)
            || spec_references(bs[bs.len() - 1].1, name)
    }
}

/// Every use of the name `target` in `t`, whatever its kind, replaced by
/// `arg`; every other name keeps its kind and index.
pub open spec fn spec_rename(t: Term, target: Seq<char>, arg: Term) -> Term
    decreases t,
{
    match t {
        Term::Var(n, _) => if n == target {
            arg
        } else {
            t
        },
        Term::App(l, r) => Term::App(Box::new(spec_rename(*l, target, arg)), Box::new(spec_rename(*r, target, arg))),
        Term::Abs(n, d, c) => Term::Abs(n, Box::new(spec_rename(*d, target, arg)), Box::new(spec_rename(*c, target, arg))),
        Term::Prod(n, d, c) => Term::Prod(n, Box::new(spec_rename(*d, target, arg)), Box::new(spec_rename(*c, target, arg))),
        Term::Let(n, ty, b, s) => Term::Let(
            n,
            match ty {
                Some(x) => Some(Box::new(spec_rename(*x, target, arg))),
                None => None,
            },
            Box::new(spec_rename(*b, target, arg)),
            Box::new(spec_rename(*s, target, arg)),
        ),
        Term::Match(m, bs) => Term::Match(
            Box::new(spec_rename(*m, target, arg)),
            Seq::new(
                bs.len(),
                |i: int|
                    if 0 <= i < bs.len() {
                        (spec_rename(bs[i].0, target, arg), spec_rename(bs[i].1, target, arg))
                    } else {
                        no_branch()
                    },
            ),
        ),
        _ => t,
    }
}

/// No argument type of `t` references `name`.
pub open spec fn spec_positive(t: Term, name: Seq<char>) -> bool {
    forall|i: int| 0 <= i < spec_arg_types(t).len() ==> !spec_references(#[trigger] spec_arg_types(t)[i], name)
}

/// Every occurrence of the metavariable `target` in `t` replaced by `arg`.
pub open spec fn spec_substitute_meta(t: Term, target: i32, arg: Term) -> Term
    decreases t,
{
    match t {
        Term::Meta(i) => if i == target { arg } else { t },
        Term::Sort(_) => t,
        Term::Var(_, _) => t,
        Term::App(l, r) => Term::App(
            Box::new(spec_substitute_meta(*l, target, arg)),
            Box::new(spec_substitute_meta(*r, target, arg)),
        ),
        Term::Abs(n, d, c) => Term::Abs(
            n,
            Box::new(spec_substitute_meta(*d, target, arg)),
            Box::new(spec_substitute_meta(*c, target, arg)),
        ),
        Term::Prod(n, d, c) => Term::Prod(
            n,
            Box::new(spec_substitute_meta(*d, target, arg)),
            Box::new(spec_substitute_meta(*c, target, arg)),
        ),
        Term::Let(n, ty, b, s) => Term::Let(
            n,
            match ty {
                Some(x) => Some(Box::new(spec_substitute_meta(*x, target, arg))),
                None => None,
            },
            Box::new(spec_substitute_meta(*b, target, arg)),
            Box::new(spec_substitute_meta(*s, target, arg)),
        ),
        Term::Match(m, bs) => Term::Match(
            Box::new(spec_substitute_meta(*m, target, arg)),
            Seq::new(
                bs.len(),
                |i: int|
                    if 0 <= i < bs.len() {
                        (spec_substitute_meta(bs[i].0, target, arg), spec_substitute_meta(bs[i].1, target, arg))
                    } else {
                        no_branch()
                    },
            ),
        ),
    }
}

/// Binder names a pattern introduces: every variable in an argument position
/// of its constructor spine, at any nesting depth, depth first left to right.
pub open spec fn spec_pattern_binder_names(t: Term) -> Seq<Seq<char>>
    decreases t, 0int,
{
    match t {
        Term::App(l, r) => spec_pattern_binder_names(*l) + spec_arg_binder_names(*r),
        _ => seq![],
    }
}

/// Binder names contributed by one argument of a pattern.
pub open spec fn spec_arg_binder_names(t: Term) -> Seq<Seq<char>>
    decreases t, 1int,
{
    match t {
        Term::Var(n, _) => seq![n],
        Term::App(_, _) => spec_pattern_binder_names(t),
        _ => seq![],
    }
}

/// Number of binders a pattern introduces.
pub open spec fn spec_binder_count(t: Term) -> int {
    spec_pattern_binder_names(t).len() as int
}


/// Every binder depth reached while walking `t` from `depth` stays within
/// `0..=limit` (a `match` branch sits under one binder per pattern variable).
pub open spec fn depth_ok(t: Term, depth: int, limit: int) -> bool
    decreases t,
{
    0 <= depth <= limit && match t {
        Term::Abs(_, d, c) => depth_ok(*d, depth, limit) && depth + 1 <= limit && depth_ok(*c, depth + 1, limit),
        Term::Prod(_, d, c) => depth_ok(*d, depth, limit) && depth + 1 <= limit && depth_ok(*c, depth + 1, limit),
        Term::App(l, r) => depth_ok(*l, depth, limit) && depth_ok(*r, depth, limit),
        Term::Let(_, ty, b, s) => {
            &&& depth + 1 <= limit
            &&& match ty {
                Some(x) => depth_ok(*x, depth + 1, limit),
                None => true,
            }
            &&& depth_ok(*b, depth, limit)
            &&& depth_ok(*s, depth + 1, limit)
        },
        Term::Match(m, bs) => {
            &&& depth_ok(*m, depth, limit)
            &&& forall|i: int|
                0 <= i < bs.len() ==> {
                    &&& depth + spec_binder_count(#[trigger] bs[i].0) <= limit
                    &&& depth_ok(bs[i].0, depth + spec_binder_count(bs[i].0), limit)
                    &&& depth_ok(bs[i].1, depth + spec_binder_count(bs[i].0), limit)
                }
        },
        _ => true,
    }
}

pub broadcast proof fn lemma_depth_ok_range(t: Term, depth: int, limit: int)
    ensures
        #[trigger] depth_ok(t, depth, limit) ==> 0 <= depth <= limit,
{
}

/// The branch facts that `depth_ok` gives for a `match`.
pub proof fn lemma_depth_ok_branch(m: Term, bs: Seq<(Term, Term)>, i: int, depth: int, limit: int)
    requires
        depth_ok(Term::Match(Box::new(m), bs), depth, limit),
        0 <= i < bs.len(),
    ensures
        0 <= spec_binder_count(bs[i].0),
        depth + spec_binder_count(bs[i].0) <= limit,
        depth_ok(bs[i].0, depth + spec_binder_count(bs[i].0), limit),
        depth_ok(bs[i].1, depth + spec_binder_count(bs[i].0), limit),
{
    let t = Term::Match(Box::new(m), bs);
    assert(t->Match_1 == bs);
    assert(t->Match_1[i].0 == bs[i].0);
}

/// The branch facts that `indices_le` gives for a `match`.
pub proof fn lemma_indices_le_branch(m: Term, bs: Seq<(Term, Term)>, i: int, k: int)
    requires
        indices_le(Term::Match(Box::new(m), bs), k),
        0 <= i < bs.len(),
    ensures
        indices_le(bs[i].0, k),
        indices_le(bs[i].1, k),
{
    let t = Term::Match(Box::new(m), bs);
    assert(t->Match_1 == bs);
    assert(t->Match_1[i].0 == bs[i].0);
}

/// Raising the bound of `indices_le` keeps it true.
pub proof fn lemma_indices_le_mono(t: Term, k: int, k2: int)
    requires
        indices_le(t, k),
        k <= k2,
    ensures
        indices_le(t, k2),
    decreases t,
{
    match t {
        Term::Abs(_, d, c) => {
            lemma_indices_le_mono(*d, k, k2);
            lemma_indices_le_mono(*c, k, k2);
        },
        Term::Prod(_, d, c) => {
            lemma_indices_le_mono(*d, k, k2);
            lemma_indices_le_mono(*c, k, k2);
        },
        Term::App(l, r) => {
            lemma_indices_le_mono(*l, k, k2);
            lemma_indices_le_mono(*r, k, k2);
        },
        Term::Let(_, ty, b, s) => {
            if let Some(x) = ty {
                lemma_indices_le_mono(*x, k, k2);
            }
            lemma_indices_le_mono(*b, k, k2);
            lemma_indices_le_mono(*s, k, k2);
        },
        Term::Match(m, bs) => {
            lemma_indices_le_mono(*m, k, k2);
            assert forall|i: int| 0 <= i < bs.len() implies indices_le(#[trigger] bs[i].0, k2) && indices_le(bs[i].1, k2) by {
                lemma_indices_le_branch(*m, bs, i, k);
                lemma_indices_le_mono(bs[i].0, k, k2);
                lemma_indices_le_mono(bs[i].1, k, k2);
            }
        },
        _ => {},
    }
}

/// Every De Bruijn index occurring in `t` is at most `k`.
pub open spec fn indices_le(t: Term, k: int) -> bool
    decreases t,
{
    match t {
        Term::Var(_, NameKind::Bound(d)) => d <= k,
        Term::Abs(_, d, c) => indices_le(*d, k) && indices_le(*c, k),
        Term::Prod(_, d, c) => indices_le(*d, k) && indices_le(*c, k),
        Term::App(l, r) => indices_le(*l, k) && indices_le(*r, k),
        Term::Let(_, ty, b, s) => {
            &&& match ty {
                Some(x) => indices_le(*x, k),
                None => true,
            }
            &&& indices_le(*b, k)
            &&& indices_le(*s, k)
        },
        Term::Match(m, bs) => {
            &&& indices_le(*m, k)
            &&& forall|i: int| 0 <= i < bs.len() ==> indices_le(#[trigger] bs[i].0, k) && indices_le(bs[i].1, k)
        },
        _ => true,
    }
}

/// Opening: the binder at `depth` becomes the locally free `name`, indices
/// past it move one closer, indices of inner binders are untouched.
pub open spec fn spec_open(t: Term, name: Seq<char>, depth: int) -> Term
    decreases t,
{
    match t {
        Term::Var(n, NameKind::Bound(d)) => {
            if d == depth {
                Term::Var(name, NameKind::Local())
            } else if d > depth {
                Term::Var(n, NameKind::Bound((d - 1) as i32))
            } else {
                t
            }
        },
        Term::App(l, r) => Term::App(Box::new(spec_open(*l, name, depth)), Box::new(spec_open(*r, name, depth))),
        Term::Abs(n, d, c) => Term::Abs(n, Box::new(spec_open(*d, name, depth)), Box::new(spec_open(*c, name, depth + 1))),
        Term::Prod(n, d, c) => Term::Prod(n, Box::new(spec_open(*d, name, depth)), Box::new(spec_open(*c, name, depth + 1))),
        Term::Let(n, ty, b, s) => Term::Let(
            n,
            match ty {
                Some(x) => Some(Box::new(spec_open(*x, name, depth + 1))),
                None => None,
            },
            Box::new(spec_open(*b, name, depth)),
            Box::new(spec_open(*s, name, depth + 1)),
        ),
        Term::Match(m, bs) => Term::Match(
            Box::new(spec_open(*m, name, depth)),
            Seq::new(
                bs.len(),
                |i: int|
                    if 0 <= i < bs.len() {
                        (
                            spec_open(bs[i].0, name, depth + spec_binder_count(bs[i].0)),
                            spec_open(bs[i].1, name, depth + spec_binder_count(bs[i].0)),
                        )
                    } else {
                        no_branch()
                    },
            ),
        ),
        _ => t,
    }
}

/// Closing: the locally free `name` becomes the binder at `depth`, indices at
/// or past `depth` move one further away.
pub open spec fn spec_close(t: Term, name: Seq<char>, depth: int) -> Term
    decreases t,
{
    match t {
        Term::Var(n, NameKind::Bound(d)) => if d >= depth { Term::Var(n, NameKind::Bound((d + 1) as i32)) } else { t },
        Term::Var(n, NameKind::Local()) => if n == name { Term::Var(n, NameKind::Bound(depth as i32)) } else { t },
        Term::App(l, r) => Term::App(Box::new(spec_close(*l, name, depth)), Box::new(spec_close(*r, name, depth))),
        Term::Abs(n, d, c) => Term::Abs(n, Box::new(spec_close(*d, name, depth)), Box::new(spec_close(*c, name, depth + 1))),
        Term::Prod(n, d, c) => Term::Prod(n, Box::new(spec_close(*d, name, depth)), Box::new(spec_close(*c, name, depth + 1))),
        Term::Let(n, ty, b, s) => Term::Let(
            n,
            match ty {
                Some(x) => Some(Box::new(spec_close(*x, name, depth + 1))),
                None => None,
            },
            Box::new(spec_close(*b, name, depth)),
            Box::new(spec_close(*s, name, depth + 1)),
        ),
        Term::Match(m, bs) => Term::Match(
            Box::new(spec_close(*m, name, depth)),
            Seq::new(
                bs.len(),
                |i: int|
                    if 0 <= i < bs.len() {
                        (
                            spec_close(bs[i].0, name, depth + spec_binder_count(bs[i].0)),
                            spec_close(bs[i].1, name, depth + spec_binder_count(bs[i].0)),
                        )
                    } else {
                        no_branch()
                    },
            ),
        ),
        _ => t,
    }
}

/// Every index at or past `cutoff` increased by `amount`.
pub open spec fn spec_shift_from(t: Term, amount: int, cutoff: int) -> Term
    decreases t,
{
    match t {
        Term::Var(n, NameKind::Bound(d)) => if d >= cutoff { Term::Var(n, NameKind::Bound((d + amount) as i32)) } else { t },
        Term::App(l, r) => Term::App(Box::new(spec_shift_from(*l, amount, cutoff)), Box::new(spec_shift_from(*r, amount, cutoff))),
        Term::Abs(n, d, c) => Term::Abs(n, Box::new(spec_shift_from(*d, amount, cutoff)), Box::new(spec_shift_from(*c, amount, cutoff + 1))),
        Term::Prod(n, d, c) => Term::Prod(n, Box::new(spec_shift_from(*d, amount, cutoff)), Box::new(spec_shift_from(*c, amount, cutoff + 1))),
        Term::Let(n, ty, b, s) => Term::Let(
            n,
            match ty {
                Some(x) => Some(Box::new(spec_shift_from(*x, amount, cutoff + 1))),
                None => None,
            },
            Box::new(spec_shift_from(*b, amount, cutoff)),
            Box::new(spec_shift_from(*s, amount, cutoff + 1)),
        ),
        Term::Match(m, bs) => Term::Match(
            Box::new(spec_shift_from(*m, amount, cutoff)),
            Seq::new(
                bs.len(),
                |i: int|
                    if 0 <= i < bs.len() {
                        (
                            spec_shift_from(bs[i].0, amount, cutoff + spec_binder_count(bs[i].0)),
                            spec_shift_from(bs[i].1, amount, cutoff + spec_binder_count(bs[i].0)),
                        )
                    } else {
                        no_branch()
                    },
            ),
        ),
        _ => t,
    }
}

/// Every free index of `t` increased by `amount` (the identity for 0).
pub open spec fn spec_shift(t: Term, amount: int) -> Term {
    if amount == 0 { t } else { spec_shift_from(t, amount, 0) }
}

/// Substitution of the bound variable `target` sitting at `depth`: it gets
/// `arg` shifted under the binders crossed so far, indices past it move one
/// closer, everything else is untouched.
pub open spec fn spec_subst(t: Term, target: Seq<char>, arg: Term, depth: int) -> Term
    decreases t,
{
    match t {
        Term::Var(n, NameKind::Bound(d)) => {
            if n == target && d == depth {
                spec_shift(arg, depth)
            } else if d > depth {
                Term::Var(n, NameKind::Bound((d - 1) as i32))
            } else {
                t
            }
        },
        Term::App(l, r) => Term::App(Box::new(spec_subst(*l, target, arg, depth)), Box::new(spec_subst(*r, target, arg, depth))),
        Term::Abs(n, d, c) => Term::Abs(n, Box::new(spec_subst(*d, target, arg, depth)), Box::new(spec_subst(*c, target, arg, depth + 1))),
        Term::Prod(n, d, c) => Term::Prod(n, Box::new(spec_subst(*d, target, arg, depth)), Box::new(spec_subst(*c, target, arg, depth + 1))),
        Term::Let(n, ty, b, s) => Term::Let(
            n,
            match ty {
                Some(x) => Some(Box::new(spec_subst(*x, target, arg, depth + 1))),
                None => None,
            },
            Box::new(spec_subst(*b, target, arg, depth)),
            Box::new(spec_subst(*s, target, arg, depth + 1)),
        ),
        Term::Match(m, bs) => Term::Match(
            Box::new(spec_subst(*m, target, arg, depth)),
            Seq::new(
                bs.len(),
                |i: int|
                    if 0 <= i < bs.len() {
                        (
                            spec_subst(bs[i].0, target, arg, depth + spec_binder_count(bs[i].0)),
                            spec_subst(bs[i].1, target, arg, depth + spec_binder_count(bs[i].0)),
                        )
                    } else {
                        no_branch()
                    },
            ),
        ),
        _ => t,
    }
}

/// The type of a function taking the named `args`, outermost first, and returning `base`.
pub open spec fn spec_multiarg_fun_type(args: Seq<(Seq<char>, Term)>, base: Term) -> Term
    decreases args.len(),
{
    if args.len() == 0 {
        base
    } else {
        Term::Prod(args[0].0, Box::new(args[0].1), Box::new(spec_multiarg_fun_type(args.skip(1), base)))
    }
}


/// The model of a list of names.
pub open spec fn view_strings(v: Seq<String>) -> Seq<Seq<char>> {
    v.map_values(|s: String| s@)
}



/// Binder depths and indices small enough for substituting `arg` into `term`.
pub open spec fn fits_substitution(term: Term, arg: Term) -> bool {
    exists|k: int| 0 <= k && depth_ok(term, 0, i32::MAX - k) && indices_le(arg, k) && depth_ok(arg, 0, i32::MAX as int)
}

} // verus!
