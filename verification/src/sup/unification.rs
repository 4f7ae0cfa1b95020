use vstd::prelude::*;
use crate::cic::unification::UNIFICATION_FUEL;
use crate::error::LofError;
use crate::sup::sup::{
    copy_sup_term, render_sup_formula, spec_render_sup_formula, lemma_application_view, lemma_clause_view, view_sup_formulas, view_sup_terms,
    SForm, STerm, SupFormula, SupTerm,
};
use crate::text::str_eq;

verus! {

//########################### MODEL

/// Bindings of variables to terms, in order; a variable stands for the
/// term of its first binding.
pub type Bindings = Seq<(Seq<char>, STerm)>;

/// The term that `x` is bound to in `s`, if any (its first binding).
pub open spec fn spec_binding_of(s: Bindings, x: Seq<char>) -> Option<STerm>
    decreases s.len(),
{
    if s.len() == 0 {
        None
    } else if s[0].0 == x {
        Some(s[0].1)
    } else {
        spec_binding_of(s.drop_first(), x)
    }
}

/// `t` with every bound variable replaced by its binding, all at once.
pub open spec fn spec_apply_term(s: Bindings, t: STerm) -> STerm
    decreases t,
{
    match t {
        STerm::Var(x) => match spec_binding_of(s, x) {
            Some(v) => v,
            None => t,
        },
        STerm::App(f, args) => STerm::App(
            f,
            Seq::new(args.len(), |i: int| if 0 <= i < args.len() { spec_apply_term(s, args[i]) } else { STerm::Var(Seq::empty()) }),
        ),
    }
}

/// Whether the variable `x` occurs in `t`.
pub open spec fn spec_occurs(x: Seq<char>, t: STerm) -> bool
    decreases t,
{
    match t {
        STerm::Var(y) => y == x,
        STerm::App(_, args) => spec_occurs_any(x, args),
    }
}

/// Whether the variable `x` occurs in one of `ts`.
pub open spec fn spec_occurs_any(x: Seq<char>, ts: Seq<STerm>) -> bool
    decreases ts,
{
    if ts.len() == 0 {
        false
    } else {
        spec_occurs_any(x, ts.subrange(0, ts.len() - 1)) || spec_occurs(x, ts[ts.len() - 1])
    }
}

pub proof fn lemma_occurs_any(x: Seq<char>, ts: Seq<STerm>)
    ensures
        spec_occurs_any(x, ts) <==> exists|i: int| 0 <= i < ts.len() && #[trigger] spec_occurs(x, ts[i]),
    decreases ts.len(),
{
    if ts.len() > 0 {
        let init = ts.subrange(0, ts.len() - 1);
        let last = ts.len() - 1;
        lemma_occurs_any(x, init);
        assert(spec_occurs_any(x, ts) == (spec_occurs_any(x, init) || spec_occurs(x, ts[last])));
        if exists|i: int| 0 <= i < ts.len() && #[trigger] spec_occurs(x, ts[i]) {
            let i = choose|i: int| 0 <= i < ts.len() && #[trigger] spec_occurs(x, ts[i]);
            if i < last {
                assert(init[i] == ts[i]);
                assert(spec_occurs(x, init[i]));
            }
        }
        if spec_occurs_any(x, init) {
            let i = choose|i: int| 0 <= i < init.len() && #[trigger] spec_occurs(x, init[i]);
            assert(init[i] == ts[i]);
            assert(spec_occurs(x, ts[i]));
        }
        if spec_occurs(x, ts[last]) {
            assert(exists|i: int| 0 <= i < ts.len() && #[trigger] spec_occurs(x, ts[i]));
        }
    }
}

/// `t` with every occurrence of the variable `x` replaced by `v`.
pub open spec fn spec_subst_var(t: STerm, x: Seq<char>, v: STerm) -> STerm
    decreases t,
{
    match t {
        STerm::Var(y) => if y == x {
            v
        } else {
            t
        },
        STerm::App(f, args) => STerm::App(
            f,
            Seq::new(args.len(), |i: int| if 0 <= i < args.len() { spec_subst_var(args[i], x, v) } else { STerm::Var(Seq::empty()) }),
        ),
    }
}

/// `s` extended by the binding of `x` to `v`, which is also put in place of
/// `x` in the terms already bound.
pub open spec fn spec_bind(s: Bindings, x: Seq<char>, v: STerm) -> Bindings {
    Seq::new(s.len(), |i: int| (s[i].0, spec_subst_var(s[i].1, x, v))).push((x, v))
}

/// The composition of `s` followed by `m`: the terms bound by `s` with `m`
/// applied to them, then the bindings of `m`.
pub open spec fn spec_merge(s: Bindings, m: Bindings) -> Bindings {
    Seq::new(s.len(), |i: int| (s[i].0, spec_apply_term(m, s[i].1))) + m
}

/// `f` with `s` applied to each of its terms; a quantified formula is left
/// as it is.
pub open spec fn spec_apply_formula(s: Bindings, f: SForm) -> SForm
    decreases f,
{
    match f {
        SForm::Atom(p, args) => SForm::Atom(
            p,
            Seq::new(args.len(), |i: int| if 0 <= i < args.len() { spec_apply_term(s, args[i]) } else { STerm::Var(Seq::empty()) }),
        ),
        SForm::Eq(l, r) => SForm::Eq(spec_apply_term(s, l), spec_apply_term(s, r)),
        SForm::Not(g) => SForm::Not(Box::new(spec_apply_formula(s, *g))),
        SForm::Clause(lits) => SForm::Clause(
            Seq::new(lits.len(), |i: int| if 0 <= i < lits.len() { spec_apply_formula(s, lits[i]) } else { SForm::Clause(Seq::empty()) }),
        ),
        SForm::ForAll(_, _, _) => f,
    }
}

/// No variable of `t` is bound in `s`.
pub open spec fn dom_free(t: STerm, s: Bindings) -> bool {
    forall|y: Seq<char>| #[trigger] spec_occurs(y, t) ==> spec_binding_of(s, y) is None
}

/// Solved form: no bound term mentions a bound variable, so that applying
/// `s` twice is applying it once.
pub open spec fn solved(s: Bindings) -> bool {
    forall|y: Seq<char>| (#[trigger] spec_binding_of(s, y)) is Some ==> dom_free(spec_binding_of(s, y).unwrap(), s)
}

/// Applying `s2` after `s1` is applying `s2` alone (checked on the
/// variables bound by `s1`).
pub open spec fn absorbs(s2: Bindings, s1: Bindings) -> bool {
    forall|y: Seq<char>|
        (#[trigger] spec_binding_of(s1, y)) is Some ==> spec_apply_term(s2, spec_binding_of(s1, y).unwrap())
            == spec_apply_term(s2, STerm::Var(y))
}

/// Robinson's unification of `a` and `b` under the solved bindings `s`,
/// within `fuel` nested argument lists: the extended bindings, or `None`
/// when the terms clash or a variable would occur in its own binding.
pub open spec fn spec_unify_terms(a: STerm, b: STerm, s: Bindings, fuel: nat) -> Option<Bindings>
    decreases fuel, 0int, 0int,
{
    if fuel == 0 {
        None
    } else {
        let a1 = spec_apply_term(s, a);
        let b1 = spec_apply_term(s, b);
        match a1 {
            STerm::Var(x) => if a1 == b1 {
                Some(s)
            } else if spec_occurs(x, b1) {
                None
            } else {
                Some(spec_bind(s, x, b1))
            },
            STerm::App(f, xs) => match b1 {
                STerm::Var(y) => if spec_occurs(y, a1) {
                    None
                } else {
                    Some(spec_bind(s, y, a1))
                },
                STerm::App(g, ys) => if f == g && xs.len() == ys.len() {
                    spec_unify_args(xs, ys, s, (fuel - 1) as nat, xs.len())
                } else {
                    None
                },
            },
        }
    }
}

/// Unification of the first `n` pairs of `xs` and `ys`, left to right.
pub open spec fn spec_unify_args(xs: Seq<STerm>, ys: Seq<STerm>, s: Bindings, fuel: nat, n: nat) -> Option<Bindings>
    decreases fuel, 1int, n,
{
    if n == 0 {
        Some(s)
    } else {
        match spec_unify_args(xs, ys, s, fuel, (n - 1) as nat) {
            Some(s1) => spec_unify_terms(xs[n - 1], ys[n - 1], s1, fuel),
            None => None,
        }
    }
}

/// The most general unifier of two atoms with the same predicate and arity;
/// `None` for any other pair of formulas, or when their arguments do not
/// unify.
pub open spec fn spec_formulas_unify(a: SForm, b: SForm) -> Option<Bindings> {
    match a {
        SForm::Atom(p, xs) => match b {
            SForm::Atom(q, ys) => if p == q && xs.len() == ys.len() {
                spec_unify_args(xs, ys, Seq::empty(), UNIFICATION_FUEL as nat, xs.len())
            } else {
                None
            },
            _ => None,
        },
        _ => None,
    }
}

//########################### LEMMAS

pub proof fn lemma_bind_lookup(s: Bindings, x: Seq<char>, v: STerm, y: Seq<char>)
    ensures
        spec_binding_of(spec_bind(s, x, v), y) == (match spec_binding_of(s, y) {
            Some(u) => Some(spec_subst_var(u, x, v)),
            None => if y == x {
                Some(v)
            } else {
                None
            },
        }),
    decreases s.len(),
{
    let b = spec_bind(s, x, v);
    if s.len() == 0 {
        assert(b.drop_first() =~= Seq::<(Seq<char>, STerm)>::empty());
        assert(spec_binding_of(b.drop_first(), y) is None);
        assert(spec_binding_of(s, y) is None);
    } else {
        assert(b.drop_first() =~= spec_bind(s.drop_first(), x, v));
        lemma_bind_lookup(s.drop_first(), x, v, y);
        assert(b[0] == (s[0].0, spec_subst_var(s[0].1, x, v)));
    }
}

pub proof fn lemma_merge_lookup(s: Bindings, m: Bindings, y: Seq<char>)
    ensures
        spec_binding_of(spec_merge(s, m), y) == (match spec_binding_of(s, y) {
            Some(u) => Some(spec_apply_term(m, u)),
            None => spec_binding_of(m, y),
        }),
    decreases s.len(),
{
    let c = spec_merge(s, m);
    if s.len() == 0 {
        assert(c =~= m);
    } else {
        assert(c.drop_first() =~= spec_merge(s.drop_first(), m));
        lemma_merge_lookup(s.drop_first(), m, y);
    }
}

/// Applying the composition of `s` and `m` is applying `s`, then `m`.
pub proof fn law_merge_composes(s: Bindings, m: Bindings, t: STerm)
    ensures
        spec_apply_term(spec_merge(s, m), t) == spec_apply_term(m, spec_apply_term(s, t)),
    decreases t,
{
    match t {
        STerm::Var(x) => {
            lemma_merge_lookup(s, m, x);
        },
        STerm::App(f, args) => {
            let c = spec_merge(s, m);
            let inner = spec_apply_term(s, t);
            assert forall|i: int| 0 <= i < args.len() implies spec_apply_term(c, args[i]) == spec_apply_term(
                m,
                inner->App_1[i],
            ) by {
                law_merge_composes(s, m, args[i]);
            }
            assert(spec_apply_term(c, t)->App_1 =~= spec_apply_term(m, inner)->App_1);
        },
    }
}

proof fn lemma_apply_absorbs(s2: Bindings, s1: Bindings, t: STerm)
    requires
        absorbs(s2, s1),
    ensures
        spec_apply_term(s2, spec_apply_term(s1, t)) == spec_apply_term(s2, t),
    decreases t,
{
    match t {
        STerm::Var(y) => {
            if spec_binding_of(s1, y) is Some {
            }
        },
        STerm::App(f, args) => {
            let inner = spec_apply_term(s1, t);
            assert forall|i: int| 0 <= i < args.len() implies spec_apply_term(s2, inner->App_1[i]) == spec_apply_term(
                s2,
                args[i],
            ) by {
                lemma_apply_absorbs(s2, s1, args[i]);
            }
            assert(spec_apply_term(s2, inner)->App_1 =~= spec_apply_term(s2, t)->App_1);
        },
    }
}

proof fn lemma_apply_dom_free(s: Bindings, t: STerm)
    requires
        solved(s),
    ensures
        dom_free(spec_apply_term(s, t), s),
    decreases t,
{
    match t {
        STerm::Var(y) => {
            if spec_binding_of(s, y) is Some {
            }
        },
        STerm::App(f, args) => {
            let r = spec_apply_term(s, t);
            assert forall|z: Seq<char>| #[trigger] spec_occurs(z, r) implies spec_binding_of(s, z) is None by {
                lemma_occurs_any(z, r->App_1);
                let i = choose|i: int| 0 <= i < r->App_1.len() && #[trigger] spec_occurs(z, r->App_1[i]);
                assert(0 <= i < args.len());
                lemma_apply_dom_free(s, args[i]);
            }
        },
    }
}

pub proof fn lemma_apply_id(s: Bindings, t: STerm)
    requires
        dom_free(t, s),
    ensures
        spec_apply_term(s, t) == t,
    decreases t,
{
    match t {
        STerm::Var(y) => {
            assert(spec_occurs(y, t));
        },
        STerm::App(f, args) => {
            assert forall|i: int| 0 <= i < args.len() implies spec_apply_term(s, args[i]) == args[i] by {
                assert forall|z: Seq<char>| #[trigger] spec_occurs(z, args[i]) implies spec_binding_of(s, z) is None by {
                    lemma_occurs_any(z, args);
                    assert(spec_occurs(z, t));
                }
                lemma_apply_id(s, args[i]);
            }
            assert(spec_apply_term(s, t)->App_1 =~= args);
        },
    }
}

pub proof fn lemma_subst_var_occurs(t: STerm, x: Seq<char>, v: STerm, z: Seq<char>)
    requires
        spec_occurs(z, spec_subst_var(t, x, v)),
    ensures
        (spec_occurs(z, t) && z != x) || spec_occurs(z, v),
    decreases t,
{
    match t {
        STerm::Var(y) => {
        },
        STerm::App(f, args) => {
            let r = spec_subst_var(t, x, v);
            lemma_occurs_any(z, r->App_1);
            let i = choose|i: int| 0 <= i < r->App_1.len() && #[trigger] spec_occurs(z, r->App_1[i]);
            assert(0 <= i < args.len());
            lemma_subst_var_occurs(args[i], x, v, z);
            if spec_occurs(z, args[i]) {
                lemma_occurs_any(z, args);
                assert(spec_occurs(z, t));
            }
        },
    }
}

proof fn lemma_apply_bind(s: Bindings, x: Seq<char>, v: STerm, u: STerm)
    requires
        dom_free(u, s),
    ensures
        spec_apply_term(spec_bind(s, x, v), u) == spec_subst_var(u, x, v),
    decreases u,
{
    match u {
        STerm::Var(z) => {
            assert(spec_occurs(z, u));
            lemma_bind_lookup(s, x, v, z);
        },
        STerm::App(f, args) => {
            let b = spec_bind(s, x, v);
            assert forall|i: int| 0 <= i < args.len() implies spec_apply_term(b, args[i]) == spec_subst_var(
                args[i],
                x,
                v,
            ) by {
                assert forall|z: Seq<char>| #[trigger] spec_occurs(z, args[i]) implies spec_binding_of(s, z) is None by {
                    lemma_occurs_any(z, args);
                    assert(spec_occurs(z, u));
                }
                lemma_apply_bind(s, x, v, args[i]);
            }
            assert(spec_apply_term(b, u)->App_1 =~= spec_subst_var(u, x, v)->App_1);
        },
    }
}

proof fn lemma_bind_solved(s: Bindings, x: Seq<char>, v: STerm)
    requires
        solved(s),
        spec_binding_of(s, x) is None,
        !spec_occurs(x, v),
        dom_free(v, s),
    ensures
        solved(spec_bind(s, x, v)),
        absorbs(spec_bind(s, x, v), s),
        spec_apply_term(spec_bind(s, x, v), STerm::Var(x)) == v,
        spec_apply_term(spec_bind(s, x, v), v) == v,
{
    let b = spec_bind(s, x, v);
    assert forall|z: Seq<char>| #[trigger] spec_occurs(z, v) implies spec_binding_of(b, z) is None by {
        lemma_bind_lookup(s, x, v, z);
    }
    assert forall|y: Seq<char>| (#[trigger] spec_binding_of(b, y)) is Some implies dom_free(
        spec_binding_of(b, y).unwrap(),
        b,
    ) by {
        lemma_bind_lookup(s, x, v, y);
        match spec_binding_of(s, y) {
            Some(u) => {
                assert forall|z: Seq<char>| #[trigger] spec_occurs(z, spec_subst_var(u, x, v)) implies spec_binding_of(
                    b,
                    z,
                ) is None by {
                    lemma_subst_var_occurs(u, x, v, z);
                    lemma_bind_lookup(s, x, v, z);
                }
            },
            None => {
            },
        }
    }
    assert forall|y: Seq<char>| (#[trigger] spec_binding_of(s, y)) is Some implies spec_apply_term(
        b,
        spec_binding_of(s, y).unwrap(),
    ) == spec_apply_term(b, STerm::Var(y)) by {
        lemma_bind_lookup(s, x, v, y);
        lemma_apply_bind(s, x, v, spec_binding_of(s, y).unwrap());
    }
    lemma_bind_lookup(s, x, v, x);
    lemma_apply_id(b, v);
}

proof fn lemma_absorbs_refl(s: Bindings)
    requires
        solved(s),
    ensures
        absorbs(s, s),
{
    assert forall|y: Seq<char>| (#[trigger] spec_binding_of(s, y)) is Some implies spec_apply_term(
        s,
        spec_binding_of(s, y).unwrap(),
    ) == spec_apply_term(s, STerm::Var(y)) by {
        lemma_apply_id(s, spec_binding_of(s, y).unwrap());
    }
}

proof fn lemma_absorbs_trans(s3: Bindings, s2: Bindings, s1: Bindings)
    requires
        absorbs(s3, s2),
        absorbs(s2, s1),
    ensures
        absorbs(s3, s1),
{
    assert forall|y: Seq<char>| (#[trigger] spec_binding_of(s1, y)) is Some implies spec_apply_term(
        s3,
        spec_binding_of(s1, y).unwrap(),
    ) == spec_apply_term(s3, STerm::Var(y)) by {
        let u = spec_binding_of(s1, y).unwrap();
        lemma_apply_absorbs(s3, s2, u);
        lemma_apply_absorbs(s3, s2, STerm::Var(y));
    }
}

proof fn lemma_unify_terms(a: STerm, b: STerm, s: Bindings, fuel: nat)
    requires
        solved(s),
        spec_unify_terms(a, b, s, fuel) is Some,
    ensures
        solved(spec_unify_terms(a, b, s, fuel).unwrap()),
        absorbs(spec_unify_terms(a, b, s, fuel).unwrap(), s),
        spec_apply_term(spec_unify_terms(a, b, s, fuel).unwrap(), a) == spec_apply_term(
            spec_unify_terms(a, b, s, fuel).unwrap(),
            b,
        ),
    decreases fuel, 0int, 0int,
{
    let a1 = spec_apply_term(s, a);
    let b1 = spec_apply_term(s, b);
    let s2 = spec_unify_terms(a, b, s, fuel).unwrap();
    lemma_apply_dom_free(s, a);
    lemma_apply_dom_free(s, b);
    match a1 {
        STerm::Var(x) => {
            if a1 == b1 {
                lemma_absorbs_refl(s);
            } else {
                assert(spec_occurs(x, a1));
                lemma_bind_solved(s, x, b1);
                lemma_apply_absorbs(s2, s, a);
                lemma_apply_absorbs(s2, s, b);
            }
        },
        STerm::App(f, xs) => match b1 {
            STerm::Var(y) => {
                assert(spec_occurs(y, b1));
                lemma_bind_solved(s, y, a1);
                lemma_apply_absorbs(s2, s, a);
                lemma_apply_absorbs(s2, s, b);
            },
            STerm::App(g, ys) => {
                lemma_unify_args(xs, ys, s, (fuel - 1) as nat, xs.len());
                lemma_apply_absorbs(s2, s, a);
                lemma_apply_absorbs(s2, s, b);
                assert(spec_apply_term(s2, a1)->App_1 =~= spec_apply_term(s2, b1)->App_1);
            },
        },
    }
}

proof fn lemma_unify_args(xs: Seq<STerm>, ys: Seq<STerm>, s: Bindings, fuel: nat, n: nat)
    requires
        solved(s),
        n <= xs.len(),
        n <= ys.len(),
        spec_unify_args(xs, ys, s, fuel, n) is Some,
    ensures
        solved(spec_unify_args(xs, ys, s, fuel, n).unwrap()),
        absorbs(spec_unify_args(xs, ys, s, fuel, n).unwrap(), s),
        forall|i: int|
            0 <= i < n ==> spec_apply_term(spec_unify_args(xs, ys, s, fuel, n).unwrap(), #[trigger] xs[i])
                == spec_apply_term(spec_unify_args(xs, ys, s, fuel, n).unwrap(), ys[i]),
    decreases fuel, 1int, n,
{
    if n == 0 {
        lemma_absorbs_refl(s);
    } else {
        let m = (n - 1) as nat;
        let s1 = spec_unify_args(xs, ys, s, fuel, m).unwrap();
        lemma_unify_args(xs, ys, s, fuel, m);
        lemma_unify_terms(xs[n - 1], ys[n - 1], s1, fuel);
        let s2 = spec_unify_args(xs, ys, s, fuel, n).unwrap();
        lemma_absorbs_trans(s2, s1, s);
        assert forall|i: int| 0 <= i < n implies spec_apply_term(s2, #[trigger] xs[i]) == spec_apply_term(s2, ys[i]) by {
            if i < n - 1 {
                lemma_apply_absorbs(s2, s1, xs[i]);
                lemma_apply_absorbs(s2, s1, ys[i]);
            }
        }
    }
}

/// The unifier of two formulas makes them equal: applied to either, it
/// gives the same formula.
pub proof fn law_unifier_unifies(a: SForm, b: SForm)
    requires
        spec_formulas_unify(a, b) is Some,
    ensures
        spec_apply_formula(spec_formulas_unify(a, b).unwrap(), a) == spec_apply_formula(
            spec_formulas_unify(a, b).unwrap(),
            b,
        ),
{
    let e = Seq::<(Seq<char>, STerm)>::empty();
    assert forall|y: Seq<char>| (#[trigger] spec_binding_of(e, y)) is Some implies dom_free(
        spec_binding_of(e, y).unwrap(),
        e,
    ) by {
    }
    let xs = a->Atom_1;
    let ys = b->Atom_1;
    lemma_unify_args(xs, ys, e, UNIFICATION_FUEL as nat, xs.len());
    let s = spec_formulas_unify(a, b).unwrap();
    assert(spec_apply_formula(s, a)->Atom_1 =~= spec_apply_formula(s, b)->Atom_1);
}

//########################### SUBSTITUTIONS

/// A substitution of first order terms for variables: a list of bindings,
/// a variable standing for the term of its first binding.
#[derive(Debug)]
pub struct SupSubstitution {
    entries: Vec<(String, SupTerm)>,
}

/// The model of a list of bindings.
pub open spec fn view_bindings(e: Seq<(String, SupTerm)>) -> Bindings {
    Seq::new(e.len(), |i: int| (e[i].0@, e[i].1@))
}

impl View for SupSubstitution {
    type V = Bindings;

    closed spec fn view(&self) -> Bindings {
        view_bindings(self.entries@)
    }
}

proof fn lemma_binding_skip(s: Bindings, x: Seq<char>, i: int)
    requires
        0 <= i <= s.len(),
        forall|j: int| 0 <= j < i ==> s[j].0 != x,
    ensures
        spec_binding_of(s, x) == spec_binding_of(s.subrange(i, s.len() as int), x),
    decreases i,
{
    if i > 0 {
        assert(s.drop_first().subrange(i - 1, s.drop_first().len() as int) =~= s.subrange(i, s.len() as int));
        lemma_binding_skip(s.drop_first(), x, i - 1);
    } else {
        assert(s.subrange(0, s.len() as int) =~= s);
    }
}

impl SupSubstitution {
    /// The substitution that binds nothing.
    pub fn empty() -> (r: SupSubstitution)
        ensures
            r@ == Seq::<(Seq<char>, STerm)>::empty(),
    {
        let r = SupSubstitution { entries: Vec::new() };
        assert(r@ =~= Seq::<(Seq<char>, STerm)>::empty());
        r
    }

    /// Number of bindings.
    pub fn len(&self) -> (r: usize)
        ensures
            r == self@.len(),
    {
        self.entries.len()
    }

    /// The variable of the `i`-th binding.
    pub fn name_at(&self, i: usize) -> (r: &String)
        requires
            i < self@.len(),
        ensures
            r@ == self@[i as int].0,
    {
        &self.entries[i].0
    }

    /// The term of the `i`-th binding.
    pub fn value_at(&self, i: usize) -> (r: &SupTerm)
        requires
            i < self@.len(),
        ensures
            r@ == self@[i as int].1,
    {
        &self.entries[i].1
    }

    /// The term that `name` stands for, if it is bound.
    pub fn resolvent(&self, name: &str) -> (r: Option<&SupTerm>)
        ensures
            match spec_binding_of(self@, name@) {
                Some(t) => r matches Some(x) && x@ == t,
                None => r is None,
            },
    {
        let mut i: usize = 0;
        while i < self.entries.len()
            invariant
                i <= self.entries@.len(),
                self@.len() == self.entries@.len(),
                forall|j: int| 0 <= j < i ==> self@[j].0 != name@,
            decreases self.entries@.len() - i,
        {
            if str_eq(self.entries[i].0.as_str(), name) {
                proof {
                    lemma_binding_skip(self@, name@, i as int);
                    assert(self@.subrange(i as int, self@.len() as int)[0] == self@[i as int]);
                }
                return Some(&self.entries[i].1);
            }
            i = i + 1;
        }
        proof {
            lemma_binding_skip(self@, name@, i as int);
            assert(self@.subrange(i as int, self@.len() as int).len() == 0);
        }
        None
    }

    /// Appends the binding of `name` to `value`, leaving the others as they
    /// are.
    pub fn push(&mut self, name: String, value: SupTerm)
        ensures
            final(self)@ == old(self)@.push((name@, value@)),
    {
        self.entries.push((name, value));
        proof {
            assert(self@ =~= old(self)@.push((name@, value@)));
        }
    }

    /// Binds `name` to `value`, putting `value` in place of `name` in the
    /// terms already bound.
    pub fn bind(&mut self, name: String, value: SupTerm)
        ensures
            final(self)@ == spec_bind(old(self)@, name@, value@),
    {
        let mut out: Vec<(String, SupTerm)> = Vec::new();
        let mut i: usize = 0;
        while i < self.entries.len()
            invariant
                i <= self.entries@.len(),
                *self == *old(self),
                out@.len() == i,
                forall|j: int|
                    0 <= j < i ==> (#[trigger] out@[j]).0@ == old(self)@[j].0 && out@[j].1@ == spec_subst_var(
                        old(self)@[j].1,
                        name@,
                        value@,
                    ),
            decreases self.entries@.len() - i,
        {
            let replaced = substitute_term(&self.entries[i].1, name.as_str(), &value);
            out.push((self.entries[i].0.clone(), replaced));
            i = i + 1;
        }
        out.push((name, value));
        self.entries = out;
        proof {
            assert(self@ =~= spec_bind(old(self)@, name@, value@));
        }
    }

    /// Composes this substitution with `other`: `other` is applied to the
    /// terms bound here, then the bindings of `other` follow.
    pub fn merge(&mut self, other: &SupSubstitution)
        ensures
            final(self)@ == spec_merge(old(self)@, other@),
    {
        let mut out: Vec<(String, SupTerm)> = Vec::new();
        let mut i: usize = 0;
        while i < self.entries.len()
            invariant
                i <= self.entries@.len(),
                *self == *old(self),
                out@.len() == i,
                forall|j: int|
                    0 <= j < i ==> (#[trigger] out@[j]).0@ == old(self)@[j].0 && out@[j].1@ == spec_apply_term(
                        other@,
                        old(self)@[j].1,
                    ),
            decreases self.entries@.len() - i,
        {
            let applied = term_apply_substitution(&self.entries[i].1, other);
            out.push((self.entries[i].0.clone(), applied));
            i = i + 1;
        }
        let ghost before = out@;
        let mut j: usize = 0;
        while j < other.entries.len()
            invariant
                j <= other.entries@.len(),
                out@.len() == before.len() + j,
                out@.subrange(0, before.len() as int) == before,
                forall|k: int| 0 <= k < j ==> (#[trigger] out@[before.len() + k]).0@ == other@[k].0 && out@[before.len() + k].1@ == other@[k].1,
            decreases other.entries@.len() - j,
        {
            out.push((other.entries[j].0.clone(), copy_sup_term(&other.entries[j].1)));
            proof {
                assert(out@.subrange(0, before.len() as int) =~= before);
            }
            j = j + 1;
        }
        self.entries = out;
        proof {
            assert forall|k: int| 0 <= k < before.len() implies #[trigger] self.entries@[k] == before[k] by {
                assert(out@.subrange(0, before.len() as int)[k] == before[k]);
            }
            assert forall|k: int| 0 <= k < self@.len() implies #[trigger] self@[k] == spec_merge(old(self)@, other@)[k] by {
                if k >= before.len() {
                    let m = k - before.len();
                    assert(self.entries@[before.len() + m] == self.entries@[k]);
                }
            }
            assert(self@ =~= spec_merge(old(self)@, other@));
        }
    }
}

impl Clone for SupSubstitution {
    fn clone(&self) -> (r: Self)
        ensures
            r@ == self@,
    {
        let mut out: Vec<(String, SupTerm)> = Vec::new();
        let mut i: usize = 0;
        while i < self.entries.len()
            invariant
                i <= self.entries@.len(),
                out@.len() == i,
                self@.len() == self.entries@.len(),
                forall|j: int| 0 <= j < i ==> (#[trigger] out@[j]).0@ == self@[j].0 && out@[j].1@ == self@[j].1,
            decreases self.entries@.len() - i,
        {
            out.push((self.entries[i].0.clone(), copy_sup_term(&self.entries[i].1)));
            i = i + 1;
        }
        let r = SupSubstitution { entries: out };
        assert(r@ =~= self@);
        r
    }
}

//########################### TERM OPERATIONS

/// Whether the terms `a` and `b` are the same.
pub fn sup_terms_equal(a: &SupTerm, b: &SupTerm) -> (r: bool)
    ensures
        r == (a@ == b@),
    decreases a,
{
    match a {
        SupTerm::Variable(x) => match b {
            SupTerm::Variable(y) => str_eq(x.as_str(), y.as_str()),
            _ => false,
        },
        SupTerm::Application(f, xs) => match b {
            SupTerm::Variable(_) => false,
            SupTerm::Application(g, ys) => {
                proof {
                    lemma_application_view(*f, *xs);
                    lemma_application_view(*g, *ys);
                }
                if !str_eq(f.as_str(), g.as_str()) || xs.len() != ys.len() {
                    proof {
                        if f@ != g@ {
                            assert(a@->App_0 != b@->App_0);
                        } else {
                            assert(a@->App_1.len() != b@->App_1.len());
                        }
                    }
                    return false;
                }
                let mut i: usize = 0;
                while i < xs.len()
                    invariant
                        xs@.len() == ys@.len(),
                        i <= xs@.len(),
                        *a == SupTerm::Application(*f, *xs),
                        *b == SupTerm::Application(*g, *ys),
                        forall|j: int| 0 <= j < i ==> xs@[j]@ == ys@[j]@,
                    decreases xs@.len() - i,
                {
                    proof {
                        assert(decreases_to!(*a => (*a)->Application_1));
                        assert(decreases_to!(*xs => xs@));
                        assert(decreases_to!(xs@ => xs@[i as int]));
                    }
                    if !sup_terms_equal(&xs[i], &ys[i]) {
                        proof {
                            lemma_application_view(*f, *xs);
                            lemma_application_view(*g, *ys);
                            assert(view_sup_terms(xs@)[i as int] != view_sup_terms(ys@)[i as int]);
                        }
                        return false;
                    }
                    i = i + 1;
                }
                proof {
                    assert(view_sup_terms(xs@) =~= view_sup_terms(ys@));
                }
                true
            },
        },
    }
}

/// Whether the variable `name` occurs in `term`.
pub fn occurs_in(name: &str, term: &SupTerm) -> (r: bool)
    ensures
        r == spec_occurs(name@, term@),
    decreases term,
{
    match term {
        SupTerm::Variable(x) => str_eq(x.as_str(), name),
        SupTerm::Application(f, args) => {
            proof {
                lemma_application_view(*f, *args);
                lemma_occurs_any(name@, view_sup_terms(args@));
            }
            let mut i: usize = 0;
            while i < args.len()
                invariant
                    i <= args@.len(),
                    *term == SupTerm::Application(*f, *args),
                    forall|j: int| 0 <= j < i ==> !spec_occurs(name@, #[trigger] view_sup_terms(args@)[j]),
                decreases args@.len() - i,
            {
                proof {
                    assert(decreases_to!(*term => (*term)->Application_1));
                    assert(decreases_to!(*args => args@));
                    assert(decreases_to!(args@ => args@[i as int]));
                }
                if occurs_in(name, &args[i]) {
                    proof {
                        lemma_application_view(*f, *args);
                        lemma_occurs_any(name@, view_sup_terms(args@));
                        assert(spec_occurs(name@, view_sup_terms(args@)[i as int]));
                    }
                    return true;
                }
                i = i + 1;
            }
            false
        },
    }
}

/// `term` with every occurrence of the variable `name` replaced by `arg`.
pub fn substitute_term(term: &SupTerm, name: &str, arg: &SupTerm) -> (r: SupTerm)
    ensures
        r@ == spec_subst_var(term@, name@, arg@),
    decreases term,
{
    match term {
        SupTerm::Variable(x) => {
            if str_eq(x.as_str(), name) {
                copy_sup_term(arg)
            } else {
                copy_sup_term(term)
            }
        },
        SupTerm::Application(f, args) => {
            proof {
                lemma_application_view(*f, *args);
            }
            let mut out: Vec<SupTerm> = Vec::new();
            let mut i: usize = 0;
            while i < args.len()
                invariant
                    i <= args@.len(),
                    *term == SupTerm::Application(*f, *args),
                    out@.len() == i,
                    forall|j: int| 0 <= j < i ==> (#[trigger] out@[j])@ == spec_subst_var(args@[j]@, name@, arg@),
                decreases args@.len() - i,
            {
                proof {
                    assert(decreases_to!(*term => (*term)->Application_1));
                    assert(decreases_to!(*args => args@));
                    assert(decreases_to!(args@ => args@[i as int]));
                }
                out.push(substitute_term(&args[i], name, arg));
                i = i + 1;
            }
            let g = f.clone();
            proof {
                lemma_application_view(g, out);
                assert(view_sup_terms(out@) =~= spec_subst_var(term@, name@, arg@)->App_1);
            }
            SupTerm::Application(g, out)
        },
    }
}

/// `term` with the substitution `subst` applied (see [`spec_apply_term`]).
pub fn term_apply_substitution(term: &SupTerm, subst: &SupSubstitution) -> (r: SupTerm)
    ensures
        r@ == spec_apply_term(subst@, term@),
    decreases term,
{
    match term {
        SupTerm::Variable(x) => match subst.resolvent(x.as_str()) {
            Some(t) => copy_sup_term(t),
            None => copy_sup_term(term),
        },
        SupTerm::Application(f, args) => {
            proof {
                lemma_application_view(*f, *args);
            }
            let mut out: Vec<SupTerm> = Vec::new();
            let mut i: usize = 0;
            while i < args.len()
                invariant
                    i <= args@.len(),
                    *term == SupTerm::Application(*f, *args),
                    out@.len() == i,
                    forall|j: int| 0 <= j < i ==> (#[trigger] out@[j])@ == spec_apply_term(subst@, args@[j]@),
                decreases args@.len() - i,
            {
                proof {
                    assert(decreases_to!(*term => (*term)->Application_1));
                    assert(decreases_to!(*args => args@));
                    assert(decreases_to!(args@ => args@[i as int]));
                }
                out.push(term_apply_substitution(&args[i], subst));
                i = i + 1;
            }
            let g = f.clone();
            proof {
                lemma_application_view(g, out);
                assert(view_sup_terms(out@) =~= spec_apply_term(subst@, term@)->App_1);
            }
            SupTerm::Application(g, out)
        },
    }
}

fn terms_apply_substitution(terms: &Vec<SupTerm>, subst: &SupSubstitution) -> (r: Vec<SupTerm>)
    ensures
        view_sup_terms(r@) == Seq::new(
            terms@.len(),
            |i: int| if 0 <= i < terms@.len() { spec_apply_term(subst@, view_sup_terms(terms@)[i]) } else { STerm::Var(Seq::empty()) },
        ),
{
    let mut out: Vec<SupTerm> = Vec::new();
    let mut i: usize = 0;
    while i < terms.len()
        invariant
            i <= terms@.len(),
            out@.len() == i,
            forall|j: int| 0 <= j < i ==> (#[trigger] out@[j])@ == spec_apply_term(subst@, terms@[j]@),
        decreases terms@.len() - i,
    {
        out.push(term_apply_substitution(&terms[i], subst));
        i = i + 1;
    }
    assert(view_sup_terms(out@) =~= Seq::new(
        terms@.len(),
        |i: int| if 0 <= i < terms@.len() { spec_apply_term(subst@, view_sup_terms(terms@)[i]) } else { STerm::Var(Seq::empty()) },
    ));
    out
}

/// `formula` with the substitution `subst` applied to its terms (see
/// [`spec_apply_formula`]).
pub fn formula_apply_substitution(formula: &SupFormula, subst: &SupSubstitution) -> (r: SupFormula)
    ensures
        r@ == spec_apply_formula(subst@, formula@),
    decreases formula,
{
    match formula {
        SupFormula::Atom(p, args) => {
            let out = terms_apply_substitution(args, subst);
            let r = SupFormula::Atom(p.clone(), out);
            assert(r@ == spec_apply_formula(subst@, formula@));
            r
        },
        SupFormula::Equality(l, r) => SupFormula::Equality(
            term_apply_substitution(l, subst),
            term_apply_substitution(r, subst),
        ),
        SupFormula::Not(g) => SupFormula::Not(Box::new(formula_apply_substitution(g, subst))),
        SupFormula::Clause(lits) => {
            proof {
                lemma_clause_view(*lits);
            }
            let mut out: Vec<SupFormula> = Vec::new();
            let mut i: usize = 0;
            while i < lits.len()
                invariant
                    i <= lits@.len(),
                    *formula == SupFormula::Clause(*lits),
                    out@.len() == i,
                    forall|j: int| 0 <= j < i ==> (#[trigger] out@[j])@ == spec_apply_formula(subst@, lits@[j]@),
                decreases lits@.len() - i,
            {
                proof {
                    assert(decreases_to!(*formula => (*formula)->Clause_0));
                    assert(decreases_to!(*lits => lits@));
                    assert(decreases_to!(lits@ => lits@[i as int]));
                }
                out.push(formula_apply_substitution(&lits[i], subst));
                i = i + 1;
            }
            proof {
                lemma_clause_view(out);
                assert(view_sup_formulas(out@) =~= spec_apply_formula(subst@, formula@)->Clause_0);
            }
            SupFormula::Clause(out)
        },
        SupFormula::ForAll(_, _, _) => crate::sup::sup::copy_sup_formula(formula),
    }
}

//########################### UNIFICATION

/// Unifies `a` and `b` under the bindings `subst` (see [`spec_unify_terms`]).
fn unify_terms(a: &SupTerm, b: &SupTerm, subst: SupSubstitution, fuel: u64) -> (r: Option<SupSubstitution>)
    ensures
        match spec_unify_terms(a@, b@, subst@, fuel as nat) {
            Some(s) => r matches Some(x) && x@ == s,
            None => r is None,
        },
    decreases fuel, 0int,
{
    if fuel == 0 {
        return None;
    }
    let a1 = term_apply_substitution(a, &subst);
    let b1 = term_apply_substitution(b, &subst);
    match &a1 {
        SupTerm::Variable(x) => {
            if sup_terms_equal(&a1, &b1) {
                Some(subst)
            } else if occurs_in(x.as_str(), &b1) {
                None
            } else {
                let mut s = subst;
                s.bind(x.clone(), b1);
                Some(s)
            }
        },
        SupTerm::Application(f, xs) => match &b1 {
            SupTerm::Variable(y) => {
                if occurs_in(y.as_str(), &a1) {
                    None
                } else {
                    let mut s = subst;
                    let y2 = y.clone();
                    s.bind(y2, a1);
                    Some(s)
                }
            },
            SupTerm::Application(g, ys) => {
                proof {
                    lemma_application_view(*f, *xs);
                    lemma_application_view(*g, *ys);
                }
                if str_eq(f.as_str(), g.as_str()) && xs.len() == ys.len() {
                    unify_args(xs, ys, subst, fuel - 1)
                } else {
                    None
                }
            },
        },
    }
}

/// Unifies `xs` and `ys` pair by pair, left to right (see
/// [`spec_unify_args`]).
fn unify_args(xs: &Vec<SupTerm>, ys: &Vec<SupTerm>, subst: SupSubstitution, fuel: u64) -> (r: Option<SupSubstitution>)
    requires
        xs@.len() == ys@.len(),
    ensures
        match spec_unify_args(view_sup_terms(xs@), view_sup_terms(ys@), subst@, fuel as nat, xs@.len()) {
            Some(s) => r matches Some(x) && x@ == s,
            None => r is None,
        },
    decreases fuel, 1int,
{
    let ghost vx = view_sup_terms(xs@);
    let ghost vy = view_sup_terms(ys@);
    let ghost s0 = subst@;
    let mut cur = subst;
    let mut i: usize = 0;
    while i < xs.len()
        invariant
            xs@.len() == ys@.len(),
            i <= xs@.len(),
            vx == view_sup_terms(xs@),
            vy == view_sup_terms(ys@),
            s0 == subst@,
            spec_unify_args(vx, vy, s0, fuel as nat, i as nat) == Some(cur@),
        decreases xs@.len() - i,
    {
        match unify_terms(&xs[i], &ys[i], cur, fuel) {
            Some(next) => {
                proof {
                    assert(vx[i as int] == xs@[i as int]@);
                    assert(vy[i as int] == ys@[i as int]@);
                }
                cur = next;
            },
            None => {
                proof {
                    assert(vx[i as int] == xs@[i as int]@);
                    assert(vy[i as int] == ys@[i as int]@);
                    assert(spec_unify_args(vx, vy, s0, fuel as nat, (i + 1) as nat) is None);
                    lemma_unify_args_none(vx, vy, s0, fuel as nat, (i + 1) as nat, xs@.len());
                }
                return None;
            },
        }
        i = i + 1;
    }
    Some(cur)
}

proof fn lemma_unify_args_none(xs: Seq<STerm>, ys: Seq<STerm>, s: Bindings, fuel: nat, k: nat, n: nat)
    requires
        k <= n,
        spec_unify_args(xs, ys, s, fuel, k) is None,
    ensures
        spec_unify_args(xs, ys, s, fuel, n) is None,
    decreases n - k,
{
    if k < n {
        lemma_unify_args_none(xs, ys, s, fuel, k, (n - 1) as nat);
    }
}

/// The most general unifier of two atoms with the same predicate and arity
/// (see [`spec_formulas_unify`]); the formulas in the error otherwise.
pub fn formulas_unify(a: &SupFormula, b: &SupFormula) -> (r: Result<SupSubstitution, LofError>)
    ensures
        match spec_formulas_unify(a@, b@) {
            Some(s) => r matches Ok(x) && x@ == s,
            None => r matches Err(LofError::UnificationFailure { term1, term2 }) && term1@ == spec_render_sup_formula(a@)
                && term2@ == spec_render_sup_formula(b@),
        },
{
    let unified = match (a, b) {
        (SupFormula::Atom(p, xs), SupFormula::Atom(q, ys)) => {
            if str_eq(p.as_str(), q.as_str()) && xs.len() == ys.len() {
                unify_args(xs, ys, SupSubstitution::empty(), UNIFICATION_FUEL)
            } else {
                None
            }
        },
        _ => None,
    };
    match unified {
        Some(s) => Ok(s),
        None => {
            let t1 = render_sup_formula(a);
            let t2 = render_sup_formula(b);
            Err(LofError::UnificationFailure { term1: t1, term2: t2 })
        },
    }
}

} // verus!
