//! Soundness of SLD resolution: every answer the search finds makes each
//! goal an instance of a consequence of the program.

use vstd::prelude::*;
use crate::sup::sld::{
    fresh_suffix, spec_all_answers, spec_first_answer, SEARCH_FUEL, spec_derive, spec_derive_clauses, spec_freshen, spec_rename_formula, spec_rename_term, HornModel,
};
use crate::sup::sup::{SForm, STerm};
use crate::sup::unification::{
    spec_apply_formula, spec_formulas_unify, lemma_occurs_any, lemma_subst_var_occurs, spec_apply_term, spec_binding_of, spec_bind, spec_merge,
    spec_occurs, spec_unify_args, spec_unify_terms, Bindings,
};
use crate::text::{is_digit, lemma_decimal, spec_decimal};

verus! {

//########################### FRESH NAMES

/// `x` ends with `suffix`.
pub open spec fn ends_with(x: Seq<char>, suffix: Seq<char>) -> bool {
    suffix.len() <= x.len() && x.subrange(x.len() - suffix.len(), x.len() as int) == suffix
}

/// `x` could not have been made by the `i`-th renaming apart for any `i`
/// from `c` on.
pub open spec fn older_than(x: Seq<char>, c: nat) -> bool {
    forall|i: nat| i >= c ==> !ends_with(x, #[trigger] fresh_suffix(i))
}

/// A name renamed apart by the `c`-th renaming ends with the suffix of no
/// other renaming.
pub proof fn lemma_fresh_suffix_unique(x: Seq<char>, c: nat, j: nat)
    requires
        ends_with(x + fresh_suffix(c), fresh_suffix(j)),
    ensures
        j == c,
{
    reveal_strlit("#");
    let a = fresh_suffix(c);
    let b = fresh_suffix(j);
    let z = x + a;
    lemma_decimal(c);
    lemma_decimal(j);
    assert(a == seq!['#'] + spec_decimal(c));
    assert(b == seq!['#'] + spec_decimal(j));
    let n = z.len();
    assert(z.subrange(n - b.len(), n as int) == b);
    if b.len() == a.len() {
        assert(z.subrange(n - a.len(), n as int) =~= a);
        assert(spec_decimal(j) =~= b.subrange(1, b.len() as int));
        assert(spec_decimal(c) =~= a.subrange(1, a.len() as int));
        assert(spec_decimal(j) == spec_decimal(c));
    } else if b.len() < a.len() {
        let p = n - b.len();
        assert(z[p] == b[0]);
        assert(b[0] == '#');
        let q = a.len() - b.len();
        assert(z[p] == a[q]);
        assert(a[q] == spec_decimal(c)[q - 1]);
        assert(is_digit(spec_decimal(c)[q - 1]));
    } else {
        let p = n - a.len();
        assert(z[p] == a[0]);
        assert(a[0] == '#');
        let q = b.len() - a.len();
        assert(z[p] == b[q]);
        assert(b[q] == spec_decimal(j)[q - 1]);
        assert(is_digit(spec_decimal(j)[q - 1]));
    }
}

/// What the `c`-th renaming apart makes is older than the next renaming.
pub proof fn lemma_renamed_older(x: Seq<char>, c: nat)
    ensures
        older_than(x + fresh_suffix(c), c + 1),
        !older_than(x + fresh_suffix(c), c),
{
    assert forall|i: nat| i >= c + 1 implies !ends_with(x + fresh_suffix(c), #[trigger] fresh_suffix(i)) by {
        if ends_with(x + fresh_suffix(c), fresh_suffix(i)) {
            lemma_fresh_suffix_unique(x, c, i);
        }
    }
    let z = x + fresh_suffix(c);
    assert(z.subrange(z.len() - fresh_suffix(c).len(), z.len() as int) =~= fresh_suffix(c));
    assert(ends_with(z, fresh_suffix(c)));
}

//########################### VARIABLES

/// Every variable of `t` is older than the `c`-th renaming.
pub open spec fn vars_older(t: STerm, c: nat) -> bool {
    forall|x: Seq<char>| #[trigger] spec_occurs(x, t) ==> older_than(x, c)
}

/// Every variable of the atom `f` is older than the `c`-th renaming (any
/// other formula counts as such: it never unifies with a head).
pub open spec fn formula_vars_older(f: SForm, c: nat) -> bool {
    match f {
        SForm::Atom(_, args) => forall|i: int| 0 <= i < args.len() ==> vars_older(#[trigger] args[i], c),
        _ => true,
    }
}

/// Every variable bound by `s`, and of the terms it binds, is older than
/// the `c`-th renaming.
pub open spec fn bindings_older(s: Bindings, c: nat) -> bool {
    forall|i: int| 0 <= i < s.len() ==> older_than((#[trigger] s[i]).0, c) && vars_older(s[i].1, c)
}

proof fn lemma_binding_in(s: Bindings, x: Seq<char>)
    ensures
        spec_binding_of(s, x) matches Some(v) ==> exists|i: int| 0 <= i < s.len() && #[trigger] s[i] == (x, v),
    decreases s.len(),
{
    if s.len() > 0 && s[0].0 != x {
        lemma_binding_in(s.drop_first(), x);
        if spec_binding_of(s, x) is Some {
            let v = spec_binding_of(s, x).unwrap();
            let i = choose|i: int| 0 <= i < s.drop_first().len() && #[trigger] s.drop_first()[i] == (x, v);
            assert(s[i + 1] == (x, v));
        }
    } else if s.len() > 0 {
        assert(s[0] == (x, s[0].1));
    }
}

proof fn lemma_older_more(x: Seq<char>, c: nat, d: nat)
    requires
        older_than(x, c),
        c <= d,
    ensures
        older_than(x, d),
{
}

proof fn lemma_apply_older(s: Bindings, t: STerm, c: nat)
    requires
        vars_older(t, c),
        bindings_older(s, c),
    ensures
        vars_older(spec_apply_term(s, t), c),
    decreases t,
{
    match t {
        STerm::Var(x) => {
            lemma_binding_in(s, x);
            if spec_binding_of(s, x) is Some {
                let v = spec_binding_of(s, x).unwrap();
                let i = choose|i: int| 0 <= i < s.len() && #[trigger] s[i] == (x, v);
                assert(vars_older(s[i].1, c));
            } else {
                assert(spec_occurs(x, t));
            }
        },
        STerm::App(f, args) => {
            let r = spec_apply_term(s, t);
            assert forall|z: Seq<char>| #[trigger] spec_occurs(z, r) implies older_than(z, c) by {
                lemma_occurs_any(z, r->App_1);
                let i = choose|i: int| 0 <= i < r->App_1.len() && #[trigger] spec_occurs(z, r->App_1[i]);
                assert forall|y: Seq<char>| #[trigger] spec_occurs(y, args[i]) implies older_than(y, c) by {
                    lemma_occurs_any(y, args);
                    assert(spec_occurs(y, t));
                }
                lemma_apply_older(s, args[i], c);
            }
        },
    }
}

proof fn lemma_bind_older(s: Bindings, x: Seq<char>, v: STerm, c: nat)
    requires
        bindings_older(s, c),
        older_than(x, c),
        vars_older(v, c),
    ensures
        bindings_older(spec_bind(s, x, v), c),
{
    let b = spec_bind(s, x, v);
    assert forall|i: int| 0 <= i < b.len() implies older_than((#[trigger] b[i]).0, c) && vars_older(b[i].1, c) by {
        if i < s.len() {
            assert forall|z: Seq<char>| #[trigger] spec_occurs(z, b[i].1) implies older_than(z, c) by {
                lemma_subst_var_occurs(s[i].1, x, v, z);
            }
        }
    }
}

proof fn lemma_merge_older(s: Bindings, m: Bindings, c: nat)
    requires
        bindings_older(s, c),
        bindings_older(m, c),
    ensures
        bindings_older(spec_merge(s, m), c),
{
    let r = spec_merge(s, m);
    assert forall|i: int| 0 <= i < r.len() implies older_than((#[trigger] r[i]).0, c) && vars_older(r[i].1, c) by {
        if i < s.len() {
            assert(older_than(s[i].0, c) && vars_older(s[i].1, c));
            lemma_apply_older(m, s[i].1, c);
        } else {
            assert(r[i] == m[i - s.len()]);
        }
    }
}

proof fn lemma_unify_terms_older(a: STerm, b: STerm, s: Bindings, fuel: nat, c: nat)
    requires
        vars_older(a, c),
        vars_older(b, c),
        bindings_older(s, c),
        spec_unify_terms(a, b, s, fuel) is Some,
    ensures
        bindings_older(spec_unify_terms(a, b, s, fuel).unwrap(), c),
    decreases fuel, 0int, 0int,
{
    let a1 = spec_apply_term(s, a);
    let b1 = spec_apply_term(s, b);
    lemma_apply_older(s, a, c);
    lemma_apply_older(s, b, c);
    match a1 {
        STerm::Var(x) => {
            if a1 != b1 {
                assert(spec_occurs(x, a1));
                lemma_bind_older(s, x, b1, c);
            }
        },
        STerm::App(f, xs) => match b1 {
            STerm::Var(y) => {
                assert(spec_occurs(y, b1));
                lemma_bind_older(s, y, a1, c);
            },
            STerm::App(g, ys) => {
                assert forall|i: int| 0 <= i < xs.len() implies vars_older(#[trigger] xs[i], c) by {
                    assert forall|z: Seq<char>| #[trigger] spec_occurs(z, xs[i]) implies older_than(z, c) by {
                        lemma_occurs_any(z, xs);
                        assert(spec_occurs(z, a1));
                    }
                }
                assert forall|i: int| 0 <= i < ys.len() implies vars_older(#[trigger] ys[i], c) by {
                    assert forall|z: Seq<char>| #[trigger] spec_occurs(z, ys[i]) implies older_than(z, c) by {
                        lemma_occurs_any(z, ys);
                        assert(spec_occurs(z, b1));
                    }
                }
                lemma_unify_args_older(xs, ys, s, (fuel - 1) as nat, xs.len(), c);
            },
        },
    }
}

proof fn lemma_unify_args_older(xs: Seq<STerm>, ys: Seq<STerm>, s: Bindings, fuel: nat, n: nat, c: nat)
    requires
        n <= xs.len(),
        n <= ys.len(),
        forall|i: int| 0 <= i < xs.len() ==> vars_older(#[trigger] xs[i], c),
        forall|i: int| 0 <= i < ys.len() ==> vars_older(#[trigger] ys[i], c),
        bindings_older(s, c),
        spec_unify_args(xs, ys, s, fuel, n) is Some,
    ensures
        bindings_older(spec_unify_args(xs, ys, s, fuel, n).unwrap(), c),
    decreases fuel, 1int, n,
{
    if n > 0 {
        let m = (n - 1) as nat;
        lemma_unify_args_older(xs, ys, s, fuel, m, c);
        let s1 = spec_unify_args(xs, ys, s, fuel, m).unwrap();
        lemma_unify_terms_older(xs[n - 1], ys[n - 1], s1, fuel, c);
    }
}

/// A variable of a renamed term is a variable of the term with the suffix.
proof fn lemma_rename_occurs(t: STerm, suffix: Seq<char>, z: Seq<char>)
    requires
        spec_occurs(z, spec_rename_term(t, suffix)),
    ensures
        exists|x: Seq<char>| z == x + suffix,
    decreases t,
{
    match t {
        STerm::Var(x) => {
            assert(z == x + suffix);
        },
        STerm::App(f, args) => {
            let r = spec_rename_term(t, suffix);
            lemma_occurs_any(z, r->App_1);
            let i = choose|i: int| 0 <= i < r->App_1.len() && #[trigger] spec_occurs(z, r->App_1[i]);
            lemma_rename_occurs(args[i], suffix, z);
        },
    }
}

/// The variables of a term renamed apart for the `c`-th time are older
/// than the next renaming and no older than this one.
proof fn lemma_renamed_vars(t: STerm, c: nat)
    ensures
        vars_older(spec_rename_term(t, fresh_suffix(c)), c + 1),
        forall|z: Seq<char>| #[trigger] spec_occurs(z, spec_rename_term(t, fresh_suffix(c))) ==> !older_than(z, c),
{
    assert forall|z: Seq<char>| #[trigger] spec_occurs(z, spec_rename_term(t, fresh_suffix(c))) implies older_than(z, c + 1)
        && !older_than(z, c) by {
        lemma_rename_occurs(t, fresh_suffix(c), z);
        let x = choose|x: Seq<char>| z == x + fresh_suffix(c);
        lemma_renamed_older(x, c);
    }
}

/// Applying bindings that touch none of the variables of `t` leaves it.
proof fn lemma_apply_untouched(s: Bindings, t: STerm, c: nat)
    requires
        bindings_older(s, c),
        forall|z: Seq<char>| #[trigger] spec_occurs(z, t) ==> !older_than(z, c),
    ensures
        spec_apply_term(s, t) == t,
{
    assert forall|z: Seq<char>| #[trigger] spec_occurs(z, t) implies spec_binding_of(s, z) is None by {
        lemma_binding_in(s, z);
        if spec_binding_of(s, z) is Some {
            let v = spec_binding_of(s, z).unwrap();
            let i = choose|i: int| 0 <= i < s.len() && #[trigger] s[i] == (z, v);
            assert(older_than(s[i].0, c));
        }
    }
    crate::sup::unification::lemma_apply_id(s, t);
}

//########################### DERIVATIONS

/// `t` with `theta` in place of each of its variables.
pub open spec fn spec_instantiate(theta: spec_fn(Seq<char>) -> STerm, t: STerm) -> STerm
    decreases t,
{
    match t {
        STerm::Var(x) => theta(x),
        STerm::App(f, args) => STerm::App(
            f,
            Seq::new(args.len(), |i: int| if 0 <= i < args.len() { spec_instantiate(theta, args[i]) } else { STerm::Var(Seq::empty()) }),
        ),
    }
}

/// `f` with `theta` in place of each variable of its terms; a quantified
/// formula is left as it is.
pub open spec fn spec_instantiate_formula(theta: spec_fn(Seq<char>) -> STerm, f: SForm) -> SForm
    decreases f,
{
    match f {
        SForm::Atom(p, args) => SForm::Atom(
            p,
            Seq::new(args.len(), |i: int| if 0 <= i < args.len() { spec_instantiate(theta, args[i]) } else { STerm::Var(Seq::empty()) }),
        ),
        SForm::Eq(l, r) => SForm::Eq(spec_instantiate(theta, l), spec_instantiate(theta, r)),
        SForm::Not(g) => SForm::Not(Box::new(spec_instantiate_formula(theta, *g))),
        SForm::Clause(lits) => SForm::Clause(
            Seq::new(lits.len(), |i: int| if 0 <= i < lits.len() { spec_instantiate_formula(theta, lits[i]) } else { SForm::Clause(Seq::empty()) }),
        ),
        SForm::ForAll(_, _, _) => f,
    }
}

/// A derivation from a program: an instance of the head of its `k`-th
/// clause, with a derivation of each atom of the body, instantiated alike.
pub enum Derivation {
    Step(int, spec_fn(Seq<char>) -> STerm, Seq<Derivation>),
}

/// `d` derives `goal` from `program`.
pub open spec fn valid_derivation(program: Seq<HornModel>, goal: SForm, d: Derivation) -> bool
    decreases d,
{
    match d {
        Derivation::Step(k, theta, subs) => {
            &&& 0 <= k < program.len()
            &&& spec_instantiate_formula(theta, program[k].0) == goal
            &&& subs.len() == program[k].1.len()
            &&& forall|j: int|
                0 <= j < subs.len() ==> valid_derivation(
                    program,
                    spec_instantiate_formula(theta, program[k].1[j]),
                    #[trigger] subs[j],
                )
        },
    }
}

/// `goal` follows from `program`: some derivation derives it.
pub open spec fn derivable(program: Seq<HornModel>, goal: SForm) -> bool {
    exists|d: Derivation| valid_derivation(program, goal, d)
}

//########################### RELATING THE PIECES

/// The substitution that stands for `sigma` applied after renaming apart
/// with `suffix`.
pub open spec fn renamed_then(sigma: Bindings, suffix: Seq<char>) -> spec_fn(Seq<char>) -> STerm {
    |x: Seq<char>| spec_apply_term(sigma, STerm::Var(x + suffix))
}

proof fn lemma_instantiate_renamed(sigma: Bindings, suffix: Seq<char>, t: STerm)
    ensures
        spec_instantiate(renamed_then(sigma, suffix), t) == spec_apply_term(sigma, spec_rename_term(t, suffix)),
    decreases t,
{
    match t {
        STerm::Var(x) => {},
        STerm::App(f, args) => {
            let theta = renamed_then(sigma, suffix);
            let r = spec_rename_term(t, suffix);
            assert forall|i: int| 0 <= i < args.len() implies spec_instantiate(theta, args[i]) == spec_apply_term(
                sigma,
                r->App_1[i],
            ) by {
                lemma_instantiate_renamed(sigma, suffix, args[i]);
            }
            assert(spec_instantiate(theta, t)->App_1 =~= spec_apply_term(sigma, r)->App_1);
        },
    }
}

proof fn lemma_instantiate_renamed_formula(sigma: Bindings, suffix: Seq<char>, f: SForm)
    ensures
        spec_instantiate_formula(renamed_then(sigma, suffix), f) == spec_apply_formula(
            sigma,
            spec_rename_formula(f, suffix),
        ),
    decreases f,
{
    let theta = renamed_then(sigma, suffix);
    match f {
        SForm::Atom(p, args) => {
            let r = spec_rename_formula(f, suffix);
            assert forall|i: int| 0 <= i < args.len() implies spec_instantiate(theta, args[i]) == spec_apply_term(
                sigma,
                r->Atom_1[i],
            ) by {
                lemma_instantiate_renamed(sigma, suffix, args[i]);
            }
            assert(spec_instantiate_formula(theta, f)->Atom_1 =~= spec_apply_formula(sigma, r)->Atom_1);
        },
        SForm::Eq(l, r) => {
            lemma_instantiate_renamed(sigma, suffix, l);
            lemma_instantiate_renamed(sigma, suffix, r);
        },
        SForm::Not(g) => {
            lemma_instantiate_renamed_formula(sigma, suffix, *g);
        },
        SForm::Clause(lits) => {
            let r = spec_rename_formula(f, suffix);
            assert forall|i: int| 0 <= i < lits.len() implies spec_instantiate_formula(theta, lits[i])
                == spec_apply_formula(sigma, r->Clause_0[i]) by {
                lemma_instantiate_renamed_formula(sigma, suffix, lits[i]);
            }
            assert(spec_instantiate_formula(theta, f)->Clause_0 =~= spec_apply_formula(sigma, r)->Clause_0);
        },
        SForm::ForAll(_, _, _) => {},
    }
}

/// Applying `sigma` is applying `s`, then `tau`.
pub open spec fn composes(sigma: Bindings, tau: Bindings, s: Bindings) -> bool {
    forall|t: STerm| #[trigger] spec_apply_term(sigma, t) == spec_apply_term(tau, spec_apply_term(s, t))
}

/// Applying `sigma` is applying `s`, then some other bindings.
pub open spec fn extends(sigma: Bindings, s: Bindings) -> bool {
    exists|tau: Bindings| #[trigger] composes(sigma, tau, s)
}

proof fn lemma_apply_empty(t: STerm)
    ensures
        spec_apply_term(Seq::<(Seq<char>, STerm)>::empty(), t) == t,
{
    crate::sup::unification::lemma_apply_id(Seq::<(Seq<char>, STerm)>::empty(), t);
}

proof fn lemma_extends_refl(s: Bindings)
    ensures
        extends(s, s),
{
    let e = Seq::<(Seq<char>, STerm)>::empty();
    assert forall|t: STerm| #[trigger] spec_apply_term(s, t) == spec_apply_term(e, spec_apply_term(s, t)) by {
        lemma_apply_empty(spec_apply_term(s, t));
    }
    assert(composes(s, e, s));
}

/// What extends `merge(s, m)` extends `s`.
proof fn lemma_extends_merge(sigma: Bindings, s: Bindings, m: Bindings)
    requires
        extends(sigma, spec_merge(s, m)),
    ensures
        extends(sigma, s),
{
    let tau = choose|tau: Bindings| #[trigger] composes(sigma, tau, spec_merge(s, m));
    let tau2 = spec_merge(m, tau);
    assert forall|t: STerm| #[trigger] spec_apply_term(sigma, t) == spec_apply_term(tau2, spec_apply_term(s, t)) by {
        crate::sup::unification::law_merge_composes(s, m, t);
        crate::sup::unification::law_merge_composes(m, tau, spec_apply_term(s, t));
        assert(spec_apply_term(sigma, t) == spec_apply_term(tau, spec_apply_term(spec_merge(s, m), t)));
    }
    assert(composes(sigma, tau2, s));
}

/// Formula-level: applying `sigma` that extends `s` to an atom.
proof fn lemma_extends_formula(sigma: Bindings, tau: Bindings, s: Bindings, f: SForm)
    requires
        composes(sigma, tau, s),
    ensures
        spec_apply_formula(sigma, f) == spec_apply_formula(tau, spec_apply_formula(s, f)),
    decreases f,
{
    match f {
        SForm::Atom(p, args) => {
            assert(spec_apply_formula(sigma, f)->Atom_1 =~= spec_apply_formula(tau, spec_apply_formula(s, f))->Atom_1);
        },
        SForm::Eq(l, r) => {},
        SForm::Not(g) => {
            lemma_extends_formula(sigma, tau, s, *g);
        },
        SForm::Clause(lits) => {
            assert forall|i: int| 0 <= i < lits.len() implies spec_apply_formula(sigma, lits[i]) == spec_apply_formula(
                tau,
                spec_apply_formula(s, lits[i]),
            ) by {
                lemma_extends_formula(sigma, tau, s, lits[i]);
            }
            assert(spec_apply_formula(sigma, f)->Clause_0 =~= spec_apply_formula(tau, spec_apply_formula(s, f))->Clause_0);
        },
        SForm::ForAll(_, _, _) => {},
    }
}

proof fn lemma_merge_formula(s: Bindings, m: Bindings, f: SForm)
    ensures
        spec_apply_formula(spec_merge(s, m), f) == spec_apply_formula(m, spec_apply_formula(s, f)),
{
    assert forall|t: STerm| #[trigger] spec_apply_term(spec_merge(s, m), t) == spec_apply_term(m, spec_apply_term(s, t)) by {
        crate::sup::unification::law_merge_composes(s, m, t);
    }
    assert(composes(spec_merge(s, m), m, s));
    lemma_extends_formula(spec_merge(s, m), m, s, f);
}

proof fn lemma_formula_older_mono(f: SForm, c: nat, d: nat)
    requires
        formula_vars_older(f, c),
        c <= d,
    ensures
        formula_vars_older(f, d),
{
    match f {
        SForm::Atom(_, args) => {
            assert forall|i: int| 0 <= i < args.len() implies vars_older(#[trigger] args[i], d) by {
                assert(vars_older(args[i], c));
                assert forall|x: Seq<char>| #[trigger] spec_occurs(x, args[i]) implies older_than(x, d) by {
                    lemma_older_more(x, c, d);
                }
            }
        },
        _ => {},
    }
}

proof fn lemma_bindings_older_mono(s: Bindings, c: nat, d: nat)
    requires
        bindings_older(s, c),
        c <= d,
    ensures
        bindings_older(s, d),
{
    assert forall|i: int| 0 <= i < s.len() implies older_than((#[trigger] s[i]).0, d) && vars_older(s[i].1, d) by {
        assert(older_than(s[i].0, c) && vars_older(s[i].1, c));
        lemma_older_more(s[i].0, c, d);
        assert forall|x: Seq<char>| #[trigger] spec_occurs(x, s[i].1) implies older_than(x, d) by {
            lemma_older_more(x, c, d);
        }
    }
}

proof fn lemma_apply_formula_older(s: Bindings, f: SForm, c: nat)
    requires
        formula_vars_older(f, c),
        bindings_older(s, c),
    ensures
        formula_vars_older(spec_apply_formula(s, f), c),
{
    match f {
        SForm::Atom(_, args) => {
            let r = spec_apply_formula(s, f);
            assert forall|i: int| 0 <= i < r->Atom_1.len() implies vars_older(#[trigger] r->Atom_1[i], c) by {
                lemma_apply_older(s, args[i], c);
            }
        },
        _ => {},
    }
}

proof fn lemma_renamed_formula(f: SForm, s: Bindings, c: nat)
    requires
        bindings_older(s, c),
    ensures
        formula_vars_older(spec_rename_formula(f, fresh_suffix(c)), c + 1),
        f is Atom ==> spec_apply_formula(s, spec_rename_formula(f, fresh_suffix(c))) == spec_rename_formula(
            f,
            fresh_suffix(c),
        ),
{
    match f {
        SForm::Atom(_, args) => {
            let r = spec_rename_formula(f, fresh_suffix(c));
            assert forall|i: int| 0 <= i < r->Atom_1.len() implies vars_older(#[trigger] r->Atom_1[i], c + 1) by {
                lemma_renamed_vars(args[i], c);
            }
            assert forall|i: int| 0 <= i < r->Atom_1.len() implies spec_apply_term(s, #[trigger] r->Atom_1[i])
                == r->Atom_1[i] by {
                lemma_renamed_vars(args[i], c);
                lemma_apply_untouched(s, r->Atom_1[i], c);
            }
            assert(spec_apply_formula(s, r)->Atom_1 =~= r->Atom_1);
        },
        _ => {},
    }
}

/// An answer for `goals` under `s`: it extends `s`, and each goal under it
/// follows from the program.
pub open spec fn answer_ok(program: Seq<HornModel>, goals: Seq<SForm>, s: Bindings, sigma: Bindings) -> bool {
    &&& extends(sigma, s)
    &&& forall|i: int| 0 <= i < goals.len() ==> derivable(program, spec_apply_formula(sigma, #[trigger] goals[i]))
}

proof fn lemma_derive_sound(
    goals: Seq<SForm>,
    s: Bindings,
    program: Seq<HornModel>,
    fuel: nat,
    counter: nat,
    first: bool,
)
    requires
        bindings_older(s, counter),
        forall|i: int| 0 <= i < goals.len() ==> formula_vars_older(#[trigger] goals[i], counter),
    ensures
        ({
            let r = spec_derive(goals, s, program, fuel, counter, first);
            &&& r.2 >= counter
            &&& forall|a: int| 0 <= a < r.0.len() ==> answer_ok(program, goals, s, #[trigger] r.0[a])
        }),
    decreases fuel, 0int, 0int,
{
    let r = spec_derive(goals, s, program, fuel, counter, first);
    if goals.len() == 0 {
        lemma_extends_refl(s);
        assert forall|a: int| 0 <= a < r.0.len() implies answer_ok(program, goals, s, #[trigger] r.0[a]) by {
            assert(r.0[a] == s);
        }
    } else if fuel > 0 {
        let g0 = goals[0];
        let rest = goals.drop_first();
        assert forall|i: int| 0 <= i < rest.len() implies formula_vars_older(#[trigger] rest[i], counter) by {
            assert(rest[i] == goals[i + 1]);
        }
        lemma_clauses_sound(g0, rest, s, program, (fuel - 1) as nat, counter, first, 0);
        assert forall|a: int| 0 <= a < r.0.len() implies answer_ok(program, goals, s, #[trigger] r.0[a]) by {
            let sigma = r.0[a];
            assert forall|i: int| 0 <= i < goals.len() implies derivable(
                program,
                spec_apply_formula(sigma, #[trigger] goals[i]),
            ) by {
                if i > 0 {
                    assert(goals[i] == rest[i - 1]);
                }
            }
        }
    }
}

proof fn lemma_clauses_sound(
    g0: SForm,
    rest: Seq<SForm>,
    s: Bindings,
    program: Seq<HornModel>,
    fuel: nat,
    counter: nat,
    first: bool,
    k: nat,
)
    requires
        bindings_older(s, counter),
        formula_vars_older(g0, counter),
        forall|i: int| 0 <= i < rest.len() ==> formula_vars_older(#[trigger] rest[i], counter),
    ensures
        ({
            let r = spec_derive_clauses(spec_apply_formula(s, g0), rest, s, program, fuel, counter, first, k);
            &&& r.2 >= counter
            &&& forall|a: int|
                0 <= a < r.0.len() ==> {
                    &&& extends(#[trigger] r.0[a], s)
                    &&& derivable(program, spec_apply_formula(r.0[a], g0))
                    &&& forall|i: int|
                        0 <= i < rest.len() ==> derivable(program, spec_apply_formula(r.0[a], #[trigger] rest[i]))
                }
        }),
    decreases fuel, 1int, program.len() - k,
{
    let goal = spec_apply_formula(s, g0);
    let r = spec_derive_clauses(goal, rest, s, program, fuel, counter, first, k);
    if k >= program.len() || counter >= u64::MAX {
    } else {
        let candidate = spec_freshen(program[k as int], counter);
        lemma_bindings_older_mono(s, counter, counter + 1);
        lemma_formula_older_mono(g0, counter, counter + 1);
        assert forall|i: int| 0 <= i < rest.len() implies formula_vars_older(#[trigger] rest[i], counter + 1) by {
            lemma_formula_older_mono(rest[i], counter, counter + 1);
        }
        match spec_formulas_unify(goal, candidate.0) {
            None => {
                lemma_clauses_sound(g0, rest, s, program, fuel, counter + 1, first, k + 1);
            },
            Some(m) => {
                let s2 = spec_merge(s, m);
                let next = candidate.1 + rest;
                let body = candidate.1;
                let suffix = fresh_suffix(counter);
                // the goal and the renamed head are atoms whose variables are old enough
                lemma_apply_formula_older(s, g0, counter + 1);
                lemma_renamed_formula(program[k as int].0, s, counter);
                let xs = goal->Atom_1;
                let ys = candidate.0->Atom_1;
                assert forall|i: int| 0 <= i < xs.len() implies vars_older(#[trigger] xs[i], counter + 1) by {}
                assert forall|i: int| 0 <= i < ys.len() implies vars_older(#[trigger] ys[i], counter + 1) by {}
                lemma_unify_args_older(xs, ys, Seq::empty(), crate::cic::unification::UNIFICATION_FUEL as nat, xs.len(), counter + 1);
                lemma_merge_older(s, m, counter + 1);
                assert forall|j: int| 0 <= j < next.len() implies formula_vars_older(#[trigger] next[j], counter + 1) by {
                    if j < body.len() {
                        lemma_renamed_formula(program[k as int].1[j], s, counter);
                        assert(next[j] == spec_rename_formula(program[k as int].1[j], suffix));
                    } else {
                        assert(next[j] == rest[j - body.len()]);
                    }
                }
                lemma_derive_sound(next, s2, program, fuel, counter + 1, first);
                let sub = spec_derive(next, s2, program, fuel, counter + 1, first);
                // every answer of the sub-search is an answer here
                crate::sup::unification::law_unifier_unifies(goal, candidate.0);
                assert forall|a: int| 0 <= a < sub.0.len() implies {
                    &&& extends(#[trigger] sub.0[a], s)
                    &&& derivable(program, spec_apply_formula(sub.0[a], g0))
                    &&& forall|i: int|
                        0 <= i < rest.len() ==> derivable(program, spec_apply_formula(sub.0[a], #[trigger] rest[i]))
                } by {
                    let sigma = sub.0[a];
                    assert(answer_ok(program, next, s2, sigma));
                    lemma_extends_merge(sigma, s, m);
                    let tau = choose|tau: Bindings| #[trigger] composes(sigma, tau, s2);
                    lemma_extends_formula(sigma, tau, s2, g0);
                    lemma_extends_formula(sigma, tau, s2, candidate.0);
                    lemma_merge_formula(s, m, g0);
                    lemma_merge_formula(s, m, candidate.0);
                    // the instance of the clause that derives the goal
                    let theta = renamed_then(sigma, suffix);
                    lemma_instantiate_renamed_formula(sigma, suffix, program[k as int].0);
                    assert(spec_apply_formula(sigma, candidate.0) == spec_apply_formula(sigma, g0));
                    let subs = Seq::new(
                        body.len(),
                        |j: int| choose|d: Derivation| valid_derivation(program, spec_apply_formula(sigma, next[j]), d),
                    );
                    assert forall|j: int| 0 <= j < subs.len() implies valid_derivation(
                        program,
                        spec_instantiate_formula(theta, program[k as int].1[j]),
                        #[trigger] subs[j],
                    ) by {
                        assert(next[j] == spec_rename_formula(program[k as int].1[j], suffix));
                        lemma_instantiate_renamed_formula(sigma, suffix, program[k as int].1[j]);
                        assert(derivable(program, spec_apply_formula(sigma, next[j])));
                    }
                    let d = Derivation::Step(k as int, theta, subs);
                    assert(valid_derivation(program, spec_apply_formula(sigma, g0), d));
                    assert forall|i: int| 0 <= i < rest.len() implies derivable(
                        program,
                        spec_apply_formula(sigma, #[trigger] rest[i]),
                    ) by {
                        assert(next[body.len() + i] == rest[i]);
                    }
                }
                if !sub.1 {
                    lemma_bindings_older_mono(s, counter, sub.2);
                    lemma_formula_older_mono(g0, counter, sub.2);
                    assert forall|i: int| 0 <= i < rest.len() implies formula_vars_older(#[trigger] rest[i], sub.2) by {
                        lemma_formula_older_mono(rest[i], counter, sub.2);
                    }
                    lemma_clauses_sound(g0, rest, s, program, fuel, sub.2, first, k + 1);
                    let more = spec_derive_clauses(goal, rest, s, program, fuel, sub.2, first, k + 1);
                    assert forall|a: int| 0 <= a < r.0.len() implies {
                        &&& extends(#[trigger] r.0[a], s)
                        &&& derivable(program, spec_apply_formula(r.0[a], g0))
                        &&& forall|i: int|
                            0 <= i < rest.len() ==> derivable(program, spec_apply_formula(r.0[a], #[trigger] rest[i]))
                    } by {
                        if a < sub.0.len() {
                            assert(r.0[a] == sub.0[a]);
                        } else {
                            assert(r.0[a] == more.0[a - sub.0.len()]);
                        }
                    }
                }
            },
        }
    }
}

//########################### THE LAW

/// Soundness of SLD resolution: when no variable of the query ends the way
/// a renamed-apart variable does (`#` and a decimal number), every answer
/// that the search finds, the first one included, turns each goal of the
/// query into an atom that has a derivation from the program.
pub proof fn law_sld_answers_sound(program: Seq<HornModel>, query: Seq<SForm>)
    requires
        forall|i: int| 0 <= i < query.len() ==> formula_vars_older(#[trigger] query[i], 0),
    ensures
        forall|a: int, i: int|
            0 <= a < spec_all_answers(program, query).len() && 0 <= i < query.len() ==> derivable(
                program,
                spec_apply_formula(#[trigger] spec_all_answers(program, query)[a], #[trigger] query[i]),
            ),
        spec_first_answer(program, query) matches Some(sigma) ==> forall|i: int|
            0 <= i < query.len() ==> derivable(program, spec_apply_formula(sigma, #[trigger] query[i])),
{
    let empty = Seq::<(Seq<char>, STerm)>::empty();
    assert(bindings_older(empty, 0));
    lemma_derive_sound(query, empty, program, SEARCH_FUEL as nat, 0, false);
    lemma_derive_sound(query, empty, program, SEARCH_FUEL as nat, 0, true);
    let all = spec_derive(query, empty, program, SEARCH_FUEL as nat, 0, false).0;
    assert forall|a: int, i: int|
        0 <= a < spec_all_answers(program, query).len() && 0 <= i < query.len() implies derivable(
            program,
            spec_apply_formula(#[trigger] spec_all_answers(program, query)[a], #[trigger] query[i]),
        ) by {
        assert(answer_ok(program, query, empty, all[a]));
    }
    let firsts = spec_derive(query, empty, program, SEARCH_FUEL as nat, 0, true).0;
    if firsts.len() > 0 {
        assert(answer_ok(program, query, empty, firsts[0]));
    }
}

} // verus!
