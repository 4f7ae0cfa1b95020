//! Type checking of terms of the calculus: the type of a term in an
//! environment, with the unification constraints that refine implicit
//! types, the typing of patterns and of `match` expressions.
//!
//! Every function here leaves the environment as it found it: the
//! assumptions a binder makes are dropped again once its body is checked.

use vstd::prelude::*;
use std::collections::VecDeque;
use crate::cic::assoc::{spec_assoc, spec_keys};
use crate::cic::environment::{EnvModel, Environment};
use crate::cic::evaluation::lemma_args_smaller;
use crate::cic::model::{spec_application_args, spec_applied_function, spec_arg_types, spec_rename};
use crate::cic::reduction::{normalize_term, opt_term, spec_normalize, REDUCTION_FUEL};
use crate::cic::render::render_term;
use crate::cic::term::{copy_term, lemma_match_view, view_branches, view_named, view_seq, CicTerm, Term};
use crate::cic::unification::{
    apply_key_to, cic_so_unification, reports, solve_unifications_unnormalized, spec_apply_all, spec_unify, view_pairs,
    UnifyOutcome,
};
use crate::cic::utils::{application_args, get_applied_function, get_arg_types, substitute};
use crate::commons::unification::Substitution;
use crate::error::LofError;

verus! {

//########################### MODEL

/// The normal form of `t` in `e`, within the reduction bound.
pub open spec fn spec_norm(e: EnvModel, t: Term) -> Term {
    spec_normalize(e, t, REDUCTION_FUEL as nat)
}

/// Both sides of every constraint in normal form.
pub open spec fn normalize_pairs(e: EnvModel, q: Seq<(Term, Term)>) -> Seq<(Term, Term)> {
    q.map_values(|p: (Term, Term)| (spec_norm(e, p.0), spec_norm(e, p.1)))
}

/// Solving the constraints `q` once both sides of each are normalized in `e`.
pub open spec fn spec_solve(e: EnvModel, q: Seq<(Term, Term)>) -> UnifyOutcome {
    spec_unify(normalize_pairs(e, q))
}

/// Whether the normal forms of `a` and `b` unify.
pub open spec fn unifies(e: EnvModel, a: Term, b: Term) -> bool {
    spec_solve(e, seq![(a, b)]) is Unified
}

/// `e` with `x : ty` assumed.
pub open spec fn assuming(e: EnvModel, x: Seq<char>, ty: Term) -> EnvModel {
    e.with_context(e.context.push((x, ty)))
}

/// `e` with each of `xs` assumed, in order.
pub open spec fn assuming_all(e: EnvModel, xs: Seq<(Seq<char>, Term)>) -> EnvModel {
    e.with_context(e.context + xs)
}

/// `e` with `x` defined as `b` and assumed of type `ty`.
pub open spec fn define(e: EnvModel, x: Seq<char>, b: Term, ty: Term) -> EnvModel {
    e.with_deltas(e.deltas.push((x, b))).with_context(e.context.push((x, ty)))
}

/// `r` is the type or the constraints that `o` gives, or an error when `o` gives none.
pub open spec fn result_is<T: View>(r: Result<T, LofError>, o: Option<T::V>) -> bool {
    match o {
        Some(v) => r matches Ok(x) && x@ == v,
        None => r is Err,
    }
}

/// The type that a pattern built on a constructor of type `ty` has, reading
/// the arguments of `pattern` from the `i`-th on: each argument instantiates
/// the next dependent product. A metavariable argument must unify with the
/// domain; a nested pattern must have the domain's type (as far as
/// unification in `e` tells).
pub open spec fn spec_pattern_type(e: EnvModel, ty: Term, pattern: Term, i: nat) -> Option<Term>
    decreases pattern, spec_application_args(pattern).len() - i,
{
    let args = spec_application_args(pattern);
    if i >= args.len() {
        Some(ty)
    } else {
        match ty {
            Term::Prod(v, dom, cod) => {
                let a = args[i as int];
                let reduced = spec_rename(*cod, v, a);
                proof {
                    lemma_args_smaller(pattern, i as int);
                }
                match a {
                    Term::Var(_, _) => spec_pattern_type(e, reduced, pattern, i + 1),
                    Term::Meta(_) => if spec_unify(seq![(*dom, a)]) is Unified {
                        spec_pattern_type(e, reduced, pattern, i + 1)
                    } else {
                        None
                    },
                    Term::App(_, _) => match spec_applied_function(a) {
                        Term::Var(n, _) => match spec_assoc(e.context, n) {
                            Some(nt) => match spec_pattern_type(e, nt, a, 0) {
                                Some(nr) => if unifies(e, nr, *dom) {
                                    spec_pattern_type(e, reduced, pattern, i + 1)
                                } else {
                                    None
                                },
                                None => None,
                            },
                            None => None,
                        },
                        _ => None,
                    },
                    _ => None,
                }
            },
            _ => None,
        }
    }
}

/// The typed variables that a pattern built on a constructor of type `ty`
/// binds, reading its arguments from the `i`-th on: a variable argument
/// gets the domain it stands at, a nested pattern binds its own variables.
pub open spec fn spec_constr_vars(e: EnvModel, ty: Term, pattern: Term, i: nat) -> Option<Seq<(Seq<char>, Term)>>
    decreases pattern, spec_application_args(pattern).len() - i,
{
    let args = spec_application_args(pattern);
    if i >= args.len() {
        Some(Seq::empty())
    } else {
        match ty {
            Term::Prod(v, dom, cod) => {
                let a = args[i as int];
                let reduced = spec_rename(*cod, v, a);
                proof {
                    lemma_args_smaller(pattern, i as int);
                }
                match a {
                    Term::Var(name, _) => match spec_constr_vars(e, reduced, pattern, i + 1) {
                        Some(rest) => Some(seq![(name, *dom)] + rest),
                        None => None,
                    },
                    Term::Meta(_) => if spec_unify(seq![(*dom, a)]) is Unified {
                        spec_constr_vars(e, reduced, pattern, i + 1)
                    } else {
                        None
                    },
                    Term::App(_, _) => match spec_applied_function(a) {
                        Term::Var(n, _) => match spec_assoc(e.context, n) {
                            Some(nt) => match spec_constr_vars(e, nt, a, 0) {
                                Some(nested) => match spec_constr_vars(e, reduced, pattern, i + 1) {
                                    Some(rest) => Some(nested + rest),
                                    None => None,
                                },
                                None => None,
                            },
                            None => None,
                        },
                        _ => None,
                    },
                    _ => None,
                }
            },
            _ => None,
        }
    }
}

/// Whether the pattern `p` is headed by the constructor named `n`.
pub open spec fn headed_by(p: Term, n: Seq<char>) -> bool {
    spec_applied_function(p) matches Term::Var(x, _) && x == n
}

/// Every one of `names` heads the pattern of some branch of `bs`.
pub open spec fn covers(bs: Seq<(Term, Term)>, names: Seq<Seq<char>>) -> bool {
    forall|j: int| 0 <= j < names.len() ==> #[trigger] covered(bs, names[j])
}

/// Some branch of `bs` has its pattern headed by the constructor `n`.
pub open spec fn covered(bs: Seq<(Term, Term)>, n: Seq<char>) -> bool {
    exists|k: int| 0 <= k < bs.len() && #[trigger] headed_by(bs[k].0, n)
}

/// The type of `t` in `e`, `None` when `t` does not type check:
/// - a sort or a variable has the type the context assumes for its name;
///   a metavariable has type `TYPE`;
/// - `λx:A.b` needs `A` to be a type and `b` to have a type `B` under
///   `x : A`; the constraints collected in `A` and `b` are solved and their
///   solution put into `Πx:A.B`;
/// - `Πx:A.B` needs `A` to be a type and has the sort of `B` under `x : A`;
/// - `f a` needs `f` to have a product type (normalized when it is not one
///   as it stands) whose domain unifies with the type of `a`; its type is
///   the codomain with `a` for the bound name, under that unifier;
/// - `let x : T = b in s` needs `T` (the type of `b` when there is none) to
///   unify with the type of `b`, and has the type of `s` with `x` defined;
/// - a `match` is typed by [`spec_type_match`].
pub open spec fn spec_type_of(e: EnvModel, t: Term) -> Option<Term>
    decreases t, 2int, 0int,
{
    match t {
        Term::Sort(n) => spec_assoc(e.context, n),
        Term::Var(n, _) => spec_assoc(e.context, n),
        Term::Meta(_) => Some(Term::Sort("TYPE"@)),
        Term::Abs(x, a, b) => match spec_type_of(e, *a) {
            Some(Term::Sort(_)) => {
                let inner = assuming(e, x, *a);
                match spec_type_of(inner, *b) {
                    Some(bt) => match spec_collect(inner, *a) {
                        Some(c1) => match spec_collect(inner, *b) {
                            Some(c2) => match spec_solve(inner, c1 + c2) {
                                UnifyOutcome::Unified(s) => match spec_apply_all(*a, s) {
                                    Some(a2) => match spec_apply_all(bt, s) {
                                        Some(bt2) => Some(Term::Prod(x, Box::new(a2), Box::new(bt2))),
                                        None => None,
                                    },
                                    None => None,
                                },
                                _ => None,
                            },
                            None => None,
                        },
                        None => None,
                    },
                    None => None,
                }
            },
            _ => None,
        },
        Term::Prod(x, a, c) => match spec_type_of(e, *a) {
            Some(Term::Sort(_)) => match spec_type_of(assuming(e, x, *a), *c) {
                Some(Term::Sort(s)) => Some(Term::Sort(s)),
                _ => None,
            },
            _ => None,
        },
        Term::App(l, r) => match spec_type_of(e, *r) {
            Some(at) => match spec_type_of(e, *l) {
                Some(ft) => {
                    let ft2 = if ft is Prod {
                        ft
                    } else {
                        spec_norm(e, ft)
                    };
                    match ft2 {
                        Term::Prod(v, dom, cod) => match spec_solve(e, seq![(*dom, at)]) {
                            UnifyOutcome::Unified(s) => spec_apply_all(spec_rename(*cod, v, *r), s),
                            _ => None,
                        },
                        _ => None,
                    }
                },
                None => None,
            },
            None => None,
        },
        Term::Let(x, ty, b, s) => match spec_type_of(e, *b) {
            Some(bt) => {
                let vt = match ty {
                    Some(t0) => *t0,
                    None => bt,
                };
                if spec_unify(seq![(vt, bt)]) is Unified {
                    spec_type_of(define(e, x, *b, vt), *s)
                } else {
                    None
                }
            },
            None => None,
        },
        Term::Match(_, _) => spec_type_match(e, t),
    }
}

/// The type of the `match` term `t = match m { bs }` in `e`: `m` must have an inductive type
/// whose constructors are declared; each branch's pattern must be headed by
/// an assumed constructor, have a type that unifies with the type of `m`,
/// and its body, under the variables the pattern binds, a type that
/// unifies with the first branch's; every constructor must head a branch.
/// The type is the first branch's.
pub open spec fn spec_type_match(e: EnvModel, t: Term) -> Option<Term>
    recommends
        t is Match,
    decreases t, 1int, 0int,
{
    if !(t is Match) {
        None
    } else {
        let m = *t->Match_0;
        let bs = t->Match_1;
        proof {
            assert(decreases_to!(t => t->Match_0));
        }
        match spec_type_of(e, m) {
            Some(mt) => match spec_applied_function(mt) {
                Term::Var(name, _) => match spec_assoc(e.constructors, name) {
                    Some(cs) => match spec_branches_type(e, t, mt, 0, None) {
                        Some(Some(rt)) => if covers(bs, spec_keys(cs)) {
                            Some(rt)
                        } else {
                            None
                        },
                        _ => None,
                    },
                    None => None,
                },
                _ => None,
            },
            None => None,
        }
    }
}

/// The branches of the `match` term `t = match m { bs }` from the `k`-th on, against the type
/// `mt` of `m`, the type of the branches before them being `acc`.
pub open spec fn spec_branches_type(e: EnvModel, t: Term, mt: Term, k: nat, acc: Option<Term>) -> Option<Option<Term>>
    recommends
        t is Match,
    decreases t, 0int, t->Match_1.len() - k,
{
    let bs = t->Match_1;
    if !(t is Match) || k >= bs.len() {
        Some(acc)
    } else {
        let pattern = bs[k as int].0;
        let body = bs[k as int].1;
        match spec_applied_function(pattern) {
            Term::Var(cname, _) => match spec_assoc(e.context, cname) {
                Some(ct) => match spec_pattern_type(e, ct, pattern, 0) {
                    Some(pt) => if unifies(e, pt, mt) {
                        match spec_constr_vars(e, ct, pattern, 0) {
                            Some(vars) => {
                                proof {
                                    assert(decreases_to!(t => t->Match_1));
                                    assert(decreases_to!(bs => bs[k as int]));
                                }
                                match spec_type_of(assuming_all(e, vars), body) {
                                    Some(bt) => match acc {
                                        None => spec_branches_type(e, t, mt, k + 1, Some(bt)),
                                        Some(rt) => if unifies(e, rt, bt) {
                                            spec_branches_type(e, t, mt, k + 1, Some(rt))
                                        } else {
                                            None
                                        },
                                    },
                                    None => None,
                                }
                            },
                            None => None,
                        }
                    } else {
                        None
                    },
                    None => None,
                },
                None => None,
            },
            _ => None,
        }
    }
}

/// The unification constraints that refining the implicit types of `t`
/// in `e` calls for, left to right: in an application `f a`, the first
/// argument type of the type of `f` against the type of `a`. Binders
/// collect in their body under their assumption; the body of a `match`
/// branch is collected under the variables its pattern binds (none when
/// they cannot be found). `None` when a type on the way does not check.
pub open spec fn spec_collect(e: EnvModel, t: Term) -> Option<Seq<(Term, Term)>>
    decreases t, 1int, 0int,
{
    match t {
        Term::Abs(x, a, b) => match spec_collect(e, *a) {
            Some(c1) => match spec_collect(assuming(e, x, *a), *b) {
                Some(c2) => Some(c1 + c2),
                None => None,
            },
            None => None,
        },
        Term::Prod(x, a, b) => match spec_collect(e, *a) {
            Some(c1) => match spec_collect(assuming(e, x, *a), *b) {
                Some(c2) => Some(c1 + c2),
                None => None,
            },
            None => None,
        },
        Term::App(f, a) => match spec_collect(e, *f) {
            Some(fc) => match spec_collect(e, *a) {
                Some(ac) => match spec_type_of(e, *a) {
                    Some(at) => match spec_type_of(e, *f) {
                        Some(ft) => if spec_arg_types(ft).len() > 0 {
                            Some(fc + seq![(spec_arg_types(ft)[0], at)] + ac)
                        } else {
                            None
                        },
                        None => None,
                    },
                    None => None,
                },
                None => None,
            },
            None => None,
        },
        Term::Let(_, ty, b, s) => {
            let tc = match ty {
                Some(t0) => spec_collect(e, *t0),
                None => Some(Seq::empty()),
            };
            match tc {
                Some(c0) => match spec_collect(e, *b) {
                    Some(c1) => match spec_collect(e, *s) {
                        Some(c2) => Some(c0 + c1 + c2),
                        None => None,
                    },
                    None => None,
                },
                None => None,
            }
        },
        Term::Match(m, _) => match spec_collect(e, *m) {
            Some(mc) => match spec_collect_branches(e, t, 0) {
                Some(bc) => Some(mc + bc),
                None => None,
            },
            None => None,
        },
        _ => Some(Seq::empty()),
    }
}

/// The variables that the pattern `p` binds, when its head is an assumed
/// constructor and they can be found; none otherwise.
pub open spec fn pattern_assumptions(e: EnvModel, p: Term) -> Seq<(Seq<char>, Term)> {
    match spec_applied_function(p) {
        Term::Var(n, _) => match spec_assoc(e.context, n) {
            Some(ct) => match spec_constr_vars(e, ct, p, 0) {
                Some(vars) => vars,
                None => Seq::empty(),
            },
            None => Seq::empty(),
        },
        _ => Seq::empty(),
    }
}

/// The constraints of the branch bodies of the `match` term `t` from the `k`-th on.
pub open spec fn spec_collect_branches(e: EnvModel, t: Term, k: nat) -> Option<Seq<(Term, Term)>>
    recommends
        t is Match,
    decreases t, 0int, t->Match_1.len() - k,
{
    let bs = t->Match_1;
    if !(t is Match) || k >= bs.len() {
        Some(Seq::empty())
    } else {
        proof {
            assert(decreases_to!(t => t->Match_1));
            assert(decreases_to!(bs => bs[k as int]));
        }
        match spec_collect(assuming_all(e, pattern_assumptions(e, bs[k as int].0)), bs[k as int].1) {
            Some(c) => match spec_collect_branches(e, t, k + 1) {
                Some(rest) => Some(c + rest),
                None => None,
            },
            None => None,
        }
    }
}

//########################### HELPERS

/// Solves `constraints` once both sides of each are normalized in `environment`.
pub fn cic_solve_unifications(constraints: Vec<(CicTerm, CicTerm)>, environment: &Environment) -> (r: Result<
    Substitution,
    LofError,
>)
    ensures
        reports(r, spec_solve(environment@, view_pairs(constraints@))),
{
    let ghost q = view_pairs(constraints@);
    let mut reduced: VecDeque<(CicTerm, CicTerm)> = VecDeque::new();
    let mut i: usize = 0;
    while i < constraints.len()
        invariant
            i <= constraints@.len(),
            q == view_pairs(constraints@),
            view_pairs(reduced@) == normalize_pairs(environment@, q.subrange(0, i as int)),
        decreases constraints@.len() - i,
    {
        let left = normalize_term(environment, &constraints[i].0);
        let right = normalize_term(environment, &constraints[i].1);
        let ghost before = view_pairs(reduced@);
        reduced.push_back((left, right));
        proof {
            assert(view_pairs(reduced@) =~= before.push((left@, right@)));
            assert(normalize_pairs(environment@, q.subrange(0, i + 1)) =~= normalize_pairs(
                environment@,
                q.subrange(0, i as int),
            ).push((left@, right@)));
        }
        i = i + 1;
    }
    proof {
        assert(q.subrange(0, constraints@.len() as int) =~= q);
    }
    solve_unifications_unnormalized(reduced)
}

/// Whether the normal forms of `a` and `b` unify in `environment`.
pub fn terms_unify(environment: &Environment, a: &CicTerm, b: &CicTerm) -> (r: Result<(), LofError>)
    ensures
        r is Ok <==> unifies(environment@, a@, b@),
{
    let mut constraints: Vec<(CicTerm, CicTerm)> = Vec::new();
    constraints.push((copy_term(a), copy_term(b)));
    proof {
        assert(view_pairs(constraints@) =~= seq![(a@, b@)]);
    }
    match cic_solve_unifications(constraints, environment) {
        Ok(_) => Ok(()),
        Err(e) => Err(e),
    }
}

/// `exp` with the solutions of `substitution` put in, in order; `None`
/// when one of them cannot be (see [`spec_apply_all`]).
pub fn try_apply_unifier(exp: &CicTerm, substitution: &Substitution) -> (r: Option<CicTerm>)
    ensures
        opt_term(r) == spec_apply_all(exp@, substitution@),
{
    let mut solved = copy_term(exp);
    let n = substitution.len();
    let mut i: usize = 0;
    while i < n
        invariant
            n == substitution@.len(),
            i <= n,
            spec_apply_all(exp@, substitution@.subrange(0, i as int)) == Some(solved@),
        decreases n - i,
    {
        let ghost pre = substitution@.subrange(0, i + 1);
        proof {
            assert(pre.drop_last() =~= substitution@.subrange(0, i as int));
        }
        match apply_key_to(&solved, substitution.name_at(i).as_str(), substitution.value_at(i)) {
            Some(t) => {
                solved = t;
            },
            None => {
                proof {
                    lemma_apply_all_none_extends(exp@, substitution@, i + 1);
                }
                return None;
            },
        }
        i = i + 1;
    }
    proof {
        assert(substitution@.subrange(0, n as int) =~= substitution@);
    }
    Some(solved)
}

/// Once putting in a prefix of the solutions fails, putting in all of them fails.
proof fn lemma_apply_all_none_extends(t: Term, s: Seq<(Seq<char>, Term)>, k: int)
    requires
        0 <= k <= s.len(),
        spec_apply_all(t, s.subrange(0, k)) is None,
    ensures
        spec_apply_all(t, s) is None,
    decreases s.len() - k,
{
    if k == s.len() {
        assert(s.subrange(0, k) =~= s);
    } else {
        assert(s.drop_last().subrange(0, k) =~= s.subrange(0, k));
        lemma_apply_all_none_extends(t, s.drop_last(), k);
    }
}

/// The type of the constructor that heads `pattern`, when that head is an
/// assumed variable.
fn head_type(environment: &Environment, pattern: &CicTerm) -> (r: Option<CicTerm>)
    ensures
        opt_term(r) == match spec_applied_function(pattern@) {
            Term::Var(n, _) => spec_assoc(environment@.context, n),
            _ => None,
        },
{
    let head = get_applied_function(pattern);
    match &head {
        CicTerm::Variable(name, _) => environment.get_variable_type(name.as_str()),
        _ => None,
    }
}

/// The type of `pattern` given the type `constr_type` of its constructor
/// (see [`spec_pattern_type`]).
pub fn type_check_pattern(environment: &Environment, pattern: &CicTerm, constr_type: &CicTerm) -> (r: Result<
    CicTerm,
    LofError,
>)
    ensures
        result_is(r, spec_pattern_type(environment@, constr_type@, pattern@, 0)),
    decreases pattern@, spec_application_args(pattern@).len() + 1,
{
    let arguments = application_args(pattern);
    let ghost args = spec_application_args(pattern@);
    let ghost goal = spec_pattern_type(environment@, constr_type@, pattern@, 0);
    let mut ty = copy_term(constr_type);
    let mut i: usize = 0;
    while i < arguments.len()
        invariant
            view_seq(arguments@) == args,
            args == spec_application_args(pattern@),
            i <= args.len(),
            goal == spec_pattern_type(environment@, constr_type@, pattern@, 0),
            spec_pattern_type(environment@, ty@, pattern@, i as nat) == goal,
        decreases args.len() - i,
    {
        proof {
            lemma_args_smaller(pattern@, i as int);
            assert(arguments@[i as int]@ == args[i as int]);
        }
        let next = match &ty {
            CicTerm::Product(v, domain, codomain) => {
                let a = &arguments[i];
                let reduced = substitute(codomain, v.as_str(), a);
                match a {
                    CicTerm::Variable(_, _) => reduced,
                    CicTerm::Meta(_) => match cic_so_unification(domain, a) {
                        Ok(_) => reduced,
                        Err(e) => {
                            return Err(e);
                        },
                    },
                    CicTerm::Application(_, _) => match head_type(environment, a) {
                        Some(nested_type) => match type_check_pattern(environment, a, &nested_type) {
                            Ok(nested_result) => match terms_unify(environment, &nested_result, domain) {
                                Ok(()) => reduced,
                                Err(e) => {
                                    return Err(e);
                                },
                            },
                            Err(e) => {
                                return Err(e);
                            },
                        },
                        None => {
                            return Err(LofError::type_check_error(render_term(a).as_str()));
                        },
                    },
                    _ => {
                        return Err(LofError::type_check_error(render_term(a).as_str()));
                    },
                }
            },
            _ => {
                return Err(LofError::arity_mismatch("constructor pattern", 0, arguments.len()));
            },
        };
        ty = next;
        i = i + 1;
    }
    Ok(ty)
}

/// The typed variables that `pattern` binds given the type `constr_type` of
/// its constructor (see [`spec_constr_vars`]).
pub fn type_constr_vars(environment: &Environment, pattern: &CicTerm, constr_type: &CicTerm) -> (r: Result<
    Vec<(String, CicTerm)>,
    LofError,
>)
    ensures
        match spec_constr_vars(environment@, constr_type@, pattern@, 0) {
            Some(v) => r matches Ok(x) && view_named(x@) == v,
            None => r is Err,
        },
    decreases pattern@, spec_application_args(pattern@).len() + 1,
{
    let arguments = application_args(pattern);
    let ghost args = spec_application_args(pattern@);
    let ghost goal = spec_constr_vars(environment@, constr_type@, pattern@, 0);
    let mut ty = copy_term(constr_type);
    let mut found: Vec<(String, CicTerm)> = Vec::new();
    let mut i: usize = 0;
    while i < arguments.len()
        invariant
            view_seq(arguments@) == args,
            args == spec_application_args(pattern@),
            i <= args.len(),
            goal == spec_constr_vars(environment@, constr_type@, pattern@, 0),
            goal == match spec_constr_vars(environment@, ty@, pattern@, i as nat) {
                Some(rest) => Some(view_named(found@) + rest),
                None => None,
            },
        decreases args.len() - i,
    {
        proof {
            lemma_args_smaller(pattern@, i as int);
            assert(arguments@[i as int]@ == args[i as int]);
        }
        let ghost before = view_named(found@);
        let next = match &ty {
            CicTerm::Product(v, domain, codomain) => {
                let a = &arguments[i];
                let reduced = substitute(codomain, v.as_str(), a);
                match a {
                    CicTerm::Variable(name, _) => {
                        found.push((name.clone(), copy_term(domain)));
                        proof {
                            assert(view_named(found@) =~= before.push((name@, domain@)));
                            assert forall|rest: Seq<(Seq<char>, Term)>| before + (seq![(name@, domain@)] + rest) =~= before.push(
                                (name@, domain@),
                            ) + rest by {}
                        }
                        reduced
                    },
                    CicTerm::Meta(_) => match cic_so_unification(domain, a) {
                        Ok(_) => reduced,
                        Err(e) => {
                            return Err(e);
                        },
                    },
                    CicTerm::Application(_, _) => match head_type(environment, a) {
                        Some(nested_type) => match type_constr_vars(environment, a, &nested_type) {
                            Ok(nested) => {
                                let ghost nv = view_named(nested@);
                                let mut j: usize = 0;
                                while j < nested.len()
                                    invariant
                                        j <= nested@.len(),
                                        nv == view_named(nested@),
                                        view_named(found@) == before + nv.subrange(0, j as int),
                                    decreases nested@.len() - j,
                                {
                                    let ghost f0 = view_named(found@);
                                    found.push((nested[j].0.clone(), copy_term(&nested[j].1)));
                                    proof {
                                        assert(view_named(found@) =~= f0.push(nv[j as int]));
                                        assert(before + nv.subrange(0, j + 1) =~= (before + nv.subrange(0, j as int)).push(
                                            nv[j as int],
                                        ));
                                    }
                                    j = j + 1;
                                }
                                proof {
                                    assert(nv.subrange(0, nested@.len() as int) =~= nv);
                                    assert forall|rest: Seq<(Seq<char>, Term)>| before + (nv + rest) =~= (before + nv)
                                        + rest by {}
                                }
                                reduced
                            },
                            Err(e) => {
                                return Err(e);
                            },
                        },
                        None => {
                            return Err(LofError::type_check_error(render_term(a).as_str()));
                        },
                    },
                    _ => {
                        return Err(LofError::type_check_error(render_term(a).as_str()));
                    },
                }
            },
            _ => {
                return Err(LofError::arity_mismatch("constructor pattern", 0, arguments.len()));
            },
        };
        ty = next;
        i = i + 1;
    }
    proof {
        assert(view_named(found@) + Seq::<(Seq<char>, Term)>::empty() =~= view_named(found@));
    }
    Ok(found)
}

//########################### SCOPES

/// Concatenation of two lists of constraints.
fn join_pairs(a: Vec<(CicTerm, CicTerm)>, b: Vec<(CicTerm, CicTerm)>) -> (r: Vec<(CicTerm, CicTerm)>)
    ensures
        view_pairs(r@) == view_pairs(a@) + view_pairs(b@),
{
    let mut a = a;
    let mut b = b;
    let ghost va = a@;
    let ghost vb = b@;
    a.append(&mut b);
    proof {
        assert(view_pairs(a@) =~= view_pairs(va) + view_pairs(vb));
    }
    a
}

/// Assumes each of `xs`, in order.
pub(crate) fn push_assumptions(environment: &mut Environment, xs: &Vec<(String, CicTerm)>)
    ensures
        final(environment)@ == assuming_all(old(environment)@, view_named(xs@)),
{
    let ghost base = environment@;
    let ghost added = view_named(xs@);
    let mut i: usize = 0;
    while i < xs.len()
        invariant
            i <= xs@.len(),
            added == view_named(xs@),
            environment@ == assuming_all(base, added.subrange(0, i as int)),
        decreases xs@.len() - i,
    {
        environment.add_to_context(xs[i].0.as_str(), &xs[i].1);
        proof {
            assert(base.context + added.subrange(0, i + 1) =~= (base.context + added.subrange(0, i as int)).push(
                added[i as int],
            ));
        }
        i = i + 1;
    }
    proof {
        assert(added.subrange(0, xs@.len() as int) =~= added);
    }
}

/// Drops the assumptions of `xs`, the last one first, bringing back `base`.
pub(crate) fn pop_assumptions(environment: &mut Environment, xs: &Vec<(String, CicTerm)>, Ghost(base): Ghost<EnvModel>)
    requires
        old(environment)@ == assuming_all(base, view_named(xs@)),
    ensures
        final(environment)@ == base,
{
    let ghost added = view_named(xs@);
    let mut j: usize = xs.len();
    proof {
        assert(added.subrange(0, j as int) =~= added);
    }
    while j > 0
        invariant
            j <= xs@.len(),
            added == view_named(xs@),
            environment@ == assuming_all(base, added.subrange(0, j as int)),
        decreases j,
    {
        let ghost c = base.context + added.subrange(0, j as int);
        proof {
            assert(c.last() == added[j - 1]);
            assert(c.drop_last() =~= base.context + added.subrange(0, j - 1));
        }
        environment.remove_from_context(xs[j - 1].0.as_str());
        j = j - 1;
    }
    proof {
        assert(base.context + added.subrange(0, 0) =~= base.context);
    }
}

//########################### TYPE CHECKING

/// The type of `term` in `environment` (see [`spec_type_of`]); the
/// environment is left as it was.
pub fn type_check_term(term: &CicTerm, environment: &mut Environment) -> (r: Result<CicTerm, LofError>)
    ensures
        final(environment)@ == old(environment)@,
        result_is(r, spec_type_of(old(environment)@, term@)),
    decreases term@, 2int, 0int,
{
    match term {
        CicTerm::Sort(name) => match environment.get_variable_type(name.as_str()) {
            Some(t) => Ok(t),
            None => Err(LofError::unbound_variable(name.as_str())),
        },
        CicTerm::Variable(name, _) => match environment.get_variable_type(name.as_str()) {
            Some(t) => Ok(t),
            None => Err(LofError::unbound_variable(name.as_str())),
        },
        CicTerm::Meta(_) => Ok(CicTerm::Sort(String::from_str("TYPE"))),
        CicTerm::Abstraction(x, a, b) => {
            match type_check_term(a, environment) {
                Ok(CicTerm::Sort(_)) => {},
                Ok(_) => {
                    return Err(LofError::type_check_error(render_term(a).as_str()));
                },
                Err(e) => {
                    return Err(e);
                },
            }
            let ghost base = environment@;
            environment.add_to_context(x.as_str(), a);
            let ghost inner = environment@;
            let res: Result<CicTerm, LofError> = match type_check_term(b, environment) {
                Ok(bt) => match cic_collect_unifications(a, environment) {
                    Ok(c1) => match cic_collect_unifications(b, environment) {
                        Ok(c2) => {
                            let constraints = join_pairs(c1, c2);
                            match cic_solve_unifications(constraints, environment) {
                                Ok(s) => match try_apply_unifier(a, &s) {
                                    Some(a2) => match try_apply_unifier(&bt, &s) {
                                        Some(bt2) => Ok(CicTerm::Product(x.clone(), Box::new(a2), Box::new(bt2))),
                                        None => Err(LofError::type_check_error(render_term(&bt).as_str())),
                                    },
                                    None => Err(LofError::type_check_error(render_term(a).as_str())),
                                },
                                Err(e) => Err(e),
                            }
                        },
                        Err(e) => Err(e),
                    },
                    Err(e) => Err(e),
                },
                Err(e) => Err(e),
            };
            environment.remove_from_context(x.as_str());
            proof {
                assert(inner.context.drop_last() =~= base.context);
            }
            res
        },
        CicTerm::Product(x, a, c) => {
            match type_check_term(a, environment) {
                Ok(CicTerm::Sort(_)) => {},
                Ok(_) => {
                    return Err(LofError::type_check_error(render_term(a).as_str()));
                },
                Err(e) => {
                    return Err(e);
                },
            }
            let ghost base = environment@;
            environment.add_to_context(x.as_str(), a);
            let ghost inner = environment@;
            let res = type_check_term(c, environment);
            environment.remove_from_context(x.as_str());
            proof {
                assert(inner.context.drop_last() =~= base.context);
            }
            match res {
                Ok(CicTerm::Sort(sort)) => Ok(CicTerm::Sort(sort)),
                Ok(_) => Err(LofError::type_check_error(render_term(c).as_str())),
                Err(e) => Err(e),
            }
        },
        CicTerm::Application(l, r) => {
            let at = match type_check_term(r, environment) {
                Ok(t) => t,
                Err(e) => {
                    return Err(e);
                },
            };
            let ft = match type_check_term(l, environment) {
                Ok(t) => t,
                Err(e) => {
                    return Err(e);
                },
            };
            let ft2 = match &ft {
                CicTerm::Product(_, _, _) => ft,
                _ => normalize_term(environment, &ft),
            };
            match &ft2 {
                CicTerm::Product(v, dom, cod) => {
                    let mut constraints: Vec<(CicTerm, CicTerm)> = Vec::new();
                    constraints.push((copy_term(dom), at));
                    proof {
                        assert(view_pairs(constraints@) =~= seq![(dom@, at@)]);
                    }
                    match cic_solve_unifications(constraints, environment) {
                        Ok(s) => {
                            let codomain = substitute(cod, v.as_str(), r);
                            match try_apply_unifier(&codomain, &s) {
                                Some(t) => Ok(t),
                                None => Err(LofError::type_check_error(render_term(&codomain).as_str())),
                            }
                        },
                        Err(e) => Err(e),
                    }
                },
                _ => Err(LofError::type_check_error(render_term(&ft2).as_str())),
            }
        },
        CicTerm::Let(x, ty, b, s) => {
            let bt = match type_check_term(b, environment) {
                Ok(t) => t,
                Err(e) => {
                    return Err(e);
                },
            };
            let vt = match &**ty {
                Some(t0) => copy_term(t0),
                None => copy_term(&bt),
            };
            match cic_so_unification(&vt, &bt) {
                Ok(_) => {},
                Err(e) => {
                    return Err(e);
                },
            }
            let ghost base = environment@;
            environment.add_substitution_with_type(x.as_str(), b, &vt);
            let ghost inner = environment@;
            let res = type_check_term(s, environment);
            environment.remove_from_context(x.as_str());
            environment.remove_substitution(x.as_str());
            proof {
                assert(inner.context.drop_last() =~= base.context);
                assert(inner.deltas.drop_last() =~= base.deltas);
            }
            res
        },
        CicTerm::Match(m, bs) => {
            proof {
                lemma_match_view(**m, *bs);
            }
            type_check_match(environment, m, bs)
        },
    }
}

/// Checks that `typee` is a type: its own type is a sort, which is returned.
pub fn type_check_type(typee: &CicTerm, environment: &mut Environment) -> (r: Result<CicTerm, LofError>)
    ensures
        final(environment)@ == old(environment)@,
        result_is(
            r,
            match spec_type_of(old(environment)@, typee@) {
                Some(Term::Sort(s)) => Some(Term::Sort(s)),
                _ => None,
            },
        ),
{
    match type_check_term(typee, environment) {
        Ok(CicTerm::Sort(s)) => Ok(CicTerm::Sort(s)),
        Ok(_) => Err(LofError::type_check_error(render_term(typee).as_str())),
        Err(e) => Err(e),
    }
}

/// Whether every one of `names` heads the pattern of some branch.
fn covers_all(branches: &Vec<(CicTerm, CicTerm)>, names: &Vec<String>) -> (r: bool)
    ensures
        r == covers(view_branches(branches@), names@.map_values(|x: String| x@)),
{
    let ghost bs = view_branches(branches@);
    let ghost ns = names@.map_values(|x: String| x@);
    let mut j: usize = 0;
    while j < names.len()
        invariant
            j <= names@.len(),
            bs == view_branches(branches@),
            ns == names@.map_values(|x: String| x@),
            forall|i: int| 0 <= i < j ==> #[trigger] covered(bs, ns[i]),
        decreases names@.len() - j,
    {
        let mut found = false;
        let mut k: usize = 0;
        while k < branches.len()
            invariant
                k <= branches@.len(),
                j < names@.len(),
                bs == view_branches(branches@),
                ns == names@.map_values(|x: String| x@),
                found ==> covered(bs, ns[j as int]),
                !found ==> forall|i: int| 0 <= i < k ==> !#[trigger] headed_by(bs[i].0, ns[j as int]),
            decreases branches@.len() - k,
        {
            let head = get_applied_function(&branches[k].0);
            proof {
                assert(bs[k as int].0 == branches@[k as int].0@);
            }
            match &head {
                CicTerm::Variable(x, _) => {
                    if crate::text::str_eq(x.as_str(), names[j].as_str()) {
                        assert(headed_by(bs[k as int].0, ns[j as int]));
                        found = true;
                    }
                },
                _ => {},
            }
            k = k + 1;
        }
        if !found {
            proof {
                assert(!covered(bs, ns[j as int]));
            }
            return false;
        }
        j = j + 1;
    }
    true
}

/// The type of `match matched_term { branches }` in `environment` (see
/// [`spec_type_match`]); the environment is left as it was.
#[verifier::rlimit(40)]
pub fn type_check_match(environment: &mut Environment, matched_term: &CicTerm, branches: &Vec<(CicTerm, CicTerm)>) -> (r:
    Result<CicTerm, LofError>)
    ensures
        final(environment)@ == old(environment)@,
        result_is(r, spec_type_match(old(environment)@, Term::Match(Box::new(matched_term@), view_branches(branches@)))),
    decreases Term::Match(Box::new(matched_term@), view_branches(branches@)), 1int, 0int,
{
    let ghost t = Term::Match(Box::new(matched_term@), view_branches(branches@));
    let ghost e0 = environment@;
    proof {
        assert(decreases_to!(t => t->Match_0));
    }
    let mt = match type_check_term(matched_term, environment) {
        Ok(x) => x,
        Err(e) => {
            return Err(e);
        },
    };
    let head = get_applied_function(&mt);
    let name = match &head {
        CicTerm::Variable(n, _) => n,
        _ => {
            return Err(LofError::type_check_error(render_term(&head).as_str()));
        },
    };
    let ctor_names = match environment.get_constructors_for(name.as_str()) {
        Some(v) => v,
        None => {
            return Err(LofError::type_check_error(name.as_str()));
        },
    };
    let ghost goal = spec_branches_type(e0, t, mt@, 0, None);
    let ghost names = ctor_names@.map_values(|x: String| x@);
    proof {
        assert(spec_type_match(e0, t) == match goal {
            Some(Some(rt)) => if covers(view_branches(branches@), names) {
                Some(rt)
            } else {
                None
            },
            _ => None,
        });
    }
    let mut acc: Option<CicTerm> = None;
    let mut k: usize = 0;
    while k < branches.len()
        invariant
            k <= branches@.len(),
            environment@ == e0,
            e0 == old(environment)@,
            names == ctor_names@.map_values(|x: String| x@),
            spec_type_match(e0, t) == match goal {
                Some(Some(rt)) => if covers(view_branches(branches@), names) {
                    Some(rt)
                } else {
                    None
                },
                _ => None,
            },
            t == Term::Match(Box::new(matched_term@), view_branches(branches@)),
            goal == spec_branches_type(e0, t, mt@, 0, None),
            spec_branches_type(e0, t, mt@, k as nat, opt_term(acc)) == goal,
        decreases branches@.len() - k,
    {
        let pattern = &branches[k].0;
        let body = &branches[k].1;
        proof {
            assert(t->Match_1[k as int] == (pattern@, body@));
            assert(decreases_to!(t => t->Match_1));
            assert(decreases_to!(t->Match_1 => t->Match_1[k as int]));
            assert(decreases_to!(t->Match_1[k as int] => t->Match_1[k as int].1));
        }
        let ct = match head_type(environment, pattern) {
            Some(c) => c,
            None => {
                return Err(LofError::type_check_error(render_term(pattern).as_str()));
            },
        };
        let pt = match type_check_pattern(environment, pattern, &ct) {
            Ok(x) => x,
            Err(e) => {
                return Err(e);
            },
        };
        match terms_unify(environment, &pt, &mt) {
            Ok(()) => {},
            Err(e) => {
                return Err(e);
            },
        }
        let vars = match type_constr_vars(environment, pattern, &ct) {
            Ok(v) => v,
            Err(e) => {
                return Err(e);
            },
        };
        push_assumptions(environment, &vars);
        let bt = type_check_term(body, environment);
        pop_assumptions(environment, &vars, Ghost(e0));
        let bt = match bt {
            Ok(x) => x,
            Err(e) => {
                return Err(e);
            },
        };
        acc = match acc {
            None => Some(bt),
            Some(rt) => match terms_unify(environment, &rt, &bt) {
                Ok(()) => Some(rt),
                Err(e) => {
                    return Err(e);
                },
            },
        };
        k = k + 1;
    }
    let rt = match acc {
        Some(x) => x,
        None => {
            return Err(LofError::type_check_error(render_term(matched_term).as_str()));
        },
    };
    if !covers_all(branches, &ctor_names) {
        return Err(LofError::type_check_error(name.as_str()));
    }
    Ok(rt)
}

/// The unification constraints of `term` in `environment` (see
/// [`spec_collect`]); the environment is left as it was.
#[verifier::rlimit(40)]
pub fn cic_collect_unifications(term: &CicTerm, environment: &mut Environment) -> (r: Result<
    Vec<(CicTerm, CicTerm)>,
    LofError,
>)
    ensures
        final(environment)@ == old(environment)@,
        match spec_collect(old(environment)@, term@) {
            Some(c) => r matches Ok(v) && view_pairs(v@) == c,
            None => r is Err,
        },
    decreases term@, 1int, 0int,
{
    match term {
        CicTerm::Abstraction(x, a, b) | CicTerm::Product(x, a, b) => {
            let c1 = match cic_collect_unifications(a, environment) {
                Ok(c) => c,
                Err(e) => {
                    return Err(e);
                },
            };
            let ghost base = environment@;
            environment.add_to_context(x.as_str(), a);
            let ghost inner = environment@;
            let c2 = cic_collect_unifications(b, environment);
            environment.remove_from_context(x.as_str());
            proof {
                assert(inner.context.drop_last() =~= base.context);
            }
            match c2 {
                Ok(c2) => Ok(join_pairs(c1, c2)),
                Err(e) => Err(e),
            }
        },
        CicTerm::Application(f, a) => {
            let fc = match cic_collect_unifications(f, environment) {
                Ok(c) => c,
                Err(e) => {
                    return Err(e);
                },
            };
            let ac = match cic_collect_unifications(a, environment) {
                Ok(c) => c,
                Err(e) => {
                    return Err(e);
                },
            };
            let at = match type_check_term(a, environment) {
                Ok(t) => t,
                Err(e) => {
                    return Err(e);
                },
            };
            let ft = match type_check_term(f, environment) {
                Ok(t) => t,
                Err(e) => {
                    return Err(e);
                },
            };
            let arg_types = get_arg_types(&ft);
            if arg_types.len() == 0 {
                return Err(LofError::type_check_error(render_term(&ft).as_str()));
            }
            proof {
                assert(view_seq(arg_types@)[0] == arg_types@[0]@);
            }
            let mut middle: Vec<(CicTerm, CicTerm)> = Vec::new();
            middle.push((copy_term(&arg_types[0]), at));
            proof {
                assert(view_pairs(middle@) =~= seq![(spec_arg_types(ft@)[0], at@)]);
            }
            Ok(join_pairs(join_pairs(fc, middle), ac))
        },
        CicTerm::Let(_, ty, b, s) => {
            let c0 = match &**ty {
                Some(t0) => match cic_collect_unifications(t0, environment) {
                    Ok(c) => c,
                    Err(e) => {
                        return Err(e);
                    },
                },
                None => {
                    let v: Vec<(CicTerm, CicTerm)> = Vec::new();
                    proof {
                        assert(view_pairs(v@) =~= Seq::<(Term, Term)>::empty());
                    }
                    v
                },
            };
            let c1 = match cic_collect_unifications(b, environment) {
                Ok(c) => c,
                Err(e) => {
                    return Err(e);
                },
            };
            let c2 = match cic_collect_unifications(s, environment) {
                Ok(c) => c,
                Err(e) => {
                    return Err(e);
                },
            };
            Ok(join_pairs(join_pairs(c0, c1), c2))
        },
        CicTerm::Match(m, branches) => {
            proof {
                lemma_match_view(**m, *branches);
            }
            let ghost t = term@;
            let ghost e0 = environment@;
            let mc = match cic_collect_unifications(m, environment) {
                Ok(c) => c,
                Err(e) => {
                    return Err(e);
                },
            };
            let ghost goal = spec_collect_branches(e0, t, 0);
            let mut collected: Vec<(CicTerm, CicTerm)> = Vec::new();
            let mut k: usize = 0;
            proof {
                assert(view_pairs(collected@) =~= Seq::<(Term, Term)>::empty());
            }
            while k < branches.len()
                invariant
                    k <= branches@.len(),
                    environment@ == e0,
                    e0 == old(environment)@,
                    spec_collect(e0, t) == match goal {
                        Some(bc) => Some(view_pairs(mc@) + bc),
                        None => None,
                    },
                    t == term@,
                    t == Term::Match(Box::new(m@), view_branches(branches@)),
                    goal == spec_collect_branches(e0, t, 0),
                    goal == match spec_collect_branches(e0, t, k as nat) {
                        Some(rest) => Some(view_pairs(collected@) + rest),
                        None => None,
                    },
                decreases branches@.len() - k,
            {
                let pattern = &branches[k].0;
                let body = &branches[k].1;
                proof {
                    assert(t->Match_1[k as int] == (pattern@, body@));
                    assert(decreases_to!(t => t->Match_1));
                    assert(decreases_to!(t->Match_1 => t->Match_1[k as int]));
                    assert(decreases_to!(t->Match_1[k as int] => t->Match_1[k as int].1));
                }
                let vars = match head_type(environment, pattern) {
                    Some(ct) => match type_constr_vars(environment, pattern, &ct) {
                        Ok(v) => v,
                        Err(_) => Vec::new(),
                    },
                    None => Vec::new(),
                };
                proof {
                    assert(view_named(vars@) =~= pattern_assumptions(e0, pattern@));
                }
                push_assumptions(environment, &vars);
                let bc = cic_collect_unifications(body, environment);
                pop_assumptions(environment, &vars, Ghost(e0));
                let bc = match bc {
                    Ok(c) => c,
                    Err(e) => {
                        return Err(e);
                    },
                };
                let ghost before = view_pairs(collected@);
                collected = join_pairs(collected, bc);
                proof {
                    assert forall|rest: Seq<(Term, Term)>| before + (view_pairs(bc@) + rest) =~= (before + view_pairs(
                        bc@,
                    )) + rest by {}
                }
                k = k + 1;
            }
            proof {
                assert(view_pairs(collected@) + Seq::<(Term, Term)>::empty() =~= view_pairs(collected@));
            }
            Ok(join_pairs(mc, collected))
        },
        _ => {
            let v: Vec<(CicTerm, CicTerm)> = Vec::new();
            proof {
                assert(view_pairs(v@) =~= Seq::<(Term, Term)>::empty());
            }
            Ok(v)
        },
    }
}

} // verus!
