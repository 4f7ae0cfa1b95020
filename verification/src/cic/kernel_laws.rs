//! Laws of the kernel: what typing, elaboration, theorem checking,
//! reduction and eliminator generation promise of their results.

use vstd::prelude::*;
use crate::cic::assoc::spec_assoc;
use crate::cic::eliminator::{placeholder, placeholder_vars, spec_case, spec_split};
use crate::cic::environment::EnvModel;
use crate::cic::evaluation::spec_iota;
use crate::cic::kernel::spec_check_stm;
use crate::cic::model::{
    spec_application_args, spec_applied_function, spec_apply_args, spec_arg_types, spec_multiarg_fun_type,
    spec_prod_innermost,
};
use crate::cic::reduction::{spec_beta, spec_normalize, spec_step};
use crate::cic::statements::{spec_elab_stm, spec_elab_telescope, view_typed};
use crate::cic::tactics::spec_interactive_proof;
use crate::cic::term::{Stm, Term};
use crate::cic::type_check::{assuming, spec_type_of, unifies};
use crate::cic::unification::spec_unify;
use crate::parser::api::{Expr, Expression, Statement, Tac, Union};

verus! {

//########################### TYPING

/// A product `Πx:A.B` has exactly the sort that `B` has once `x : A` is
/// assumed, whatever the sort of `A`.
pub proof fn law_product_has_the_sort_of_its_codomain(e: EnvModel, x: Seq<char>, a: Term, b: Term)
    requires
        spec_type_of(e, Term::Prod(x, Box::new(a), Box::new(b))) is Some,
    ensures
        spec_type_of(e, Term::Prod(x, Box::new(a), Box::new(b))) == spec_type_of(assuming(e, x, a), b),
        spec_type_of(assuming(e, x, a), b) matches Some(Term::Sort(_)),
        spec_type_of(e, a) matches Some(Term::Sort(_)),
{
}

/// A variable or a sort has the type the context assumes for its name,
/// and none when the context assumes nothing of it.
pub proof fn law_names_have_their_assumed_type(e: EnvModel, n: Seq<char>, k: crate::cic::term::NameKind)
    ensures
        spec_type_of(e, Term::Var(n, k)) == spec_assoc(e.context, n),
        spec_type_of(e, Term::Sort(n)) == spec_assoc(e.context, n),
{
}

/// An abstraction `λx:A.b` that type checks has a product type over the
/// same name, and `A` is a type.
pub proof fn law_abstraction_has_a_product_type(e: EnvModel, x: Seq<char>, a: Term, b: Term)
    requires
        spec_type_of(e, Term::Abs(x, Box::new(a), Box::new(b))) is Some,
    ensures
        spec_type_of(e, Term::Abs(x, Box::new(a), Box::new(b))) matches Some(Term::Prod(y, _, _)) && y == x,
        spec_type_of(e, a) matches Some(Term::Sort(_)),
        spec_type_of(assuming(e, x, a), b) is Some,
{
}

//########################### STATEMENTS

/// A global definition with a stated type is accepted only when the type of
/// its body unifies with that type; the name is then assumed of that type
/// and defined as the body.
pub proof fn law_accepted_global_is_well_typed(e: EnvModel, n: Seq<char>, t: Term, b: Term)
    requires
        spec_check_stm(e, Stm::Global(n, Some(t), b)) is Some,
    ensures
        spec_type_of(e, b) matches Some(bt) && spec_unify(seq![(t, bt)]) is Unified,
        spec_type_of(e, t) matches Some(Term::Sort(_)),
        spec_assoc(spec_check_stm(e, Stm::Global(n, Some(t), b))->Some_0.1.context, n) == Some(t),
        spec_assoc(spec_check_stm(e, Stm::Global(n, Some(t), b))->Some_0.1.deltas, n) == Some(b),
{
}

/// A function is accepted only when its body, with its arguments assumed
/// (and itself, when it is recursive), has a type that unifies with its
/// output type; the name is then assumed of the function type.
pub proof fn law_accepted_function_is_well_typed(
    e: EnvModel,
    n: Seq<char>,
    args: Seq<(Seq<char>, Term)>,
    out: Term,
    body: Term,
    is_rec: bool,
)
    requires
        spec_check_stm(e, Stm::Fun(n, args, out, body, is_rec)) is Some,
    ensures
        ({
            let ft = spec_multiarg_fun_type(args, out);
            let assumed = if is_rec {
                args.push((n, ft))
            } else {
                args
            };
            &&& spec_type_of(crate::cic::type_check::assuming_all(e, assumed), body) matches Some(bt) && spec_unify(
                seq![(out, bt)],
            ) is Unified
            &&& spec_assoc(spec_check_stm(e, Stm::Fun(n, args, out, body, is_rec))->Some_0.1.context, n) == Some(ft)
        }),
{
}

//########################### THEOREMS

/// A theorem with a proof term is accepted only when the type of the proof
/// term unifies with the theorem's formula, which must be a type: a proof
/// of another proposition is refused.
pub proof fn law_accepted_proof_term_proves_the_formula(e: EnvModel, n: Seq<char>, f: Term, p: Term)
    requires
        spec_check_stm(e, Stm::Theorem(n, f, Union::L(p))) is Some,
    ensures
        spec_type_of(e, p) matches Some(pt) && unifies(e, pt, f),
        spec_type_of(e, f) matches Some(Term::Sort(_)),
        spec_check_stm(e, Stm::Theorem(n, f, Union::L(p)))->Some_0.0 == f,
        spec_assoc(spec_check_stm(e, Stm::Theorem(n, f, Union::L(p)))->Some_0.1.context, n) == Some(f),
{
}

/// A theorem with a tactic proof is accepted only when its tactics build a
/// complete proof term that type checks.
pub proof fn law_accepted_tactic_proof_builds_a_proof(e: EnvModel, n: Seq<char>, f: Term, ts: Seq<Tac<Term>>)
    requires
        spec_check_stm(e, Stm::Theorem(n, f, Union::R(ts))) is Some,
    ensures
        spec_interactive_proof(e, ts, f) matches Some(pf) && spec_type_of(e, pf) is Some,
        spec_type_of(e, f) matches Some(Term::Sort(_)),
{
}

//########################### ELABORATION

/// The names of an elaborated telescope are those of its arguments, in order.
proof fn lemma_telescope_names(args: Seq<(Seq<char>, Expr)>, c: int)
    ensures
        spec_elab_telescope(args, c).len() == args.len(),
        forall|i: int| 0 <= i < args.len() ==> (#[trigger] spec_elab_telescope(args, c)[i]).0 == args[i].0,
    decreases args.len(),
{
    if args.len() > 0 {
        lemma_telescope_names(args.drop_last(), c);
    }
}

/// Elaborating a function keeps its name, the names of its arguments and
/// whether it is recursive: the elaborated function is recursive exactly
/// when the parsed one is.
pub proof fn law_elaborated_function_keeps_its_shape(
    name: String,
    args: Vec<(String, Expression)>,
    out: Box<Expression>,
    body: Box<Expression>,
    is_rec: bool,
    c: int,
)
    ensures
        spec_elab_stm(Statement::Fun(name, args, out, body, is_rec), c) matches Some(
            Stm::Fun(n, elab_args, _, _, rec),
        ) && n == name@ && rec == is_rec && elab_args.len() == args@.len() && forall|i: int|
            0 <= i < args@.len() ==> (#[trigger] elab_args[i]).0 == args@[i].0@,
{
    lemma_telescope_names(view_typed(args@), c);
}

/// Elaborating a statement of the calculus keeps its kind and its name:
/// an axiom stays an axiom, a definition a definition, an inductive type an
/// inductive type with as many constructors, named the same.
pub proof fn law_elaboration_keeps_kinds_and_names(s: Statement, c: int)
    ensures
        s matches Statement::Axiom(n, _) ==> spec_elab_stm(s, c) matches Some(Stm::Axiom(m, _)) && m == n@,
        s matches Statement::Global(n, _, _) ==> spec_elab_stm(s, c) matches Some(Stm::Global(m, _, _)) && m == n@,
        s matches Statement::Theorem(n, _, _) ==> spec_elab_stm(s, c) matches Some(Stm::Theorem(m, _, _)) && m == n@,
        s matches Statement::Inductive(n, _, _, ctors) ==> spec_elab_stm(s, c) matches Some(
            Stm::InductiveDef(m, _, _, cs),
        ) && m == n@ && cs.len() == ctors@.len() && forall|i: int|
            0 <= i < ctors@.len() ==> (#[trigger] cs[i]).0 == ctors@[i].0@,
{
    if let Statement::Inductive(n, params, ariety, ctors) = s {
        lemma_named_names(view_typed(ctors@), crate::cic::statements::typed_names(view_typed(params@)), c + crate::cic::statements::metas_typed(view_typed(params@)) + crate::cic::elaboration::metas(ariety@));
    }
}

/// The names of elaborated named expressions are theirs, in order.
proof fn lemma_named_names(items: Seq<(Seq<char>, Expr)>, store: Seq<Seq<char>>, c: int)
    ensures
        crate::cic::statements::spec_elab_named(items, store, c).len() == items.len(),
        forall|i: int| 0 <= i < items.len() ==> (#[trigger] crate::cic::statements::spec_elab_named(items, store, c)[i]).0 == items[i].0,
    decreases items.len(),
{
    if items.len() > 0 {
        lemma_named_names(items.drop_last(), store, c);
    }
}

//########################### REDUCTION

/// What a term that a reduction step leaves unchanged is made of: no
/// variable that unfolds to something else, and, along application spines,
/// products and abstractions, only parts that are themselves stuck (an
/// application that is a redex is not looked into).
pub open spec fn stuck(e: EnvModel, t: Term, fuel: nat) -> bool
    decreases t,
{
    match t {
        Term::Var(n, _) => match spec_assoc(e.deltas, n) {
            Some(d) => d == t,
            None => true,
        },
        Term::App(l, r) => if spec_iota(e, t) is Some || spec_beta(*l, *r) is Some || spec_beta(
            spec_step(e, *l, fuel),
            *r,
        ) is Some {
            true
        } else {
            stuck(e, *l, fuel) && stuck(e, *r, fuel)
        },
        Term::Prod(_, d, c) => stuck(e, *d, fuel) && stuck(e, *c, fuel),
        Term::Abs(_, d, c) => stuck(e, *d, fuel) && stuck(e, *c, fuel),
        _ => true,
    }
}

/// A term that a reduction step leaves unchanged is stuck: in particular
/// the function and the argument of every application in it that is no
/// redex are irreducible, and no defined constant is left to unfold.
pub proof fn law_fixpoints_are_stuck(e: EnvModel, t: Term, fuel: nat)
    requires
        spec_step(e, t, fuel) == t,
    ensures
        stuck(e, t, fuel),
    decreases t,
{
    match t {
        Term::App(l, r) => {
            if !(spec_iota(e, t) is Some || spec_beta(*l, *r) is Some || spec_beta(spec_step(e, *l, fuel), *r) is Some) {
                law_fixpoints_are_stuck(e, *l, fuel);
                law_fixpoints_are_stuck(e, *r, fuel);
            }
        },
        Term::Prod(_, d, c) => {
            law_fixpoints_are_stuck(e, *d, fuel);
            law_fixpoints_are_stuck(e, *c, fuel);
        },
        Term::Abs(_, d, c) => {
            law_fixpoints_are_stuck(e, *d, fuel);
            law_fixpoints_are_stuck(e, *c, fuel);
        },
        _ => {},
    }
}

/// `t` after `n` reduction steps.
pub open spec fn spec_iterate(e: EnvModel, t: Term, n: nat) -> Term
    decreases n,
{
    if n == 0 {
        t
    } else {
        spec_iterate(e, spec_step(e, t, (n - 1) as nat), (n - 1) as nat)
    }
}

/// Normalizing gives a term that one more reduction step leaves unchanged,
/// hence a stuck one; only when the step bound runs out first is it the
/// term reached after that many steps.
pub proof fn law_normal_forms_are_stuck(e: EnvModel, t: Term, fuel: nat)
    ensures
        (exists|k: nat|
            k < fuel && spec_step(e, spec_normalize(e, t, fuel), k) == spec_normalize(e, t, fuel) && #[trigger] stuck(
                e,
                spec_normalize(e, t, fuel),
                k,
            )) || spec_normalize(e, t, fuel) == spec_iterate(e, t, fuel),
    decreases fuel,
{
    if fuel > 0 {
        let k = (fuel - 1) as nat;
        let s = spec_step(e, t, k);
        if s == t {
            law_fixpoints_are_stuck(e, t, k);
        } else {
            law_normal_forms_are_stuck(e, s, k);
            let r = spec_normalize(e, s, k);
            if exists|j: nat| j < k && spec_step(e, r, j) == r && #[trigger] stuck(e, r, j) {
                let j = choose|j: nat| j < k && spec_step(e, r, j) == r && #[trigger] stuck(e, r, j);
                assert(j < fuel && spec_step(e, r, j) == r && stuck(e, r, j));
            }
        }
    }
}

//########################### ELIMINATORS

proof fn lemma_innermost_of_chain(args: Seq<(Seq<char>, Term)>, base: Term)
    ensures
        spec_prod_innermost(spec_multiarg_fun_type(args, base)) == spec_prod_innermost(base),
    decreases args.len(),
{
    if args.len() > 0 {
        lemma_innermost_of_chain(args.skip(1), base);
    }
}

proof fn lemma_apply_args_parts(f: Term, args: Seq<Term>)
    ensures
        spec_application_args(spec_apply_args(f, args)) == spec_application_args(f) + args,
        spec_applied_function(spec_apply_args(f, args)) == spec_applied_function(f),
    decreases args.len(),
{
    if args.len() == 0 {
        assert(spec_application_args(f) + args =~= spec_application_args(f));
    } else {
        lemma_apply_args_parts(f, args.drop_last());
        assert(spec_application_args(f) + args =~= (spec_application_args(f) + args.drop_last()).push(args.last()));
    }
}

proof fn lemma_apply_args_concat(f: Term, a: Seq<Term>, b: Seq<Term>)
    ensures
        spec_apply_args(spec_apply_args(f, a), b) == spec_apply_args(f, a + b),
    decreases b.len(),
{
    if b.len() == 0 {
        assert(a + b =~= a);
    } else {
        lemma_apply_args_concat(f, a, b.drop_last());
        assert((a + b).drop_last() =~= a + b.drop_last());
        assert((a + b).last() == b.last());
    }
}

proof fn lemma_split_len(arg_types: Seq<Term>, name: Seq<char>)
    ensures
        spec_split(arg_types, name).0.len() + spec_split(arg_types, name).1.len() == arg_types.len(),
    decreases arg_types.len(),
{
    if arg_types.len() > 0 {
        lemma_split_len(arg_types.drop_last(), name);
    }
}

/// In the minor premise of an eliminator for a constructor, the instance
/// the motive is applied to is the constructor applied first to all the
/// inductive type's parameters `lefts`, then to one variable per argument of
/// the constructor.
pub proof fn law_minor_premise_instance(ctor: (Seq<char>, Term), lefts: Seq<Term>, result_var: Term, name: Seq<char>)
    ensures
        ({
            let inst = spec_application_args(spec_prod_innermost(spec_case(ctor, lefts, result_var, name))).last();
            &&& spec_applied_function(inst) == placeholder(ctor.0)
            &&& spec_application_args(inst).len() == lefts.len() + spec_arg_types(ctor.1).len()
            &&& spec_application_args(inst).subrange(0, lefts.len() as int) == lefts
        }),
{
    let (nr, r) = spec_split(spec_arg_types(ctor.1), name);
    let p = placeholder(ctor.0);
    let inst = spec_apply_args(spec_apply_args(spec_apply_args(p, lefts), placeholder_vars(nr)), placeholder_vars(r));
    lemma_apply_args_concat(p, lefts, placeholder_vars(nr));
    lemma_apply_args_concat(p, lefts + placeholder_vars(nr), placeholder_vars(r));
    let all = lefts + placeholder_vars(nr) + placeholder_vars(r);
    lemma_apply_args_parts(p, all);
    assert(spec_application_args(p) + all =~= all);
    assert(all.subrange(0, lefts.len() as int) =~= lefts);
    lemma_split_len(spec_arg_types(ctor.1), name);
    let l = lefts.len() as int;
    let rights = spec_application_args(spec_prod_innermost(ctor.1)).skip(l);
    let result_instance = spec_apply_args(spec_apply_args(result_var, rights), seq![inst]);
    assert(seq![inst].drop_last() =~= Seq::<Term>::empty());
    assert(seq![inst].last() == inst);
    assert(spec_apply_args(spec_apply_args(result_var, rights), Seq::<Term>::empty()) == spec_apply_args(result_var, rights));
    assert(result_instance == Term::App(Box::new(spec_apply_args(result_var, rights)), Box::new(inst)));
    let hyps_chain = spec_multiarg_fun_type(
        spec_split(spec_arg_types(ctor.1), name).1,
        spec_multiarg_fun_type(crate::cic::eliminator::named_indexed("ih_"@, crate::cic::eliminator::spec_hypotheses(r, result_var, l)), result_instance),
    );
    lemma_innermost_of_chain(crate::cic::eliminator::named_indexed("ih_"@, crate::cic::eliminator::spec_hypotheses(r, result_var, l)), result_instance);
    lemma_innermost_of_chain(spec_split(spec_arg_types(ctor.1), name).1, spec_multiarg_fun_type(crate::cic::eliminator::named_indexed("ih_"@, crate::cic::eliminator::spec_hypotheses(r, result_var, l)), result_instance));
    lemma_innermost_of_chain(nr, hyps_chain);
}

} // verus!
