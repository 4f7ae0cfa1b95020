//! Type checking and execution of the statements of a program of the
//! calculus: axioms, global definitions, functions, theorems with a proof
//! term, and inductive types. A statement that checks is evaluated: what it
//! declares enters the environment for the statements after it.

use vstd::prelude::*;
use crate::cic::eliminator::{ctor_fits, eliminator_defined, spec_eliminator};
use crate::cic::environment::{EnvModel, Environment};
use crate::cic::evaluation::{evaluate_inductive, spec_declared_constructors, spec_declared_type};
use crate::cic::model::{
    ends_in_atom, prod_len, spec_application_args, spec_arg_types, spec_is_instance_of, spec_multiarg_fun_type,
    spec_positive,
};
use crate::cic::render::render_term;
use crate::cic::term::{copy_term, view_named, view_seq, view_tactics, CicStm, CicTerm, NameKind, Stm, Term};
use crate::cic::reduction::{normalize_term, spec_normalize, REDUCTION_FUEL};
use crate::cic::tactics::{spec_interactive_proof, spec_tactic, tactic_result, type_check_interactive_proof, type_check_tactic};
use crate::cic::statements::Cic;
use crate::cic::type_check::type_check_type;
use crate::runtime::program::{Node, ProgramNode, Schedule};
use crate::cic::type_check::{
    assuming, assuming_all, define, pop_assumptions, push_assumptions, result_is, spec_type_of, terms_unify, type_check_term,
    unifies,
};
use crate::cic::unification::{cic_so_unification, spec_unify};
use crate::cic::utils::{application_args, check_positivity, get_arg_types, get_prod_innermost, is_instance_of, make_multiarg_fun_type};
use crate::error::LofError;
use crate::parser::api::{Tac, Tactic, Union};

verus! {

//########################### MODEL

/// Whether `t` is a type in `e`: its own type is a sort.
pub open spec fn is_type(e: EnvModel, t: Term) -> bool {
    spec_type_of(e, t) matches Some(Term::Sort(_))
}

/// `body` abstracted over `args`, the first argument outermost.
pub open spec fn spec_wrap_abstractions(args: Seq<(Seq<char>, Term)>, body: Term) -> Term
    decreases args.len(),
{
    if args.len() == 0 {
        body
    } else {
        Term::Abs(args[0].0, Box::new(args[0].1), Box::new(spec_wrap_abstractions(args.skip(1), body)))
    }
}

/// Every constructor type of `ctors` is a type in `e`, and no argument of
/// one of its arguments refers to `name` (strict positivity).
pub open spec fn ctors_ok(e: EnvModel, name: Seq<char>, ctors: Seq<(Seq<char>, Term)>) -> bool {
    forall|i: int|
        0 <= i < ctors.len() ==> {
            &&& is_type(e, #[trigger] ctors[i].1)
            &&& forall|j: int|
                0 <= j < spec_arg_types(ctors[i].1).len() ==> spec_positive(#[trigger] spec_arg_types(ctors[i].1)[j], name)
        }
}

/// The environment after declaring an inductive type (see [`evaluate_inductive`]).
pub open spec fn inductive_env(
    e: EnvModel,
    name: Seq<char>,
    ps: Seq<(Seq<char>, Term)>,
    ariety: Term,
    ctors: Seq<(Seq<char>, Term)>,
) -> EnvModel {
    let cs = spec_declared_constructors(ps, ctors);
    e.with_context(
        e.context.push((name, spec_declared_type(ps, ariety))) + cs + seq![
            ("e_"@ + name, spec_eliminator(name, ps, ariety, ctors)),
        ],
    ).with_constructors(e.constructors.push((name, cs))).with_param_counts(
        e.param_counts.push((name, ps.len() as usize)),
    )
}

/// The unit type, what declaring an inductive type has.
pub open spec fn unit_type() -> Term {
    Term::Var("Unit"@, NameKind::Const())
}

/// Type checking the statement `s` in `e`: its type and the environment
/// after it, `None` when it does not check.
/// - an axiom needs its formula to be a type, and assumes it;
/// - a global definition needs its type (the body's when none is given) to
///   be a type unifying with the body's, and defines the name;
/// - a function needs its body, under its arguments (and itself, when it is
///   recursive), to have a type unifying with its output type; the name is
///   defined as the body abstracted over the arguments, of the function type;
/// - a theorem needs its formula to be a type and its proof term a type
///   whose normal form unifies with the formula's; a tactic proof must
///   build a proof term (see [`spec_interactive_proof`]) that type checks.
///   The proof is recorded and the formula assumed under the theorem's name;
/// - an inductive type needs its arity over its parameters to be a type,
///   each constructor type to be a type (with the type and the parameters
///   assumed) that is strictly positive, and an eliminator to be definable.
pub open spec fn spec_check_stm(e: EnvModel, s: Stm) -> Option<(Term, EnvModel)> {
    match s {
        Stm::Axiom(n, f) => if is_type(e, f) {
            Some((f, assuming(e, n, f)))
        } else {
            None
        },
        Stm::Global(n, ot, b) => match spec_type_of(e, b) {
            Some(bt) => {
                let vt = match ot {
                    Some(t) => t,
                    None => bt,
                };
                if is_type(e, vt) && spec_unify(seq![(vt, bt)]) is Unified {
                    Some((bt, define(e, n, b, vt)))
                } else {
                    None
                }
            },
            None => None,
        },
        Stm::Fun(n, args, out, body, is_rec) => {
            let ft = spec_multiarg_fun_type(args, out);
            let assumed = if is_rec {
                args.push((n, ft))
            } else {
                args
            };
            match spec_type_of(assuming_all(e, assumed), body) {
                Some(bt) => if spec_unify(seq![(out, bt)]) is Unified {
                    Some((ft, define(e, n, spec_wrap_abstractions(args, body), ft)))
                } else {
                    None
                },
                None => None,
            }
        },
        Stm::Theorem(n, f, Union::L(p)) => if is_type(e, f) {
            match spec_type_of(e, p) {
                Some(pt) => if unifies(e, pt, f) {
                    Some((f, assuming(e.with_theorem_proofs(e.theorem_proofs.push((n, p))), n, f)))
                } else {
                    None
                },
                None => None,
            }
        } else {
            None
        },
        Stm::Theorem(n, f, Union::R(ts)) => if is_type(e, f) {
            match spec_interactive_proof(e, ts, f) {
                Some(p) => if spec_type_of(e, p) is Some {
                    Some((f, assuming(e.with_theorem_proofs(e.theorem_proofs.push((n, p))), n, f)))
                } else {
                    None
                },
                None => None,
            }
        } else {
            None
        },
        Stm::InductiveDef(n, ps, ar, cs) => {
            let it = spec_multiarg_fun_type(ps, ar);
            if is_type(e, it) && ctors_ok(assuming_all(e, seq![(n, it)] + ps), n, cs) && eliminator_defined(
                n,
                ps,
                ar,
                cs,
            ) {
                Some((unit_type(), inductive_env(e, n, ps, ar, cs)))
            } else {
                None
            }
        },
    }
}

//########################### CHECKS

/// Whether `t` is a chain of products ending in a sort or a variable.
fn check_ends_in_atom(t: &CicTerm) -> (r: bool)
    ensures
        r == ends_in_atom(t@),
    decreases t,
{
    match t {
        CicTerm::Product(_, _, c) => check_ends_in_atom(c),
        CicTerm::Sort(_) => true,
        CicTerm::Variable(_, _) => true,
        _ => false,
    }
}

proof fn lemma_prod_len(t: Term)
    ensures
        prod_len(t) == spec_arg_types(t).len(),
    decreases t,
{
    match t {
        Term::Prod(_, _, c) => lemma_prod_len(*c),
        _ => {},
    }
}

/// Whether the constructor type `ct` gives the type `name` at least `l`
/// arguments, and so does each of its recursive arguments.
fn check_ctor_fits(ct: &CicTerm, name: &str, l: usize) -> (r: bool)
    ensures
        r == ctor_fits(ct@, name@, l as int),
{
    let innermost = get_prod_innermost(ct);
    if application_args(innermost).len() < l {
        return false;
    }
    let arg_types = get_arg_types(ct);
    let ghost ats = spec_arg_types(ct@);
    let mut j: usize = 0;
    while j < arg_types.len()
        invariant
            j <= arg_types@.len(),
            view_seq(arg_types@) == ats,
            ats == spec_arg_types(ct@),
            forall|k: int|
                0 <= k < j && spec_is_instance_of(#[trigger] ats[k], name@) ==> l <= spec_application_args(ats[k]).len(),
        decreases arg_types@.len() - j,
    {
        proof {
            assert(arg_types@[j as int]@ == ats[j as int]);
        }
        if is_instance_of(&arg_types[j], name) && application_args(&arg_types[j]).len() < l {
            return false;
        }
        j = j + 1;
    }
    true
}

/// Whether the eliminator of the inductive type can be built (see
/// [`eliminator_defined`]).
pub fn eliminator_definable(
    name: &str,
    params: &Vec<(String, CicTerm)>,
    ariety: &CicTerm,
    constructors: &Vec<(String, CicTerm)>,
) -> (r: bool)
    ensures
        r == eliminator_defined(name@, view_named(params@), ariety@, view_named(constructors@)),
{
    if !check_ends_in_atom(ariety) {
        return false;
    }
    let arity_args = get_arg_types(ariety);
    proof {
        lemma_prod_len(ariety@);
    }
    if arity_args.len() > 2147483647usize {
        return false;
    }
    let ghost cs = view_named(constructors@);
    let mut i: usize = 0;
    while i < constructors.len()
        invariant
            i <= constructors@.len(),
            cs == view_named(constructors@),
            forall|k: int| 0 <= k < i ==> ctor_fits(#[trigger] cs[k].1, name@, params@.len() as int),
        decreases constructors@.len() - i,
    {
        proof {
            assert(cs[i as int].1 == constructors@[i as int].1@);
        }
        if !check_ctor_fits(&constructors[i].1, name, params.len()) {
            return false;
        }
        i = i + 1;
    }
    true
}

/// Whether no argument of an argument of `ct` refers to `name`.
fn all_positive(ct: &CicTerm, name: &str) -> (r: bool)
    ensures
        r == forall|j: int| 0 <= j < spec_arg_types(ct@).len() ==> spec_positive(#[trigger] spec_arg_types(ct@)[j], name@),
{
    let arg_types = get_arg_types(ct);
    let mut j: usize = 0;
    while j < arg_types.len()
        invariant
            j <= arg_types@.len(),
            view_seq(arg_types@) == spec_arg_types(ct@),
            forall|jj: int| 0 <= jj < j ==> spec_positive(#[trigger] spec_arg_types(ct@)[jj], name@),
        decreases arg_types@.len() - j,
    {
        proof {
            assert(arg_types@[j as int]@ == spec_arg_types(ct@)[j as int]);
        }
        if !check_positivity(&arg_types[j], name) {
            return false;
        }
        j = j + 1;
    }
    true
}

/// Whether `t` is a type in `environment` (see [`is_type`]).
fn check_is_type(t: &CicTerm, environment: &mut Environment) -> (r: Result<(), LofError>)
    ensures
        final(environment)@ == old(environment)@,
        r is Ok <==> is_type(old(environment)@, t@),
{
    match type_check_term(t, environment) {
        Ok(CicTerm::Sort(_)) => Ok(()),
        Ok(_) => Err(LofError::type_check_error(render_term(t).as_str())),
        Err(e) => Err(e),
    }
}

//########################### EVALUATION

/// `body` abstracted over `args` (see [`spec_wrap_abstractions`]).
pub fn wrap_abstractions(args: &Vec<(String, CicTerm)>, body: &CicTerm) -> (r: CicTerm)
    ensures
        r@ == spec_wrap_abstractions(view_named(args@), body@),
{
    let ghost a = view_named(args@);
    let mut cur = copy_term(body);
    let mut i: usize = args.len();
    proof {
        assert(a.skip(a.len() as int).len() == 0);
    }
    while i > 0
        invariant
            i <= args@.len(),
            a == view_named(args@),
            cur@ == spec_wrap_abstractions(a.skip(i as int), body@),
        decreases i,
    {
        let k = i - 1;
        proof {
            let s = a.skip(k as int);
            assert(s[0] == a[k as int]);
            assert(s.skip(1) =~= a.skip(i as int));
            assert(a[k as int] == (args@[k as int].0@, args@[k as int].1@));
        }
        cur = CicTerm::Abstraction(args[k].0.clone(), Box::new(copy_term(&args[k].1)), Box::new(cur));
        i = k;
    }
    proof {
        assert(a.skip(0) =~= a);
    }
    cur
}

/// Assumes the axiom `axiom_name : formula`.
pub fn evaluate_axiom(environment: &mut Environment, axiom_name: &str, formula: &CicTerm)
    ensures
        final(environment)@ == assuming(old(environment)@, axiom_name@, formula@),
{
    environment.add_to_context(axiom_name, formula);
}

/// Defines `var_name` as `body`, of type `var_type`.
pub fn evaluate_global(environment: &mut Environment, var_name: &str, var_type: &CicTerm, body: &CicTerm)
    ensures
        final(environment)@ == define(old(environment)@, var_name@, body@, var_type@),
{
    environment.add_substitution_with_type(var_name, body, var_type);
}

/// Defines the function `fun_name` as its body abstracted over its
/// arguments, of the function type of its arguments and output type.
pub fn evaluate_fun(
    environment: &mut Environment,
    fun_name: &str,
    args: &Vec<(String, CicTerm)>,
    out_type: &CicTerm,
    body: &CicTerm,
)
    ensures
        final(environment)@ == define(
            old(environment)@,
            fun_name@,
            spec_wrap_abstractions(view_named(args@), body@),
            spec_multiarg_fun_type(view_named(args@), out_type@),
        ),
{
    let fun_type = make_multiarg_fun_type(args.as_slice(), out_type);
    let definition = wrap_abstractions(args, body);
    environment.add_substitution_with_type(fun_name, &definition, &fun_type);
}

/// Assumes the proven `formula` under the theorem's name; theorems do not
/// reduce.
pub fn evaluate_theorem(environment: &mut Environment, theorem_name: &str, formula: &CicTerm)
    ensures
        final(environment)@ == assuming(old(environment)@, theorem_name@, formula@),
{
    environment.add_to_context(theorem_name, formula);
}

//########################### STATEMENTS TYPE CHECKING

/// The model of a theorem's proof: a term or tactics.
pub open spec fn view_proof(p: Union<CicTerm, Vec<Tactic<CicTerm>>>) -> Union<Term, Seq<Tac<Term>>> {
    match p {
        Union::L(t) => Union::L(t@),
        Union::R(ts) => Union::R(view_tactics(ts@)),
    }
}

/// Type checks the theorem `theorem_name : formula` with its proof and,
/// when it checks, records the proof and assumes the theorem (see
/// [`spec_check_stm`]); when it does not, the environment is left as it was.
pub fn u_type_check_theorem(
    environment: &mut Environment,
    theorem_name: &str,
    formula: &CicTerm,
    pf: &Union<CicTerm, Vec<Tactic<CicTerm>>>,
) -> (r: Result<CicTerm, LofError>)
    ensures
        match spec_check_stm(old(environment)@, Stm::Theorem(theorem_name@, formula@, view_proof(*pf))) {
            Some((t, e2)) => r matches Ok(x) && x@ == t && final(environment)@ == e2,
            None => r is Err && final(environment)@ == old(environment)@,
        },
{
    match check_is_type(formula, environment) {
        Ok(()) => {},
        Err(e) => {
            return Err(e);
        },
    }
    let proof_term = match pf {
        Union::L(proof_term) => {
            let pt = match type_check_term(proof_term, environment) {
                Ok(t) => t,
                Err(e) => {
                    return Err(e);
                },
            };
            match terms_unify(environment, &pt, formula) {
                Ok(()) => {},
                Err(_) => {
                    return Err(LofError::type_mismatch(
                        theorem_name,
                        render_term(formula).as_str(),
                        render_term(&pt).as_str(),
                    ));
                },
            }
            copy_term(proof_term)
        },
        Union::R(tactics) => {
            let built = match type_check_interactive_proof(environment, tactics, formula) {
                Ok(p) => p,
                Err(e) => {
                    return Err(e);
                },
            };
            match type_check_term(&built, environment) {
                Ok(_) => {},
                Err(e) => {
                    return Err(e);
                },
            }
            built
        },
    };
    environment.add_theorem_proof(theorem_name, &proof_term);
    evaluate_theorem(environment, theorem_name, formula);
    Ok(copy_term(formula))
}

/// Type checks the statement `stm` and, when it checks, evaluates it (see
/// [`spec_check_stm`]); when it does not, the environment is left as it was.
#[verifier::rlimit(40)]
pub fn type_check_stm(stm: &CicStm, environment: &mut Environment) -> (r: Result<CicTerm, LofError>)
    ensures
        match spec_check_stm(old(environment)@, stm@) {
            Some((t, e2)) => r matches Ok(x) && x@ == t && final(environment)@ == e2,
            None => r is Err && final(environment)@ == old(environment)@,
        },
{
    match stm {
        CicStm::Axiom(name, formula) => {
            match check_is_type(formula, environment) {
                Ok(()) => {},
                Err(e) => {
                    return Err(e);
                },
            }
            evaluate_axiom(environment, name.as_str(), formula);
            Ok(copy_term(formula))
        },
        CicStm::Global(name, opt_type, body) => {
            let bt = match type_check_term(body, environment) {
                Ok(t) => t,
                Err(e) => {
                    return Err(e);
                },
            };
            let vt = match opt_type {
                Some(t) => copy_term(t),
                None => copy_term(&bt),
            };
            match check_is_type(&vt, environment) {
                Ok(()) => {},
                Err(e) => {
                    return Err(e);
                },
            }
            match cic_so_unification(&vt, &bt) {
                Ok(_) => {},
                Err(_) => {
                    return Err(LofError::type_mismatch(
                        name.as_str(),
                        render_term(&vt).as_str(),
                        render_term(&bt).as_str(),
                    ));
                },
            }
            evaluate_global(environment, name.as_str(), &vt, body);
            Ok(bt)
        },
        CicStm::Fun(name, args, out_type, body, is_rec) => {
            let fun_type = make_multiarg_fun_type(args.as_slice(), out_type);
            let mut assumptions: Vec<(String, CicTerm)> = Vec::new();
            let mut i: usize = 0;
            while i < args.len()
                invariant
                    i <= args@.len(),
                    view_named(assumptions@) == view_named(args@).subrange(0, i as int),
                decreases args@.len() - i,
            {
                let ghost before = assumptions@;
                assumptions.push((args[i].0.clone(), copy_term(&args[i].1)));
                proof {
                    assert(view_named(assumptions@) =~= view_named(before).push(view_named(args@)[i as int]));
                    assert(view_named(args@).subrange(0, i + 1) =~= view_named(args@).subrange(0, i as int).push(
                        view_named(args@)[i as int],
                    ));
                }
                i = i + 1;
            }
            proof {
                assert(view_named(args@).subrange(0, args@.len() as int) =~= view_named(args@));
            }
            if *is_rec {
                let ghost before = assumptions@;
                assumptions.push((name.clone(), copy_term(&fun_type)));
                proof {
                    assert(view_named(assumptions@) =~= view_named(before).push((name@, fun_type@)));
                }
            }
            let ghost base = environment@;
            push_assumptions(environment, &assumptions);
            let bt = type_check_term(body, environment);
            pop_assumptions(environment, &assumptions, Ghost(base));
            let bt = match bt {
                Ok(t) => t,
                Err(e) => {
                    return Err(e);
                },
            };
            match cic_so_unification(out_type, &bt) {
                Ok(_) => {},
                Err(_) => {
                    return Err(LofError::type_mismatch(
                        name.as_str(),
                        render_term(out_type).as_str(),
                        render_term(&bt).as_str(),
                    ));
                },
            }
            evaluate_fun(environment, name.as_str(), args, out_type, body);
            Ok(fun_type)
        },
        CicStm::Theorem(name, formula, pf) => u_type_check_theorem(environment, name.as_str(), formula, pf),
        CicStm::InductiveDef(name, params, ariety, constructors) => {
            let inductive_type = make_multiarg_fun_type(params.as_slice(), ariety);
            match check_is_type(&inductive_type, environment) {
                Ok(()) => {},
                Err(e) => {
                    return Err(e);
                },
            }
            let mut assumptions: Vec<(String, CicTerm)> = Vec::new();
            assumptions.push((name.clone(), copy_term(&inductive_type)));
            let mut i: usize = 0;
            let ghost vp = view_named(params@);
            proof {
                assert(view_named(assumptions@) =~= seq![(name@, inductive_type@)] + vp.subrange(0, 0));
            }
            while i < params.len()
                invariant
                    i <= params@.len(),
                    vp == view_named(params@),
                    view_named(assumptions@) == seq![(name@, inductive_type@)] + vp.subrange(0, i as int),
                decreases params@.len() - i,
            {
                let ghost before = assumptions@;
                assumptions.push((params[i].0.clone(), copy_term(&params[i].1)));
                proof {
                    assert(view_named(assumptions@) =~= view_named(before).push(vp[i as int]));
                    assert(seq![(name@, inductive_type@)] + vp.subrange(0, i + 1) =~= (seq![(name@, inductive_type@)]
                        + vp.subrange(0, i as int)).push(vp[i as int]));
                }
                i = i + 1;
            }
            proof {
                assert(vp.subrange(0, vp.len() as int) =~= vp);
            }
            let ghost base = environment@;
            push_assumptions(environment, &assumptions);
            let ghost inner = environment@;
            let ghost vc = view_named(constructors@);
            let mut ok = true;
            let mut k: usize = 0;
            while k < constructors.len()
                invariant
                    k <= constructors@.len(),
                    environment@ == inner,
                    vc == view_named(constructors@),
                    ok ==> forall|c: int|
                        0 <= c < k ==> {
                            &&& is_type(inner, #[trigger] vc[c].1)
                            &&& forall|j: int|
                                0 <= j < spec_arg_types(vc[c].1).len() ==> spec_positive(
                                    #[trigger] spec_arg_types(vc[c].1)[j],
                                    name@,
                                )
                        },
                    !ok ==> !ctors_ok(inner, name@, vc),
                decreases constructors@.len() - k,
            {
                proof {
                    assert(vc[k as int].1 == constructors@[k as int].1@);
                }
                if ok {
                    match check_is_type(&constructors[k].1, environment) {
                        Ok(()) => {
                            if !all_positive(&constructors[k].1, name.as_str()) {
                                ok = false;
                            }
                        },
                        Err(_) => {
                            ok = false;
                        },
                    }
                }
                k = k + 1;
            }
            pop_assumptions(environment, &assumptions, Ghost(base));
            if !ok {
                return Err(LofError::custom("an inductive constructor is not a strictly positive type"));
            }
            if !eliminator_definable(name.as_str(), params, ariety, constructors) {
                return Err(LofError::type_check_error(name.as_str()));
            }
            match evaluate_inductive(environment, name.as_str(), params, ariety, constructors) {
                Ok(()) => {},
                Err(e) => {
                    return Err(e);
                },
            }
            Ok(CicTerm::Variable(String::from_str("Unit"), NameKind::Const()))
        },
    }
}

//########################### EXECUTION

/// The environment after evaluating the statement `s` in `e` (with no type
/// checking): axioms and theorems are assumed, global definitions and
/// functions defined, inductive types declared; `None` for an inductive
/// type whose eliminator cannot be built.
pub open spec fn spec_evaluate_stm(e: EnvModel, s: Stm) -> Option<EnvModel> {
    match s {
        Stm::Axiom(n, f) => Some(assuming(e, n, f)),
        Stm::Global(n, Some(t), b) => Some(define(e, n, b, t)),
        Stm::Global(n, None, b) => Some(e.with_deltas(e.deltas.push((n, b)))),
        Stm::Fun(n, args, out, body, _) => Some(
            define(e, n, spec_wrap_abstractions(args, body), spec_multiarg_fun_type(args, out)),
        ),
        Stm::Theorem(n, f, _) => Some(assuming(e, n, f)),
        Stm::InductiveDef(n, ps, ar, cs) => if eliminator_defined(n, ps, ar, cs) {
            Some(inductive_env(e, n, ps, ar, cs))
        } else {
            None
        },
    }
}

/// Evaluates the statement `stm` (see [`spec_evaluate_stm`]); on an error
/// the environment is left as it was.
pub fn evaluate_statement(environment: &mut Environment, stm: &CicStm) -> (r: Result<(), LofError>)
    ensures
        match spec_evaluate_stm(old(environment)@, stm@) {
            Some(e2) => r is Ok && final(environment)@ == e2,
            None => r is Err && final(environment)@ == old(environment)@,
        },
{
    match stm {
        CicStm::Axiom(name, formula) => {
            evaluate_axiom(environment, name.as_str(), formula);
            Ok(())
        },
        CicStm::Global(name, opt_type, body) => {
            match opt_type {
                Some(t) => evaluate_global(environment, name.as_str(), t, body),
                None => environment.add_substitution(name.as_str(), body),
            }
            Ok(())
        },
        CicStm::Fun(name, args, out_type, body, _) => {
            evaluate_fun(environment, name.as_str(), args, out_type, body);
            Ok(())
        },
        CicStm::Theorem(name, formula, _) => {
            evaluate_theorem(environment, name.as_str(), formula);
            Ok(())
        },
        CicStm::InductiveDef(name, params, ariety, constructors) => {
            if !eliminator_definable(name.as_str(), params, ariety, constructors) {
                return Err(LofError::type_check_error(name.as_str()));
            }
            evaluate_inductive(environment, name.as_str(), params, ariety, constructors)
        },
    }
}

/// Type checking the nodes of a program in order from `e`: the environment
/// after them and whether every node checks. A statement that checks is
/// evaluated for the nodes after it; one that does not changes nothing.
pub open spec fn spec_check_program(e: EnvModel, nodes: Seq<Node>) -> (EnvModel, bool)
    decreases nodes.len(),
{
    if nodes.len() == 0 {
        (e, true)
    } else {
        let (e1, ok) = spec_check_program(e, nodes.drop_last());
        match nodes.last() {
            Node::OfExp(t) => (e1, ok && spec_type_of(e1, t) is Some),
            Node::OfStm(s) => match spec_check_stm(e1, s) {
                Some((_, e2)) => (e2, ok),
                None => (e1, false),
            },
        }
    }
}

/// Type checks every node of `schedule` in order (see
/// [`spec_check_program`]); the errors of all the nodes that fail are gathered.
pub fn type_check_program(schedule: &Schedule, environment: &mut Environment) -> (r: Result<(), LofError>)
    ensures
        final(environment)@ == spec_check_program(old(environment)@, schedule@).0,
        r is Ok <==> spec_check_program(old(environment)@, schedule@).1,
{
    let mut errors: Vec<LofError> = Vec::new();
    let mut i: usize = 0;
    while i < schedule.len()
        invariant
            i <= schedule@.len(),
            (environment@, errors@.len() == 0) == spec_check_program(old(environment)@, schedule@.subrange(0, i as int)),
        decreases schedule@.len() - i,
    {
        let ghost pre = schedule@.subrange(0, i + 1);
        proof {
            assert(pre.drop_last() =~= schedule@.subrange(0, i as int));
        }
        match schedule.get(i) {
            ProgramNode::OfExp(exp) => match type_check_term(exp, environment) {
                Ok(_) => {},
                Err(e) => {
                    errors.push(e);
                },
            },
            ProgramNode::OfStm(stm) => match type_check_stm(stm, environment) {
                Ok(_) => {},
                Err(e) => {
                    errors.push(e);
                },
            },
        }
        i = i + 1;
    }
    proof {
        assert(schedule@.subrange(0, schedule@.len() as int) =~= schedule@);
    }
    if errors.len() == 0 {
        Ok(())
    } else {
        Err(LofError::aggregate(&errors))
    }
}

/// Running the nodes of a program in order from `e`: the environment after
/// them and the normal forms of the expressions met, in order; `None` at
/// the first statement that cannot be evaluated.
pub open spec fn spec_run_program(e: EnvModel, nodes: Seq<Node>) -> Option<(EnvModel, Seq<Term>)>
    decreases nodes.len(),
{
    if nodes.len() == 0 {
        Some((e, Seq::empty()))
    } else {
        match spec_run_program(e, nodes.drop_last()) {
            Some((e1, out)) => match nodes.last() {
                Node::OfExp(t) => Some((e1, out.push(spec_normalize(e1, t, REDUCTION_FUEL as nat)))),
                Node::OfStm(s) => match spec_evaluate_stm(e1, s) {
                    Some(e2) => Some((e2, out)),
                    None => None,
                },
            },
            None => None,
        }
    }
}

/// Runs the nodes of `schedule` in order (see [`spec_run_program`]): the
/// normal forms of its expressions.
pub fn execute_program(schedule: &Schedule, environment: &mut Environment) -> (r: Result<Vec<CicTerm>, LofError>)
    ensures
        match spec_run_program(old(environment)@, schedule@) {
            Some((e2, out)) => r matches Ok(v) && view_seq(v@) == out && final(environment)@ == e2,
            None => r is Err,
        },
{
    let mut out: Vec<CicTerm> = Vec::new();
    let mut i: usize = 0;
    while i < schedule.len()
        invariant
            i <= schedule@.len(),
            spec_run_program(old(environment)@, schedule@.subrange(0, i as int)) == Some((environment@, view_seq(out@))),
        decreases schedule@.len() - i,
    {
        let ghost pre = schedule@.subrange(0, i + 1);
        proof {
            assert(pre.drop_last() =~= schedule@.subrange(0, i as int));
        }
        match schedule.get(i) {
            ProgramNode::OfExp(exp) => {
                let n = normalize_term(environment, exp);
                let ghost before = out@;
                out.push(n);
                proof {
                    assert(view_seq(out@) =~= view_seq(before).push(n@));
                }
            },
            ProgramNode::OfStm(stm) => match evaluate_statement(environment, stm) {
                Ok(()) => {},
                Err(e) => {
                    proof {
                        lemma_run_none_extends(old(environment)@, schedule@, i as int + 1);
                    }
                    return Err(e);
                },
            },
        }
        i = i + 1;
    }
    proof {
        assert(schedule@.subrange(0, schedule@.len() as int) =~= schedule@);
    }
    Ok(out)
}

/// Once running a prefix of a program fails, running all of it fails.
proof fn lemma_run_none_extends(e: EnvModel, nodes: Seq<Node>, k: int)
    requires
        0 <= k <= nodes.len(),
        spec_run_program(e, nodes.subrange(0, k)) is None,
    ensures
        spec_run_program(e, nodes) is None,
    decreases nodes.len() - k,
{
    if k == nodes.len() {
        assert(nodes.subrange(0, k) =~= nodes);
    } else {
        assert(nodes.drop_last().subrange(0, k) =~= nodes.subrange(0, k));
        lemma_run_none_extends(e, nodes.drop_last(), k);
    }
}

//########################### LAWS

/// A statement that type checks has been evaluated: the environment after
/// checking an axiom, a function, an inductive type or a global definition
/// with a stated type is the one evaluating it gives.
pub proof fn law_checked_statement_is_evaluated(e: EnvModel, s: Stm)
    requires
        !(s is Theorem),
        !(s matches Stm::Global(_, None, _)),
        spec_check_stm(e, s) is Some,
    ensures
        spec_evaluate_stm(e, s) == Some(spec_check_stm(e, s)->Some_0.1),
{
}

/// A program that type checks runs without an error.
pub proof fn law_checked_program_runs(e: EnvModel, nodes: Seq<Node>)
    requires
        spec_check_program(e, nodes).1,
    ensures
        spec_run_program(e, nodes) is Some,
    decreases nodes.len(),
{
    if nodes.len() > 0 {
        law_checked_program_runs(e, nodes.drop_last());
    }
}

//########################### THE KERNEL OF THE CALCULUS

impl Cic {
    /// The type of `term` in `environment` (see [`spec_type_of`]).
    pub fn type_check_term(term: &CicTerm, environment: &mut Environment) -> (r: Result<CicTerm, LofError>)
        ensures
            final(environment)@ == old(environment)@,
            result_is(r, spec_type_of(old(environment)@, term@)),
    {
        type_check_term(term, environment)
    }

    /// The sort of the type `typee` in `environment`.
    pub fn type_check_type(typee: &CicTerm, environment: &mut Environment) -> (r: Result<CicTerm, LofError>)
        ensures
            final(environment)@ == old(environment)@,
            result_is(
                r,
                match spec_type_of(old(environment)@, typee@) {
                    Some(Term::Sort(s)) => Some(Term::Sort(s)),
                    _ => None,
                },
            ),
    {
        type_check_type(typee, environment)
    }

    /// Type checks and evaluates the statement `stm` (see [`spec_check_stm`]).
    pub fn type_check_stm(stm: &CicStm, environment: &mut Environment) -> (r: Result<CicTerm, LofError>)
        ensures
            match spec_check_stm(old(environment)@, stm@) {
                Some((t, e2)) => r matches Ok(x) && x@ == t && final(environment)@ == e2,
                None => r is Err && final(environment)@ == old(environment)@,
            },
    {
        type_check_stm(stm, environment)
    }

    /// Checks a tactic (see [`spec_tactic`]).
    pub fn type_check_tactic(
        environment: &mut Environment,
        tactic: &Tactic<CicTerm>,
        target: &CicTerm,
        partial_proof: &CicTerm,
    ) -> (r: Result<(CicTerm, Vec<CicTerm>), LofError>)
        ensures
            tactic_result(r, spec_tactic(old(environment)@, tactic@, target@, partial_proof@), old(environment)@, final(environment)@),
    {
        type_check_tactic(environment, tactic, target, partial_proof)
    }

    /// The normal form of `term` in `environment`.
    pub fn normalize_term(environment: &Environment, term: &CicTerm) -> (r: CicTerm)
        ensures
            r@ == spec_normalize(environment@, term@, REDUCTION_FUEL as nat),
    {
        normalize_term(environment, term)
    }

    /// Evaluates the statement `stm` (see [`spec_evaluate_stm`]).
    pub fn evaluate_statement(environment: &mut Environment, stm: &CicStm) -> (r: Result<(), LofError>)
        ensures
            match spec_evaluate_stm(old(environment)@, stm@) {
                Some(e2) => r is Ok && final(environment)@ == e2,
                None => r is Err && final(environment)@ == old(environment)@,
            },
    {
        evaluate_statement(environment, stm)
    }
}

} // verus!
