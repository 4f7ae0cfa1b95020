//! Transport of terms across a registered type equivalence: constructor
//! occurrences of the source type become their `dep_constr` images,
//! applications of its eliminator `e_<type_a>` use `dep_elim`, names
//! already lifted under the equivalence are renamed, and every other node
//! is rebuilt from its transported parts.

use vstd::prelude::*;
use crate::cic::assoc::{has_key, last_index_of, spec_assoc};
use crate::cic::environment::{lookup_named, EnvModel, Environment};
use crate::cic::bounds::{subst_fits, try_substitute};
use crate::cic::model::{
    spec_application_args, spec_applied_function, spec_apply_args, spec_arg_types, spec_is_instance_of, spec_prod_innermost,
    spec_subst, view_strings,
};
use crate::cic::term::{
    copy_term, lemma_match_view, no_branch, view_branches, view_named, view_seq, CicTerm, NameKind, Term, PLACEHOLDER_DBI,
};
use crate::cic::utils::{application_args, apply_arguments, get_applied_function, is_instance_of};
use crate::cic::assoc::contains_name;
use crate::commons::transport::{EquivConfig, EquivModel};
use crate::error::LofError;
use crate::cic::type_check::{spec_type_of, type_check_term};
use crate::text::{concat, decimal_u64, spec_decimal, str_eq};

verus! {

//########################### MODEL

/// The model of an optional term.
pub open spec fn view_opt_term(o: Option<CicTerm>) -> Option<Term> {
    match o {
        Some(x) => Some(x@),
        None => None,
    }
}

/// `type_of` behaves as the function `typer` on terms: what it gives back
/// for a term is `typer`'s value on that term's model.
pub open spec fn typer_agrees<F: Fn(&CicTerm) -> Option<CicTerm>>(type_of: F, typer: spec_fn(Term) -> Option<Term>) -> bool {
    forall|t: &CicTerm, r: Option<CicTerm>| #[trigger] call_ensures(type_of, (t,), r) ==> view_opt_term(r) == typer(t@)
}

/// An executable result is the modelled one: the same term, or the error
/// carrying the same message.
pub open spec fn result_is(r: Result<CicTerm, LofError>, s: Result<Term, Seq<char>>) -> bool {
    match s {
        Ok(t) => r matches Ok(x) && x@ == t,
        Err(m) => r matches Err(LofError::Other(msg)) && msg@ == m,
    }
}

/// `ctor` is a constructor of the inductive type `ind_name`.
pub open spec fn spec_is_constructor_of(env: EnvModel, ind_name: Seq<char>, ctor: Seq<char>) -> bool {
    match spec_assoc(env.constructors, ind_name) {
        Some(cs) => has_key(cs, ctor),
        None => false,
    }
}

/// The message for a constructor of the source type without a
/// `dep_constr` image.
pub open spec fn missing_dep_constr_message(cfg: EquivModel, ctor: Seq<char>) -> Seq<char> {
    "transport: equivalence '"@ + cfg.name + "' has no dep_constr entry for constructor '"@ + ctor + "' of '"@
        + cfg.type_a + "'"@
}

/// The message for a `match` over the source type.
pub open spec fn raw_match_message(cfg: EquivModel) -> Seq<char> {
    "transport: equivalence '"@ + cfg.name + "' cannot transport a raw `match` over '"@ + cfg.type_a
        + "' - rewrite the source proof/function to use e_"@ + cfg.type_a + " explicitly instead"@
}

/// The `dep_constr` image of the constructor `ctor`.
pub open spec fn spec_dep_constr_of(cfg: EquivModel, ctor: Seq<char>) -> Result<Term, Seq<char>> {
    match spec_assoc(cfg.dep_constr, ctor) {
        Some(t) => Ok(t),
        None => Err(missing_dep_constr_message(cfg, ctor)),
    }
}

/// `scrutinee` is known to have the source type: by the binder that
/// introduced it when it is a variable bound around it, by the context
/// when it is another variable, and by `typer` (the type checker)
/// otherwise.
pub open spec fn spec_is_type_a_scrutinee(
    env: EnvModel,
    cfg: EquivModel,
    scrutinee: Term,
    known: Seq<(Seq<char>, Term)>,
    typer: spec_fn(Term) -> Option<Term>,
) -> bool {
    match scrutinee {
        Term::Var(name, _) => match spec_assoc(known, name) {
            Some(declared) => spec_is_instance_of(declared, cfg.type_a),
            None => match spec_assoc(env.context, name) {
                Some(t) => spec_is_instance_of(t, cfg.type_a),
                None => false,
            },
        },
        _ => match typer(scrutinee) {
            Some(t) => spec_is_instance_of(t, cfg.type_a),
            None => false,
        },
    }
}

/// The head of an application spine is smaller than the application.
pub proof fn lemma_head_smaller(t: Term)
    requires
        t is App,
    ensures
        decreases_to!(t => spec_applied_function(t)),
    decreases t,
{
    match t {
        Term::App(l, _) => {
            assert(decreases_to!(t => *l));
            if (*l) is App {
                lemma_head_smaller(*l);
            }
        },
        _ => {},
    }
}

/// The arguments of an application spine are smaller than the application.
pub proof fn lemma_arg_smaller(t: Term, i: int)
    requires
        0 <= i < spec_application_args(t).len(),
    ensures
        decreases_to!(t => spec_application_args(t)[i]),
    decreases t,
{
    match t {
        Term::App(l, r) => {
            let args = spec_application_args(t);
            assert(decreases_to!(t => *l));
            if i < args.len() - 1 {
                assert(args[i] == spec_application_args(*l)[i]);
                lemma_arg_smaller(*l, i);
            }
        },
        _ => {},
    }
}

/// `t` transported across `cfg`, or the message of the first failure met
/// walking it; `known` holds the binders around `t` with their source types.
pub open spec fn spec_transport(
    env: EnvModel,
    cfg: EquivModel,
    t: Term,
    known: Seq<(Seq<char>, Term)>,
    typer: spec_fn(Term) -> Option<Term>,
) -> Result<Term, Seq<char>>
    decreases t, 2int, 0nat,
{
    match t {
        Term::Var(name, k) => {
            if name == cfg.type_a {
                Ok(Term::Var(cfg.type_b, k))
            } else {
                match spec_assoc(cfg.lifted_names, name) {
                    Some(new_name) => Ok(Term::Var(new_name, k)),
                    None => if k == NameKind::Const() && spec_is_constructor_of(env, cfg.type_a, name) {
                        spec_dep_constr_of(cfg, name)
                    } else {
                        Ok(t)
                    },
                }
            }
        },
        Term::Abs(n, ty, body) => match spec_transport(env, cfg, *ty, known, typer) {
            Err(e) => Err(e),
            Ok(ty2) => match spec_transport(env, cfg, *body, known.push((n, *ty)), typer) {
                Err(e) => Err(e),
                Ok(body2) => Ok(Term::Abs(n, Box::new(ty2), Box::new(body2))),
            },
        },
        Term::Prod(n, ty, body) => match spec_transport(env, cfg, *ty, known, typer) {
            Err(e) => Err(e),
            Ok(ty2) => match spec_transport(env, cfg, *body, known.push((n, *ty)), typer) {
                Err(e) => Err(e),
                Ok(body2) => Ok(Term::Prod(n, Box::new(ty2), Box::new(body2))),
            },
        },
        Term::Let(n, ty, body, scope) => {
            let ty2: Result<Option<Box<Term>>, Seq<char>> = match ty {
                Some(x) => match spec_transport(env, cfg, *x, known, typer) {
                    Err(e) => Err(e),
                    Ok(y) => Ok(Some(Box::new(y))),
                },
                None => Ok(None),
            };
            match ty2 {
                Err(e) => Err(e),
                Ok(ty2) => match spec_transport(env, cfg, *body, known, typer) {
                    Err(e) => Err(e),
                    Ok(body2) => match spec_transport(env, cfg, *scope, known, typer) {
                        Err(e) => Err(e),
                        Ok(scope2) => Ok(Term::Let(n, ty2, Box::new(body2), Box::new(scope2))),
                    },
                },
            }
        },
        Term::App(_, _) => match spec_transport_args(env, cfg, t, known, typer, spec_application_args(t).len()) {
            Err(e) => Err(e),
            Ok(args) => {
                let head = spec_applied_function(t);
                proof {
                    lemma_head_smaller(t);
                }
                match head {
                    Term::Var(name, NameKind::Const()) => {
                        if spec_is_constructor_of(env, cfg.type_a, name) {
                            match spec_dep_constr_of(cfg, name) {
                                Err(e) => Err(e),
                                Ok(image) => Ok(spec_apply_args(image, args)),
                            }
                        } else {
                            match spec_assoc(cfg.lifted_names, name) {
                                Some(new_name) => Ok(spec_apply_args(Term::Var(new_name, NameKind::Const()), args)),
                                None => if name == "e_"@ + cfg.type_a {
                                    Ok(spec_apply_args(cfg.dep_elim, args))
                                } else {
                                    match spec_transport(env, cfg, head, known, typer) {
                                        Err(e) => Err(e),
                                        Ok(h) => Ok(spec_apply_args(h, args)),
                                    }
                                },
                            }
                        }
                    },
                    _ => match spec_transport(env, cfg, head, known, typer) {
                        Err(e) => Err(e),
                        Ok(h) => Ok(spec_apply_args(h, args)),
                    },
                }
            },
        },
        Term::Match(m, bs) => {
            if spec_is_type_a_scrutinee(env, cfg, *m, known, typer) {
                Err(raw_match_message(cfg))
            } else {
                match spec_transport(env, cfg, *m, known, typer) {
                    Err(e) => Err(e),
                    Ok(m2) => match spec_transport_branches(env, cfg, t, known, typer, bs.len()) {
                        Err(e) => Err(e),
                        Ok(bs2) => Ok(Term::Match(Box::new(m2), bs2)),
                    },
                }
            }
        },
        _ => Ok(t),
    }
}

/// The first `n` arguments of the application `t`, each transported, or
/// the first failure.
pub open spec fn spec_transport_args(
    env: EnvModel,
    cfg: EquivModel,
    t: Term,
    known: Seq<(Seq<char>, Term)>,
    typer: spec_fn(Term) -> Option<Term>,
    n: nat,
) -> Result<Seq<Term>, Seq<char>>
    decreases t, 1int, n,
{
    let args = spec_application_args(t);
    if n == 0 || n > args.len() {
        Ok(Seq::empty())
    } else {
        match spec_transport_args(env, cfg, t, known, typer, (n - 1) as nat) {
            Err(e) => Err(e),
            Ok(prev) => {
                proof {
                    lemma_arg_smaller(t, n - 1);
                }
                match spec_transport(env, cfg, args[n - 1], known, typer) {
                    Err(e) => Err(e),
                    Ok(a) => Ok(prev.push(a)),
                }
            },
        }
    }
}

/// The first `n` branches of the `match` term `t`, pattern and body each
/// transported, or the first failure.
pub open spec fn spec_transport_branches(
    env: EnvModel,
    cfg: EquivModel,
    t: Term,
    known: Seq<(Seq<char>, Term)>,
    typer: spec_fn(Term) -> Option<Term>,
    n: nat,
) -> Result<Seq<(Term, Term)>, Seq<char>>
    decreases t, 1int, n,
{
    match t {
        Term::Match(_, bs) => {
            if n == 0 || n > bs.len() {
                Ok(Seq::empty())
            } else {
                match spec_transport_branches(env, cfg, t, known, typer, (n - 1) as nat) {
                    Err(e) => Err(e),
                    Ok(prev) => {
                        proof {
                            assert(decreases_to!(t => bs));
                            assert(decreases_to!(bs => bs[n - 1]));
                        }
                        match spec_transport(env, cfg, bs[n - 1].0, known, typer) {
                            Err(e) => Err(e),
                            Ok(p) => match spec_transport(env, cfg, bs[n - 1].1, known, typer) {
                                Err(e) => Err(e),
                                Ok(b) => Ok(prev.push((p, b))),
                            },
                        }
                    },
                }
            }
        },
        _ => Ok(Seq::empty()),
    }
}

//########################### PROPAGATION OF FAILURES

/// A failure among the first `k` arguments is the failure of every longer
/// prefix.
pub proof fn lemma_args_failure_stays(
    env: EnvModel,
    cfg: EquivModel,
    t: Term,
    known: Seq<(Seq<char>, Term)>,
    typer: spec_fn(Term) -> Option<Term>,
    k: nat,
    n: nat,
)
    requires
        0 < k <= n <= spec_application_args(t).len(),
        spec_transport_args(env, cfg, t, known, typer, k) is Err,
    ensures
        spec_transport_args(env, cfg, t, known, typer, n) == spec_transport_args(env, cfg, t, known, typer, k),
    decreases n - k,
{
    if n > k {
        lemma_args_failure_stays(env, cfg, t, known, typer, k, (n - 1) as nat);
    }
}

/// A failure among the first `k` branches is the failure of every longer
/// prefix.
pub proof fn lemma_branches_failure_stays(
    env: EnvModel,
    cfg: EquivModel,
    t: Term,
    known: Seq<(Seq<char>, Term)>,
    typer: spec_fn(Term) -> Option<Term>,
    k: nat,
    n: nat,
)
    requires
        t is Match,
        0 < k <= n <= t->Match_1.len(),
        spec_transport_branches(env, cfg, t, known, typer, k) is Err,
    ensures
        spec_transport_branches(env, cfg, t, known, typer, n) == spec_transport_branches(env, cfg, t, known, typer, k),
    decreases n - k,
{
    if n > k {
        lemma_branches_failure_stays(env, cfg, t, known, typer, k, (n - 1) as nat);
    }
}

//########################### EXECUTABLE HELPERS

/// Whether `ctor_name` is a constructor of the inductive type `ind_name`.
fn is_constructor_of(environment: &Environment, ind_name: &str, ctor_name: &str) -> (r: bool)
    ensures
        r == spec_is_constructor_of(environment@, ind_name@, ctor_name@),
{
    match environment.get_constructors_for(ind_name) {
        Some(names) => {
            let r = contains_name(&names, ctor_name);
            proof {
                let cs = spec_assoc(environment@.constructors, ind_name@).unwrap();
                assert(names@.map_values(|x: String| x@) == crate::cic::assoc::spec_keys(cs));
                if r {
                    let j = choose|j: int| 0 <= j < names@.len() && (#[trigger] names@[j])@ == ctor_name@;
                    assert(names@.map_values(|x: String| x@)[j] == names@[j]@);
                    assert(cs[j].0 == ctor_name@);
                }
                if has_key(cs, ctor_name@) {
                    let k = choose|k: int| 0 <= k < cs.len() && (#[trigger] cs[k]).0 == ctor_name@;
                    assert(crate::cic::assoc::spec_keys(cs)[k] == cs[k].0);
                    assert(names@.map_values(|x: String| x@)[k] == names@[k]@);
                    assert(names@[k]@ == ctor_name@);
                }
            }
            r
        },
        None => false,
    }
}

/// The `dep_constr` image of the constructor `ctor_name`.
fn dep_constr_of(config: &EquivConfig, ctor_name: &str) -> (r: Result<CicTerm, LofError>)
    ensures
        result_is(r, spec_dep_constr_of(config@, ctor_name@)),
{
    match lookup_named(&config.dep_constr, ctor_name) {
        Some(entry) => Ok(entry.1),
        None => {
            let mut m = String::from_str("transport: equivalence '");
            m.append(config.name.as_str());
            m.append("' has no dep_constr entry for constructor '");
            m.append(ctor_name);
            m.append("' of '");
            m.append(config.type_a.as_str());
            m.append("'");
            Err(LofError::custom(m.as_str()))
        },
    }
}

/// The name `name` is lifted to, under the renamings `renamings`, if any.
fn lookup_renaming(renamings: &Vec<(String, String)>, name: &str) -> (r: Option<String>)
    ensures
        match spec_assoc(crate::commons::transport::view_renamings(renamings@), name@) {
            Some(n) => r matches Some(x) && x@ == n,
            None => r is None,
        },
{
    let ghost s = crate::commons::transport::view_renamings(renamings@);
    match last_index_of(renamings, name) {
        Some(i) => {
            proof {
                assert forall|j: int| i < j < s.len() implies (#[trigger] s[j]).0 != s[i as int].0 by {
                    assert(s[j].0 == renamings@[j].0@);
                }
                crate::cic::assoc::lemma_assoc_last(s, i as int);
            }
            Some(renamings[i].1.clone())
        },
        None => {
            proof {
                assert forall|j: int| 0 <= j < s.len() implies (#[trigger] s[j]).0 != name@ by {
                    assert(s[j].0 == renamings@[j].0@);
                }
                crate::cic::assoc::lemma_assoc_absent(s, name@);
            }
            None
        },
    }
}

/// The message for a `match` over the source type.
fn raw_match_error(config: &EquivConfig) -> (r: LofError)
    ensures
        r matches LofError::Other(msg) && msg@ == raw_match_message(config@),
{
    let mut m = String::from_str("transport: equivalence '");
    m.append(config.name.as_str());
    m.append("' cannot transport a raw `match` over '");
    m.append(config.type_a.as_str());
    m.append("' - rewrite the source proof/function to use e_");
    m.append(config.type_a.as_str());
    m.append(" explicitly instead");
    LofError::custom(m.as_str())
}

/// Whether `scrutinee` is known to have the source type (see
/// [`spec_is_type_a_scrutinee`]); `type_of` stands for the type checker.
fn is_type_a_scrutinee<F: Fn(&CicTerm) -> Option<CicTerm>>(
    environment: &Environment,
    config: &EquivConfig,
    scrutinee: &CicTerm,
    known_params: &Vec<(String, CicTerm)>,
    type_of: &F,
) -> (r: bool)
    requires
        forall|t: &CicTerm| call_requires(*type_of, (t,)),
    ensures
        forall|typer: spec_fn(Term) -> Option<Term>|
            typer_agrees(*type_of, typer) ==> r == spec_is_type_a_scrutinee(
                environment@,
                config@,
                scrutinee@,
                view_named(known_params@),
                typer,
            ),
{
    match scrutinee {
        CicTerm::Variable(name, _) => match lookup_named(known_params, name.as_str()) {
            Some(entry) => is_instance_of(&entry.1, config.type_a.as_str()),
            None => match environment.get_variable_type(name.as_str()) {
                Some(t) => is_instance_of(&t, config.type_a.as_str()),
                None => false,
            },
        },
        _ => {
            let found = type_of(scrutinee);
            let r = match &found {
                Some(t) => is_instance_of(t, config.type_a.as_str()),
                None => false,
            };
            proof {
                assert forall|typer: spec_fn(Term) -> Option<Term>| typer_agrees(*type_of, typer) implies r
                    == spec_is_type_a_scrutinee(environment@, config@, scrutinee@, view_named(known_params@), typer) by {
                    assert(call_ensures(*type_of, (scrutinee,), found));
                }
            }
            r
        },
    }
}

//########################### TRANSPORT OF TERMS

/// Transports `term` across `config` (see [`spec_transport`]);
/// `known_params` holds the binders around `term` with their source types
/// and is handed back as it came.
fn transport_term_inner<F: Fn(&CicTerm) -> Option<CicTerm>>(
    environment: &Environment,
    config: &EquivConfig,
    term: &CicTerm,
    known_params: &mut Vec<(String, CicTerm)>,
    type_of: &F,
) -> (r: Result<CicTerm, LofError>)
    requires
        forall|t: &CicTerm| call_requires(*type_of, (t,)),
    ensures
        final(known_params)@ == old(known_params)@,
        forall|typer: spec_fn(Term) -> Option<Term>|
            typer_agrees(*type_of, typer) ==> result_is(
                r,
                spec_transport(environment@, config@, term@, view_named(old(known_params)@), typer),
            ),
    decreases term@,
{
    let ghost k0 = known_params@;
    let ghost env = environment@;
    let ghost cfg = config@;
    match term {
        CicTerm::Variable(name, k) => {
            if str_eq(name.as_str(), config.type_a.as_str()) {
                return Ok(CicTerm::Variable(config.type_b.clone(), *k));
            }
            match lookup_renaming(&config.lifted_names, name.as_str()) {
                Some(new_name) => Ok(CicTerm::Variable(new_name, *k)),
                None => {
                    if *k == NameKind::Const() && is_constructor_of(environment, config.type_a.as_str(), name.as_str()) {
                        dep_constr_of(config, name.as_str())
                    } else {
                        Ok(copy_term(term))
                    }
                },
            }
        },
        CicTerm::Abstraction(var_name, var_type, body) => {
            proof {
                let tv = term@;
                assert(decreases_to!(tv => tv->Abs_1));
                assert(decreases_to!(tv => tv->Abs_2));
            }
            let ty2 = match transport_term_inner(environment, config, var_type, known_params, type_of) {
                Ok(x) => x,
                Err(e) => {
                    return Err(e);
                },
            };
            known_params.push((var_name.clone(), copy_term(var_type)));
            proof {
                assert(view_named(known_params@) =~= view_named(k0).push((var_name@, var_type@)));
            }
            let body2 = transport_term_inner(environment, config, body, known_params, type_of);
            known_params.pop();
            proof {
                assert(known_params@ =~= k0);
            }
            match body2 {
                Ok(b) => Ok(CicTerm::Abstraction(var_name.clone(), Box::new(ty2), Box::new(b))),
                Err(e) => Err(e),
            }
        },
        CicTerm::Product(var_name, var_type, body) => {
            proof {
                let tv = term@;
                assert(decreases_to!(tv => tv->Prod_1));
                assert(decreases_to!(tv => tv->Prod_2));
            }
            let ty2 = match transport_term_inner(environment, config, var_type, known_params, type_of) {
                Ok(x) => x,
                Err(e) => {
                    return Err(e);
                },
            };
            known_params.push((var_name.clone(), copy_term(var_type)));
            proof {
                assert(view_named(known_params@) =~= view_named(k0).push((var_name@, var_type@)));
            }
            let body2 = transport_term_inner(environment, config, body, known_params, type_of);
            known_params.pop();
            proof {
                assert(known_params@ =~= k0);
            }
            match body2 {
                Ok(b) => Ok(CicTerm::Product(var_name.clone(), Box::new(ty2), Box::new(b))),
                Err(e) => Err(e),
            }
        },
        CicTerm::Let(var_name, var_type, body, scope) => {
            proof {
                let tv = term@;
                assert(decreases_to!(tv => tv->Let_2));
                assert(decreases_to!(tv => tv->Let_3));
            }
            let ty2: Option<CicTerm> = match &**var_type {
                Some(t) => match transport_term_inner(environment, config, t, known_params, type_of) {
                    Ok(x) => Some(x),
                    Err(e) => {
                        return Err(e);
                    },
                },
                None => None,
            };
            let body2 = match transport_term_inner(environment, config, body, known_params, type_of) {
                Ok(x) => x,
                Err(e) => {
                    return Err(e);
                },
            };
            let scope2 = match transport_term_inner(environment, config, scope, known_params, type_of) {
                Ok(x) => x,
                Err(e) => {
                    return Err(e);
                },
            };
            Ok(CicTerm::Let(var_name.clone(), Box::new(ty2), Box::new(body2), Box::new(scope2)))
        },
        CicTerm::Application(_, _) => {
            let head = get_applied_function(term);
            let args = application_args(term);
            let mut targs: Vec<CicTerm> = Vec::new();
            proof {
                assert(view_seq(targs@) =~= Seq::<Term>::empty());
            }
            let mut i: usize = 0;
            while i < args.len()
                invariant
                    i <= args@.len(),
                    view_seq(args@) == spec_application_args(term@),
                    known_params@ == k0,
                    k0 == old(known_params)@,
                    env == environment@,
                    cfg == config@,
                    term@ is App,
                    forall|t: &CicTerm| call_requires(*type_of, (t,)),
                    forall|typer: spec_fn(Term) -> Option<Term>|
                        typer_agrees(*type_of, typer) ==> spec_transport_args(env, cfg, term@, view_named(k0), typer, i as nat)
                            == Ok::<Seq<Term>, Seq<char>>(view_seq(targs@)),
                decreases args@.len() - i,
            {
                proof {
                    lemma_arg_smaller(term@, i as int);
                    assert(args@[i as int]@ == spec_application_args(term@)[i as int]);
                }
                match transport_term_inner(environment, config, &args[i], known_params, type_of) {
                    Ok(a) => {
                        let ghost before = targs@;
                        targs.push(a);
                        proof {
                            assert(view_seq(targs@) =~= view_seq(before).push(a@));
                        }
                    },
                    Err(e) => {
                        proof {
                            assert forall|typer: spec_fn(Term) -> Option<Term>| typer_agrees(*type_of, typer) implies result_is(
                                Err(e),
                                spec_transport(env, cfg, term@, view_named(k0), typer),
                            ) by {
                                lemma_args_failure_stays(
                                    env,
                                    cfg,
                                    term@,
                                    view_named(k0),
                                    typer,
                                    (i + 1) as nat,
                                    spec_application_args(term@).len(),
                                );
                            }
                        }
                        return Err(e);
                    },
                }
                i = i + 1;
            }
            proof {
                lemma_head_smaller(term@);
            }
            match &head {
                CicTerm::Variable(name, NameKind::Const()) => {
                    if is_constructor_of(environment, config.type_a.as_str(), name.as_str()) {
                        match dep_constr_of(config, name.as_str()) {
                            Ok(image) => Ok(apply_arguments(&image, targs)),
                            Err(e) => Err(e),
                        }
                    } else {
                        match lookup_renaming(&config.lifted_names, name.as_str()) {
                            Some(new_name) => Ok(apply_arguments(&CicTerm::Variable(new_name, NameKind::Const()), targs)),
                            None => {
                                let elim = concat("e_", config.type_a.as_str());
                                if str_eq(name.as_str(), elim.as_str()) {
                                    Ok(apply_arguments(&config.dep_elim, targs))
                                } else {
                                    match transport_term_inner(environment, config, &head, known_params, type_of) {
                                        Ok(h) => Ok(apply_arguments(&h, targs)),
                                        Err(e) => Err(e),
                                    }
                                }
                            },
                        }
                    }
                },
                _ => match transport_term_inner(environment, config, &head, known_params, type_of) {
                    Ok(h) => Ok(apply_arguments(&h, targs)),
                    Err(e) => Err(e),
                },
            }
        },
        CicTerm::Match(scrutinee, branches) => {
            proof {
                lemma_match_view(**scrutinee, *branches);
            }
            if is_type_a_scrutinee(environment, config, scrutinee, known_params, type_of) {
                return Err(raw_match_error(config));
            }
            let m2 = match transport_term_inner(environment, config, scrutinee, known_params, type_of) {
                Ok(x) => x,
                Err(e) => {
                    return Err(e);
                },
            };
            let mut bs2: Vec<(CicTerm, CicTerm)> = Vec::new();
            proof {
                assert(view_branches(bs2@) =~= Seq::<(Term, Term)>::empty());
            }
            let mut i: usize = 0;
            while i < branches.len()
                invariant
                    i <= branches@.len(),
                    term@ == Term::Match(Box::new(scrutinee@), view_branches(branches@)),
                    known_params@ == k0,
                    k0 == old(known_params)@,
                    env == environment@,
                    cfg == config@,
                    forall|t: &CicTerm| call_requires(*type_of, (t,)),
                    forall|typer: spec_fn(Term) -> Option<Term>|
                        typer_agrees(*type_of, typer) ==> spec_transport_branches(env, cfg, term@, view_named(k0), typer, i as nat)
                            == Ok::<Seq<(Term, Term)>, Seq<char>>(view_branches(bs2@)),
                    forall|typer: spec_fn(Term) -> Option<Term>|
                        typer_agrees(*type_of, typer) ==> !spec_is_type_a_scrutinee(env, cfg, scrutinee@, view_named(k0), typer)
                            && spec_transport(env, cfg, scrutinee@, view_named(k0), typer) == Ok::<Term, Seq<char>>(m2@),
                decreases branches@.len() - i,
            {
                let ghost vb = view_branches(branches@);
                let ghost tv = term@;
                proof {
                    assert(vb[i as int] == (branches@[i as int].0@, branches@[i as int].1@));
                    assert(tv->Match_1 == vb);
                    assert(decreases_to!(tv => tv->Match_1));
                    assert(decreases_to!(vb => vb[i as int]));
                    assert(decreases_to!(vb[i as int] => vb[i as int].0));
                    assert(decreases_to!(vb[i as int] => vb[i as int].1));
                }
                let p = match transport_term_inner(environment, config, &branches[i].0, known_params, type_of) {
                    Ok(x) => x,
                    Err(e) => {
                        proof {
                            assert forall|typer: spec_fn(Term) -> Option<Term>| typer_agrees(*type_of, typer) implies result_is(
                                Err(e),
                                spec_transport(env, cfg, term@, view_named(k0), typer),
                            ) by {
                                lemma_branches_failure_stays(env, cfg, term@, view_named(k0), typer, (i + 1) as nat, vb.len());
                            }
                        }
                        return Err(e);
                    },
                };
                let b = match transport_term_inner(environment, config, &branches[i].1, known_params, type_of) {
                    Ok(x) => x,
                    Err(e) => {
                        proof {
                            assert forall|typer: spec_fn(Term) -> Option<Term>| typer_agrees(*type_of, typer) implies result_is(
                                Err(e),
                                spec_transport(env, cfg, term@, view_named(k0), typer),
                            ) by {
                                lemma_branches_failure_stays(env, cfg, term@, view_named(k0), typer, (i + 1) as nat, vb.len());
                            }
                        }
                        return Err(e);
                    },
                };
                let ghost before = bs2@;
                bs2.push((p, b));
                proof {
                    assert(view_branches(bs2@) =~= view_branches(before).push((p@, b@)));
                }
                i = i + 1;
            }
            let r = CicTerm::Match(Box::new(m2), bs2);
            proof {
                lemma_match_view(m2, bs2);
            }
            Ok(r)
        },
        _ => Ok(copy_term(term)),
    }
}

//########################### SELF CALLS

/// `t` is a variable named `name`.
pub open spec fn is_var_named(t: Term, name: Seq<char>) -> bool {
    t matches Term::Var(n, _) && n == name
}

/// Some term of `args` is a variable named `name`.
pub open spec fn mentions_var(args: Seq<Term>, name: Seq<char>) -> bool {
    exists|i: int| 0 <= i < args.len() && is_var_named(#[trigger] args[i], name)
}

/// `t` with every call `fun_name(.., rec_arg_name, ..)` (an application of
/// the constant `fun_name` with the variable `rec_arg_name` among its
/// arguments) replaced by the variable `ih_name`, patterns left alone.
pub open spec fn spec_replace_self_call(t: Term, fun_name: Seq<char>, rec_arg_name: Seq<char>, ih_name: Seq<char>) -> Term
    decreases t,
{
    if t is App && spec_applied_function(t) == Term::Var(fun_name, NameKind::Const()) && mentions_var(
        spec_application_args(t),
        rec_arg_name,
    ) {
        Term::Var(ih_name, NameKind::Bound(PLACEHOLDER_DBI))
    } else {
        match t {
            Term::App(l, r) => Term::App(
                Box::new(spec_replace_self_call(*l, fun_name, rec_arg_name, ih_name)),
                Box::new(spec_replace_self_call(*r, fun_name, rec_arg_name, ih_name)),
            ),
            Term::Abs(n, d, b) => Term::Abs(
                n,
                Box::new(spec_replace_self_call(*d, fun_name, rec_arg_name, ih_name)),
                Box::new(spec_replace_self_call(*b, fun_name, rec_arg_name, ih_name)),
            ),
            Term::Prod(n, d, b) => Term::Prod(
                n,
                Box::new(spec_replace_self_call(*d, fun_name, rec_arg_name, ih_name)),
                Box::new(spec_replace_self_call(*b, fun_name, rec_arg_name, ih_name)),
            ),
            Term::Match(m, bs) => Term::Match(
                Box::new(spec_replace_self_call(*m, fun_name, rec_arg_name, ih_name)),
                Seq::new(
                    bs.len(),
                    |i: int|
                        if 0 <= i < bs.len() {
                            (bs[i].0, spec_replace_self_call(bs[i].1, fun_name, rec_arg_name, ih_name))
                        } else {
                            no_branch()
                        },
                ),
            ),
            Term::Let(n, ty, b, sc) => Term::Let(
                n,
                match ty {
                    Some(x) => Some(Box::new(spec_replace_self_call(*x, fun_name, rec_arg_name, ih_name))),
                    None => None,
                },
                Box::new(spec_replace_self_call(*b, fun_name, rec_arg_name, ih_name)),
                Box::new(spec_replace_self_call(*sc, fun_name, rec_arg_name, ih_name)),
            ),
            _ => t,
        }
    }
}

/// Whether some term of `args` is a variable named `name`.
fn mentions_var_exec(args: &Vec<CicTerm>, name: &str) -> (r: bool)
    ensures
        r == mentions_var(view_seq(args@), name@),
{
    let mut i: usize = 0;
    while i < args.len()
        invariant
            i <= args@.len(),
            forall|j: int| 0 <= j < i ==> !is_var_named(#[trigger] view_seq(args@)[j], name@),
        decreases args@.len() - i,
    {
        match &args[i] {
            CicTerm::Variable(n, _) => {
                if str_eq(n.as_str(), name) {
                    assert(view_seq(args@)[i as int] == args@[i as int]@);
                    return true;
                }
            },
            _ => {},
        }
        assert(view_seq(args@)[i as int] == args@[i as int]@);
        i = i + 1;
    }
    false
}

/// Replaces each self call on `rec_arg_name` by `ih_name` (see
/// [`spec_replace_self_call`]).
pub fn replace_self_call(term: &CicTerm, fun_name: &str, rec_arg_name: &str, ih_name: &str) -> (r: CicTerm)
    ensures
        r@ == spec_replace_self_call(term@, fun_name@, rec_arg_name@, ih_name@),
    decreases term@,
{
    match term {
        CicTerm::Application(left, right) => {
            let head = get_applied_function(term);
            let args = application_args(term);
            let recurses = mentions_var_exec(&args, rec_arg_name);
            let is_self = match &head {
                CicTerm::Variable(n, NameKind::Const()) => str_eq(n.as_str(), fun_name),
                _ => false,
            };
            if is_self && recurses {
                return CicTerm::Variable(String::from_str(ih_name), NameKind::Bound(PLACEHOLDER_DBI));
            }
            proof {
                let tv = term@;
                assert(decreases_to!(tv => tv->App_0));
                assert(decreases_to!(tv => tv->App_1));
            }
            CicTerm::Application(
                Box::new(replace_self_call(left, fun_name, rec_arg_name, ih_name)),
                Box::new(replace_self_call(right, fun_name, rec_arg_name, ih_name)),
            )
        },
        CicTerm::Abstraction(n, d, b) => {
            proof {
                let tv = term@;
                assert(decreases_to!(tv => tv->Abs_1));
                assert(decreases_to!(tv => tv->Abs_2));
            }
            CicTerm::Abstraction(
                n.clone(),
                Box::new(replace_self_call(d, fun_name, rec_arg_name, ih_name)),
                Box::new(replace_self_call(b, fun_name, rec_arg_name, ih_name)),
            )
        },
        CicTerm::Product(n, d, b) => {
            proof {
                let tv = term@;
                assert(decreases_to!(tv => tv->Prod_1));
                assert(decreases_to!(tv => tv->Prod_2));
            }
            CicTerm::Product(
                n.clone(),
                Box::new(replace_self_call(d, fun_name, rec_arg_name, ih_name)),
                Box::new(replace_self_call(b, fun_name, rec_arg_name, ih_name)),
            )
        },
        CicTerm::Match(m, bs) => {
            proof {
                lemma_match_view(**m, *bs);
                let tv = term@;
                assert(decreases_to!(tv => tv->Match_0));
            }
            let m2 = replace_self_call(m, fun_name, rec_arg_name, ih_name);
            let mut bs2: Vec<(CicTerm, CicTerm)> = Vec::new();
            let mut i: usize = 0;
            while i < bs.len()
                invariant
                    i <= bs@.len(),
                    term@ == Term::Match(Box::new(m@), view_branches(bs@)),
                    m2@ == spec_replace_self_call(m@, fun_name@, rec_arg_name@, ih_name@),
                    bs2@.len() == i,
                    forall|k: int|
                        0 <= k < i ==> (#[trigger] bs2@[k]).0@ == bs@[k].0@ && bs2@[k].1@ == spec_replace_self_call(
                            bs@[k].1@,
                            fun_name@,
                            rec_arg_name@,
                            ih_name@,
                        ),
                decreases bs@.len() - i,
            {
                proof {
                    let tv = term@;
                    let vb = view_branches(bs@);
                    assert(vb[i as int] == (bs@[i as int].0@, bs@[i as int].1@));
                    assert(tv->Match_1 == vb);
                    assert(decreases_to!(tv => tv->Match_1));
                    assert(decreases_to!(vb => vb[i as int]));
                    assert(decreases_to!(vb[i as int] => vb[i as int].1));
                }
                bs2.push((copy_term(&bs[i].0), replace_self_call(&bs[i].1, fun_name, rec_arg_name, ih_name)));
                i = i + 1;
            }
            proof {
                lemma_match_view(m2, bs2);
                let sv = spec_replace_self_call(term@, fun_name@, rec_arg_name@, ih_name@);
                assert(sv is Match);
                assert(sv->Match_1 =~= view_branches(bs2@));
            }
            CicTerm::Match(Box::new(m2), bs2)
        },
        CicTerm::Let(n, ty, b, sc) => {
            proof {
                let tv = term@;
                assert(decreases_to!(tv => tv->Let_2));
                assert(decreases_to!(tv => tv->Let_3));
            }
            let ty2 = match &**ty {
                Some(x) => Some(replace_self_call(x, fun_name, rec_arg_name, ih_name)),
                None => None,
            };
            CicTerm::Let(
                n.clone(),
                Box::new(ty2),
                Box::new(replace_self_call(b, fun_name, rec_arg_name, ih_name)),
                Box::new(replace_self_call(sc, fun_name, rec_arg_name, ih_name)),
            )
        },
        _ => copy_term(term),
    }
}

//########################### MINOR PREMISES

/// The message for a constructor without a branch in the recursive `match`.
pub open spec fn missing_branch_message(fun_name: Seq<char>, ctor: Seq<char>) -> Seq<char> {
    "transport: fun '"@ + fun_name + "' has no branch for constructor '"@ + ctor + "'"@
}

/// The message for a substitution whose De Bruijn indices would leave the
/// range of an `i32`.
pub open spec fn index_overflow_message() -> Seq<char> {
    "transport: de Bruijn index out of range"@
}

/// The branch `b` is the one for the constructor `ctor`.
pub open spec fn is_branch_for(b: (Term, Term), ctor: Seq<char>) -> bool {
    spec_applied_function(b.0) == Term::Var(ctor, NameKind::Const())
}

/// The position of the first branch from `i` on that is the one for `ctor`.
pub open spec fn spec_first_branch(bs: Seq<(Term, Term)>, ctor: Seq<char>, i: int) -> Option<int>
    decreases bs.len() - i,
{
    if i < 0 || i >= bs.len() {
        None
    } else if is_branch_for(bs[i], ctor) {
        Some(i)
    } else {
        spec_first_branch(bs, ctor, i + 1)
    }
}

/// The names of the terms of `args` that are variables, in order.
pub open spec fn spec_var_names(args: Seq<Term>) -> Seq<Seq<char>>
    decreases args.len(),
{
    if args.len() == 0 {
        Seq::empty()
    } else {
        match args.last() {
            Term::Var(n, _) => spec_var_names(args.drop_last()).push(n),
            _ => spec_var_names(args.drop_last()),
        }
    }
}

/// The names bound by the leading products of `t`, outermost first.
pub open spec fn spec_binder_names(t: Term) -> Seq<Seq<char>>
    decreases t,
{
    match t {
        Term::Prod(n, _, c) => seq![n] + spec_binder_names(*c),
        _ => Seq::empty(),
    }
}

/// `t` after substituting `values[j]` for `names[j]`, for each `j < n` in
/// turn; `None` when a substitution would leave the range of the indices.
pub open spec fn spec_subst_pairs(t: Term, names: Seq<Seq<char>>, values: Seq<Term>, n: nat) -> Option<Term>
    decreases n,
{
    if n == 0 {
        Some(t)
    } else {
        match spec_subst_pairs(t, names, values, (n - 1) as nat) {
            None => None,
            Some(u) => if subst_fits(u, values[n - 1]) {
                Some(spec_subst(u, names[n - 1], values[n - 1], 0))
            } else {
                None
            },
        }
    }
}

/// Each of the first `k` terms of `ts` after [`spec_subst_pairs`], or
/// `None` when one of them fails.
pub open spec fn spec_subst_each(ts: Seq<Term>, names: Seq<Seq<char>>, values: Seq<Term>, n: nat, k: nat) -> Option<Seq<Term>>
    decreases k,
{
    if k == 0 {
        Some(Seq::empty())
    } else {
        match spec_subst_each(ts, names, values, n, (k - 1) as nat) {
            None => None,
            Some(prev) => match spec_subst_pairs(ts[k - 1], names, values, n) {
                None => None,
                Some(u) => Some(prev.push(u)),
            },
        }
    }
}

/// `body` under a λ for each of `binders`, the first one outermost.
pub open spec fn spec_wrap_abstractions(binders: Seq<(Seq<char>, Term)>, body: Term) -> Term
    decreases binders.len(),
{
    if binders.len() == 0 {
        body
    } else {
        spec_wrap_abstractions(
            binders.drop_last(),
            Term::Abs(binders.last().0, Box::new(binders.last().1), Box::new(body)),
        )
    }
}

/// The binders of a minor premise for the first `n` constructor arguments
/// (`names[j] : types[j]`, each type transported, a recursive one followed
/// by its induction hypothesis `ih_<name> : final_type`), with `body` where
/// the self calls on recursive arguments became their hypotheses.
pub open spec fn spec_premise_binders(
    env: EnvModel,
    cfg: EquivModel,
    fun_name: Seq<char>,
    names: Seq<Seq<char>>,
    types: Seq<Term>,
    body: Term,
    final_type: Term,
    typer: spec_fn(Term) -> Option<Term>,
    n: nat,
) -> Result<(Seq<(Seq<char>, Term)>, Term), Seq<char>>
    decreases n,
{
    if n == 0 {
        Ok((Seq::empty(), body))
    } else {
        match spec_premise_binders(env, cfg, fun_name, names, types, body, final_type, typer, (n - 1) as nat) {
            Err(e) => Err(e),
            Ok(acc) => {
                let name = names[n - 1];
                let ty = types[n - 1];
                match spec_transport(env, cfg, ty, Seq::empty(), typer) {
                    Err(e) => Err(e),
                    Ok(ty2) => {
                        let binders = acc.0.push((name, ty2));
                        if spec_is_instance_of(ty, cfg.type_a) {
                            let ih = "ih_"@ + name;
                            Ok((binders.push((ih, final_type)), spec_replace_self_call(acc.1, fun_name, name, ih)))
                        } else {
                            Ok((binders, acc.1))
                        }
                    },
                }
            },
        }
    }
}

/// The smaller of two naturals.
pub open spec fn min_nat(a: nat, b: nat) -> nat {
    if a <= b {
        a
    } else {
        b
    }
}

/// The minor premise of `dep_elim` for the constructor `ctor : ctor_type`,
/// built from its branch among `bs`: the branch's leading parameter
/// variables are replaced by `values`, its other variables become λ
/// binders with transported types, each recursive one followed by its
/// induction hypothesis, and the body is transported.
pub open spec fn spec_minor_premise(
    env: EnvModel,
    cfg: EquivModel,
    fun_name: Seq<char>,
    bs: Seq<(Term, Term)>,
    ctor: Seq<char>,
    ctor_type: Term,
    final_type: Term,
    param_count: nat,
    values: Seq<Term>,
    typer: spec_fn(Term) -> Option<Term>,
) -> Result<Term, Seq<char>> {
    match spec_first_branch(bs, ctor, 0) {
        None => Err(missing_branch_message(fun_name, ctor)),
        Some(i) => {
            let names = spec_var_names(spec_application_args(bs[i].0));
            let types = spec_arg_types(ctor_type);
            let skipped = min_nat(param_count, names.len());
            match spec_subst_pairs(bs[i].1, names, values, min_nat(skipped, values.len())) {
                None => Err(index_overflow_message()),
                Some(body) => {
                    let names2 = names.skip(skipped as int);
                    let types2 = if types.len() >= skipped {
                        types.skip(skipped as int)
                    } else {
                        types
                    };
                    let binder_names = spec_binder_names(ctor_type);
                    let param_names = binder_names.take(min_nat(param_count, binder_names.len()) as int);
                    match spec_subst_each(types2, param_names, values, min_nat(param_names.len(), values.len()), types2.len()) {
                        None => Err(index_overflow_message()),
                        Some(types3) => match spec_premise_binders(
                            env,
                            cfg,
                            fun_name,
                            names2,
                            types3,
                            body,
                            final_type,
                            typer,
                            min_nat(names2.len(), types3.len()),
                        ) {
                            Err(e) => Err(e),
                            Ok(acc) => match spec_transport(env, cfg, acc.1, Seq::empty(), typer) {
                                Err(e) => Err(e),
                                Ok(tb) => Ok(spec_wrap_abstractions(acc.0, tb)),
                            },
                        },
                    }
                },
            }
        },
    }
}

/// A failure among the first `k` arguments of a minor premise is the
/// failure of every longer prefix.
pub proof fn lemma_binders_failure_stays(
    env: EnvModel,
    cfg: EquivModel,
    fun_name: Seq<char>,
    names: Seq<Seq<char>>,
    types: Seq<Term>,
    body: Term,
    final_type: Term,
    typer: spec_fn(Term) -> Option<Term>,
    k: nat,
    n: nat,
)
    requires
        k <= n,
        spec_premise_binders(env, cfg, fun_name, names, types, body, final_type, typer, k) is Err,
    ensures
        spec_premise_binders(env, cfg, fun_name, names, types, body, final_type, typer, n) == spec_premise_binders(
            env,
            cfg,
            fun_name,
            names,
            types,
            body,
            final_type,
            typer,
            k,
        ),
    decreases n - k,
{
    if n > k {
        lemma_binders_failure_stays(env, cfg, fun_name, names, types, body, final_type, typer, k, (n - 1) as nat);
    }
}

/// A substitution that leaves the range fails every longer run.
pub proof fn lemma_subst_pairs_none_stays(t: Term, names: Seq<Seq<char>>, values: Seq<Term>, k: nat, n: nat)
    requires
        k <= n,
        spec_subst_pairs(t, names, values, k) is None,
    ensures
        spec_subst_pairs(t, names, values, n) is None,
    decreases n - k,
{
    if n > k {
        lemma_subst_pairs_none_stays(t, names, values, k, (n - 1) as nat);
    }
}

/// A term whose substitutions fail fails every longer run.
pub proof fn lemma_subst_each_none_stays(ts: Seq<Term>, names: Seq<Seq<char>>, values: Seq<Term>, n: nat, k: nat, m: nat)
    requires
        k <= m,
        spec_subst_each(ts, names, values, n, k) is None,
    ensures
        spec_subst_each(ts, names, values, n, m) is None,
    decreases m - k,
{
    if m > k {
        lemma_subst_each_none_stays(ts, names, values, n, k, (m - 1) as nat);
    }
}

/// Whether the pattern of `branch` is headed by the constant `ctor`.
fn is_branch_for_exec(branch: &(CicTerm, CicTerm), ctor: &str) -> (r: bool)
    ensures
        r == is_branch_for((branch.0@, branch.1@), ctor@),
{
    let head = get_applied_function(&branch.0);
    match &head {
        CicTerm::Variable(n, NameKind::Const()) => str_eq(n.as_str(), ctor),
        _ => false,
    }
}

/// The position of the first branch for `ctor` (see [`spec_first_branch`]).
fn find_branch(bs: &Vec<(CicTerm, CicTerm)>, ctor: &str) -> (r: Option<usize>)
    ensures
        match r {
            Some(i) => i < bs@.len() && spec_first_branch(view_branches(bs@), ctor@, 0) == Some(i as int),
            None => spec_first_branch(view_branches(bs@), ctor@, 0) is None,
        },
{
    let ghost vb = view_branches(bs@);
    let mut i: usize = 0;
    while i < bs.len()
        invariant
            i <= bs@.len(),
            vb == view_branches(bs@),
            spec_first_branch(vb, ctor@, 0) == spec_first_branch(vb, ctor@, i as int),
        decreases bs@.len() - i,
    {
        assert(vb[i as int] == (bs@[i as int].0@, bs@[i as int].1@));
        if is_branch_for_exec(&bs[i], ctor) {
            return Some(i);
        }
        i = i + 1;
    }
    None
}

/// The names of the terms of `args` that are variables, in order.
fn var_names(args: &Vec<CicTerm>) -> (r: Vec<String>)
    ensures
        view_strings(r@) == spec_var_names(view_seq(args@)),
{
    let ghost va = view_seq(args@);
    let mut out: Vec<String> = Vec::new();
    let mut i: usize = 0;
    while i < args.len()
        invariant
            i <= args@.len(),
            va == view_seq(args@),
            view_strings(out@) == spec_var_names(va.subrange(0, i as int)),
        decreases args@.len() - i,
    {
        let ghost p = va.subrange(0, i + 1);
        proof {
            assert(p.drop_last() =~= va.subrange(0, i as int));
            assert(p.last() == args@[i as int]@);
        }
        match &args[i] {
            CicTerm::Variable(n, _) => {
                let ghost before = out@;
                out.push(n.clone());
                proof {
                    assert(view_strings(out@) =~= view_strings(before).push(n@));
                }
            },
            _ => {},
        }
        i = i + 1;
    }
    proof {
        assert(va.subrange(0, va.len() as int) =~= va);
    }
    out
}

/// The names bound by the leading products of `term`, outermost first.
fn get_binder_names(term: &CicTerm) -> (r: Vec<String>)
    ensures
        view_strings(r@) == spec_binder_names(term@),
    decreases term,
{
    match term {
        CicTerm::Product(binder, _, codomain) => {
            let mut names = get_binder_names(codomain);
            let ghost rest = names@;
            names.insert(0, binder.clone());
            proof {
                assert(view_strings(names@) =~= seq![binder@] + view_strings(rest));
            }
            names
        },
        _ => {
            let names: Vec<String> = Vec::new();
            proof {
                assert(view_strings(names@) =~= Seq::<Seq<char>>::empty());
            }
            names
        },
    }
}

/// `t` after [`spec_subst_pairs`] with the first `n` pairs.
fn subst_pairs(t: &CicTerm, names: &Vec<String>, values: &Vec<CicTerm>, n: usize) -> (r: Option<CicTerm>)
    requires
        n <= names@.len(),
        n <= values@.len(),
    ensures
        view_opt_term(r) == spec_subst_pairs(t@, view_strings(names@), view_seq(values@), n as nat),
{
    let ghost vn = view_strings(names@);
    let ghost vv = view_seq(values@);
    let mut acc = copy_term(t);
    let mut j: usize = 0;
    while j < n
        invariant
            j <= n,
            n <= names@.len(),
            n <= values@.len(),
            vn == view_strings(names@),
            vv == view_seq(values@),
            spec_subst_pairs(t@, vn, vv, j as nat) == Some(acc@),
        decreases n - j,
    {
        assert(vn[j as int] == names@[j as int]@);
        assert(vv[j as int] == values@[j as int]@);
        match try_substitute(&acc, names[j].as_str(), &values[j]) {
            Some(u) => {
                acc = u;
            },
            None => {
                proof {
                    lemma_subst_pairs_none_stays(t@, vn, vv, (j + 1) as nat, n as nat);
                }
                return None;
            },
        }
        j = j + 1;
    }
    Some(acc)
}

/// Each term of `ts` after [`spec_subst_pairs`] with the first `n` pairs.
fn subst_each(ts: &Vec<CicTerm>, names: &Vec<String>, values: &Vec<CicTerm>, n: usize) -> (r: Option<Vec<CicTerm>>)
    requires
        n <= names@.len(),
        n <= values@.len(),
    ensures
        match spec_subst_each(view_seq(ts@), view_strings(names@), view_seq(values@), n as nat, ts@.len()) {
            Some(us) => r matches Some(v) && view_seq(v@) == us,
            None => r is None,
        },
{
    let ghost vt = view_seq(ts@);
    let ghost vn = view_strings(names@);
    let ghost vv = view_seq(values@);
    let mut out: Vec<CicTerm> = Vec::new();
    let mut k: usize = 0;
    while k < ts.len()
        invariant
            k <= ts@.len(),
            n <= names@.len(),
            n <= values@.len(),
            vt == view_seq(ts@),
            vn == view_strings(names@),
            vv == view_seq(values@),
            spec_subst_each(vt, vn, vv, n as nat, k as nat) == Some(view_seq(out@)),
        decreases ts@.len() - k,
    {
        assert(vt[k as int] == ts@[k as int]@);
        match subst_pairs(&ts[k], names, values, n) {
            Some(u) => {
                let ghost before = out@;
                out.push(u);
                proof {
                    assert(view_seq(out@) =~= view_seq(before).push(u@));
                }
            },
            None => {
                proof {
                    lemma_subst_each_none_stays(vt, vn, vv, n as nat, (k + 1) as nat, ts@.len());
                }
                return None;
            },
        }
        k = k + 1;
    }
    Some(out)
}

/// `body` under a λ for each of `binders`, the first one outermost.
fn wrap_abstractions(binders: &Vec<(String, CicTerm)>, body: CicTerm) -> (r: CicTerm)
    ensures
        r@ == spec_wrap_abstractions(view_named(binders@), body@),
{
    let ghost vb = view_named(binders@);
    let ghost b0 = body@;
    let mut acc = body;
    let mut i: usize = binders.len();
    proof {
        assert(vb.subrange(0, i as int) =~= vb);
    }
    while i > 0
        invariant
            i <= binders@.len(),
            vb == view_named(binders@),
            spec_wrap_abstractions(vb.subrange(0, i as int), acc@) == spec_wrap_abstractions(vb, b0),
        decreases i,
    {
        let ghost p = vb.subrange(0, i as int);
        proof {
            assert(p.drop_last() =~= vb.subrange(0, i - 1));
            assert(p.last() == (binders@[i - 1].0@, binders@[i - 1].1@));
        }
        acc = CicTerm::Abstraction(binders[i - 1].0.clone(), Box::new(copy_term(&binders[i - 1].1)), Box::new(acc));
        i = i - 1;
    }
    proof {
        assert(vb.subrange(0, 0) =~= Seq::<(Seq<char>, Term)>::empty());
    }
    acc
}

/// The names of `v` from position `k` on.
fn drop_strings(v: &Vec<String>, k: usize) -> (r: Vec<String>)
    requires
        k <= v@.len(),
    ensures
        view_strings(r@) == view_strings(v@).skip(k as int),
{
    let mut out: Vec<String> = Vec::new();
    let mut i: usize = k;
    while i < v.len()
        invariant
            k <= i <= v@.len(),
            view_strings(out@) == view_strings(v@).subrange(k as int, i as int),
        decreases v@.len() - i,
    {
        let ghost before = out@;
        out.push(v[i].clone());
        proof {
            assert(view_strings(out@) =~= view_strings(before).push(v@[i as int]@));
            assert(view_strings(v@).subrange(k as int, i + 1) =~= view_strings(v@).subrange(k as int, i as int).push(
                v@[i as int]@,
            ));
        }
        i = i + 1;
    }
    out
}

/// The first `k` names of `v`.
fn take_strings(v: &Vec<String>, k: usize) -> (r: Vec<String>)
    requires
        k <= v@.len(),
    ensures
        view_strings(r@) == view_strings(v@).take(k as int),
{
    let mut out: Vec<String> = Vec::new();
    let mut i: usize = 0;
    while i < k
        invariant
            i <= k <= v@.len(),
            view_strings(out@) == view_strings(v@).subrange(0, i as int),
        decreases k - i,
    {
        let ghost before = out@;
        out.push(v[i].clone());
        proof {
            assert(view_strings(out@) =~= view_strings(before).push(v@[i as int]@));
            assert(view_strings(v@).subrange(0, i + 1) =~= view_strings(v@).subrange(0, i as int).push(v@[i as int]@));
        }
        i = i + 1;
    }
    out
}

/// The terms of `v` from position `k` on.
fn drop_terms(v: &Vec<CicTerm>, k: usize) -> (r: Vec<CicTerm>)
    requires
        k <= v@.len(),
    ensures
        view_seq(r@) == view_seq(v@).skip(k as int),
{
    let mut out: Vec<CicTerm> = Vec::new();
    let mut i: usize = k;
    while i < v.len()
        invariant
            k <= i <= v@.len(),
            view_seq(out@) == view_seq(v@).subrange(k as int, i as int),
        decreases v@.len() - i,
    {
        let ghost before = out@;
        out.push(copy_term(&v[i]));
        proof {
            assert(view_seq(out@) =~= view_seq(before).push(v@[i as int]@));
            assert(view_seq(v@).subrange(k as int, i + 1) =~= view_seq(v@).subrange(k as int, i as int).push(v@[i as int]@));
        }
        i = i + 1;
    }
    out
}

/// A pair of binders and body is the modelled one.
pub open spec fn binders_result_is(
    r: Result<(Vec<(String, CicTerm)>, CicTerm), LofError>,
    s: Result<(Seq<(Seq<char>, Term)>, Term), Seq<char>>,
) -> bool {
    match s {
        Ok(p) => r matches Ok(x) && view_named(x.0@) == p.0 && x.1@ == p.1,
        Err(m) => r matches Err(LofError::Other(msg)) && msg@ == m,
    }
}

/// Transports `term` across `config` (see [`spec_transport`]): every
/// constructor of the source type becomes its `dep_constr` image, its
/// eliminator becomes `dep_elim`, lifted names are renamed, and a raw
/// `match` over the source type is refused. `type_of` stands for the type
/// checker, asked for the type of a `match` scrutinee that is not a
/// variable.
fn transport_term_by<F: Fn(&CicTerm) -> Option<CicTerm>>(
    environment: &Environment,
    config: &EquivConfig,
    term: &CicTerm,
    type_of: &F,
) -> (r: Result<CicTerm, LofError>)
    requires
        forall|t: &CicTerm| call_requires(*type_of, (t,)),
    ensures
        forall|typer: spec_fn(Term) -> Option<Term>|
            typer_agrees(*type_of, typer) ==> result_is(
                r,
                spec_transport(environment@, config@, term@, Seq::empty(), typer),
            ),
{
    let mut known: Vec<(String, CicTerm)> = Vec::new();
    proof {
        assert(view_named(known@) =~= Seq::<(Seq<char>, Term)>::empty());
    }
    transport_term_inner(environment, config, term, &mut known, type_of)
}

/// The binders of a minor premise for the first `n` constructor arguments
/// (see [`spec_premise_binders`]).
fn premise_binders<F: Fn(&CicTerm) -> Option<CicTerm>>(
    environment: &Environment,
    config: &EquivConfig,
    fun_name: &str,
    names: &Vec<String>,
    types: &Vec<CicTerm>,
    body: CicTerm,
    final_type: &CicTerm,
    type_of: &F,
    n: usize,
) -> (r: Result<(Vec<(String, CicTerm)>, CicTerm), LofError>)
    requires
        n <= names@.len(),
        n <= types@.len(),
        forall|t: &CicTerm| call_requires(*type_of, (t,)),
    ensures
        forall|typer: spec_fn(Term) -> Option<Term>|
            typer_agrees(*type_of, typer) ==> binders_result_is(
                r,
                spec_premise_binders(
                    environment@,
                    config@,
                    fun_name@,
                    view_strings(names@),
                    view_seq(types@),
                    body@,
                    final_type@,
                    typer,
                    n as nat,
                ),
            ),
{
    let ghost vn = view_strings(names@);
    let ghost vt = view_seq(types@);
    let ghost b0 = body@;
    let mut binders: Vec<(String, CicTerm)> = Vec::new();
    let mut current = body;
    let mut j: usize = 0;
    proof {
        assert(view_named(binders@) =~= Seq::<(Seq<char>, Term)>::empty());
    }
    while j < n
        invariant
            j <= n,
            n <= names@.len(),
            n <= types@.len(),
            vn == view_strings(names@),
            vt == view_seq(types@),
            b0 == body@,
            forall|t: &CicTerm| call_requires(*type_of, (t,)),
            forall|typer: spec_fn(Term) -> Option<Term>|
                typer_agrees(*type_of, typer) ==> spec_premise_binders(
                    environment@,
                    config@,
                    fun_name@,
                    vn,
                    vt,
                    b0,
                    final_type@,
                    typer,
                    j as nat,
                ) == Ok::<(Seq<(Seq<char>, Term)>, Term), Seq<char>>((view_named(binders@), current@)),
        decreases n - j,
    {
        assert(vn[j as int] == names@[j as int]@);
        assert(vt[j as int] == types@[j as int]@);
        let transported = match transport_term_by(environment, config, &types[j], type_of) {
            Ok(x) => x,
            Err(e) => {
                proof {
                    assert forall|typer: spec_fn(Term) -> Option<Term>| typer_agrees(*type_of, typer) implies binders_result_is(
                        Err(e),
                        spec_premise_binders(environment@, config@, fun_name@, vn, vt, b0, final_type@, typer, n as nat),
                    ) by {
                        assert(spec_premise_binders(
                            environment@,
                            config@,
                            fun_name@,
                            vn,
                            vt,
                            b0,
                            final_type@,
                            typer,
                            (j + 1) as nat,
                        ) is Err);
                        lemma_binders_failure_stays(
                            environment@,
                            config@,
                            fun_name@,
                            vn,
                            vt,
                            b0,
                            final_type@,
                            typer,
                            (j + 1) as nat,
                            n as nat,
                        );
                    }
                }
                return Err(e);
            },
        };
        let ghost before = binders@;
        binders.push((names[j].clone(), transported));
        proof {
            assert(view_named(binders@) =~= view_named(before).push((vn[j as int], transported@)));
        }
        if is_instance_of(&types[j], config.type_a.as_str()) {
            let ih = concat("ih_", names[j].as_str());
            current = replace_self_call(&current, fun_name, names[j].as_str(), ih.as_str());
            let ghost mid = binders@;
            binders.push((ih, copy_term(final_type)));
            proof {
                assert(view_named(binders@) =~= view_named(mid).push(("ih_"@ + vn[j as int], final_type@)));
            }
        }
        j = j + 1;
    }
    Ok((binders, current))
}

/// Builds the `dep_elim` minor premise for the constructor `ctor_name` from
/// its branch among `branches` (see [`spec_minor_premise`]).
fn build_minor_premise<F: Fn(&CicTerm) -> Option<CicTerm>>(
    environment: &Environment,
    config: &EquivConfig,
    fun_name: &str,
    branches: &Vec<(CicTerm, CicTerm)>,
    ctor_name: &str,
    ctor_type: &CicTerm,
    final_result_type: &CicTerm,
    param_count: usize,
    param_values: &Vec<CicTerm>,
    type_of: &F,
) -> (r: Result<CicTerm, LofError>)
    requires
        forall|t: &CicTerm| call_requires(*type_of, (t,)),
    ensures
        forall|typer: spec_fn(Term) -> Option<Term>|
            typer_agrees(*type_of, typer) ==> result_is(
                r,
                spec_minor_premise(
                    environment@,
                    config@,
                    fun_name@,
                    view_branches(branches@),
                    ctor_name@,
                    ctor_type@,
                    final_result_type@,
                    param_count as nat,
                    view_seq(param_values@),
                    typer,
                ),
            ),
{
    let i = match find_branch(branches, ctor_name) {
        Some(i) => i,
        None => {
            let mut m = String::from_str("transport: fun '");
            m.append(fun_name);
            m.append("' has no branch for constructor '");
            m.append(ctor_name);
            m.append("'");
            return Err(LofError::custom(m.as_str()));
        },
    };
    proof {
        assert(view_branches(branches@)[i as int] == (branches@[i as int].0@, branches@[i as int].1@));
    }
    let pattern_args = application_args(&branches[i].0);
    let names = var_names(&pattern_args);
    let types = crate::cic::utils::get_arg_types(ctor_type);
    let skipped = if param_count <= names.len() {
        param_count
    } else {
        names.len()
    };
    let c1 = if skipped <= param_values.len() {
        skipped
    } else {
        param_values.len()
    };
    let body = match subst_pairs(&branches[i].1, &names, param_values, c1) {
        Some(b) => b,
        None => {
            return Err(LofError::custom("transport: de Bruijn index out of range"));
        },
    };
    let names2 = drop_strings(&names, skipped);
    let types2 = if types.len() >= skipped {
        drop_terms(&types, skipped)
    } else {
        types
    };
    let binder_names = get_binder_names(ctor_type);
    let pn = if param_count <= binder_names.len() {
        param_count
    } else {
        binder_names.len()
    };
    let param_names = take_strings(&binder_names, pn);
    let c2 = if param_names.len() <= param_values.len() {
        param_names.len()
    } else {
        param_values.len()
    };
    let types3 = match subst_each(&types2, &param_names, param_values, c2) {
        Some(v) => v,
        None => {
            return Err(LofError::custom("transport: de Bruijn index out of range"));
        },
    };
    let n = if names2.len() <= types3.len() {
        names2.len()
    } else {
        types3.len()
    };
    let (binders, body2) = match premise_binders(
        environment,
        config,
        fun_name,
        &names2,
        &types3,
        body,
        final_result_type,
        type_of,
        n,
    ) {
        Ok(p) => p,
        Err(e) => {
            return Err(e);
        },
    };
    let transported = match transport_term_by(environment, config, &body2, type_of) {
        Ok(x) => x,
        Err(e) => {
            return Err(e);
        },
    };
    Ok(wrap_abstractions(&binders, transported))
}

//########################### TRANSPORT OF DEFINITIONS

/// `scrutinee` is a binder around the `match` whose source type is the
/// source type of the equivalence: the `match` is the definition's
/// structural recursion.
pub open spec fn spec_is_recursion_match(cfg: EquivModel, scrutinee: Term, known: Seq<(Seq<char>, Term)>) -> bool {
    match scrutinee {
        Term::Var(name, _) => match spec_assoc(known, name) {
            Some(ty) => spec_is_instance_of(ty, cfg.type_a),
            None => false,
        },
        _ => false,
    }
}

/// The message for a source type without declared constructors.
pub open spec fn no_constructors_message(cfg: EquivModel) -> Seq<char> {
    "transport: no registered constructors for '"@ + cfg.type_a + "'"@
}

/// The message for a scrutinee whose type lacks some parameters.
pub open spec fn unsupplied_params_message(cfg: EquivModel, param_count: nat) -> Seq<char> {
    "transport: scrutinee of type '"@ + cfg.type_a + "' does not supply its "@ + spec_decimal(param_count)
        + " parameter(s)"@
}

/// The message for a scrutinee whose type is unknown.
pub open spec fn undetermined_params_message(cfg: EquivModel) -> Seq<char> {
    "transport: cannot determine the parameters of '"@ + cfg.type_a + "' for this match"@
}

/// The values of the `param_count` parameters of the source type, read
/// off the declared type of `scrutinee`.
pub open spec fn spec_param_values(
    cfg: EquivModel,
    scrutinee: Term,
    known: Seq<(Seq<char>, Term)>,
    param_count: nat,
) -> Result<Seq<Term>, Seq<char>> {
    let declared = match scrutinee {
        Term::Var(name, _) => spec_assoc(known, name),
        _ => None,
    };
    match declared {
        Some(d) => {
            let applied = spec_application_args(d);
            if applied.len() < param_count {
                Err(unsupplied_params_message(cfg, param_count))
            } else {
                Ok(applied.take(param_count as int))
            }
        },
        None => if param_count == 0 {
            Ok(Seq::empty())
        } else {
            Err(undetermined_params_message(cfg))
        },
    }
}

/// The first `n` terms of `ts`, each transported, or the first failure.
pub open spec fn spec_transport_all(
    env: EnvModel,
    cfg: EquivModel,
    ts: Seq<Term>,
    known: Seq<(Seq<char>, Term)>,
    typer: spec_fn(Term) -> Option<Term>,
    n: nat,
) -> Result<Seq<Term>, Seq<char>>
    decreases n,
{
    if n == 0 || n > ts.len() {
        Ok(Seq::empty())
    } else {
        match spec_transport_all(env, cfg, ts, known, typer, (n - 1) as nat) {
            Err(e) => Err(e),
            Ok(prev) => match spec_transport(env, cfg, ts[n - 1], known, typer) {
                Err(e) => Err(e),
                Ok(x) => Ok(prev.push(x)),
            },
        }
    }
}

/// The minor premises for the first `n` constructors `ctors`, or the
/// first failure.
pub open spec fn spec_premises(
    env: EnvModel,
    cfg: EquivModel,
    fun_name: Seq<char>,
    bs: Seq<(Term, Term)>,
    ctors: Seq<(Seq<char>, Term)>,
    final_type: Term,
    param_count: nat,
    values: Seq<Term>,
    typer: spec_fn(Term) -> Option<Term>,
    n: nat,
) -> Result<Seq<Term>, Seq<char>>
    decreases n,
{
    if n == 0 || n > ctors.len() {
        Ok(Seq::empty())
    } else {
        match spec_premises(env, cfg, fun_name, bs, ctors, final_type, param_count, values, typer, (n - 1) as nat) {
            Err(e) => Err(e),
            Ok(prev) => match spec_minor_premise(
                env,
                cfg,
                fun_name,
                bs,
                ctors[n - 1].0,
                ctors[n - 1].1,
                final_type,
                param_count,
                values,
                typer,
            ) {
                Err(e) => Err(e),
                Ok(x) => Ok(prev.push(x)),
            },
        }
    }
}

/// The structural recursion `match scrutinee with bs` of the definition
/// `fun_name : new_type`, as an application of `dep_elim` to the
/// transported parameters, the motive, a minor premise per constructor and
/// the transported scrutinee.
pub open spec fn spec_recursion_to_elim(
    env: EnvModel,
    cfg: EquivModel,
    fun_name: Seq<char>,
    new_type: Term,
    scrutinee: Term,
    bs: Seq<(Term, Term)>,
    known: Seq<(Seq<char>, Term)>,
    typer: spec_fn(Term) -> Option<Term>,
) -> Result<Term, Seq<char>> {
    let final_type = spec_prod_innermost(new_type);
    match spec_assoc(env.constructors, cfg.type_a) {
        None => Err(no_constructors_message(cfg)),
        Some(ctors) => {
            let param_count: nat = match spec_assoc(env.param_counts, cfg.type_a) {
                Some(c) => c as nat,
                None => 0,
            };
            match spec_param_values(cfg, scrutinee, known, param_count) {
                Err(e) => Err(e),
                Ok(values) => match spec_transport_all(env, cfg, values, known, typer, values.len()) {
                    Err(e) => Err(e),
                    Ok(tvalues) => match spec_premises(
                        env,
                        cfg,
                        fun_name,
                        bs,
                        ctors,
                        final_type,
                        param_count,
                        tvalues,
                        typer,
                        ctors.len(),
                    ) {
                        Err(e) => Err(e),
                        Ok(premises) => {
                            let motive = Term::Abs(
                                "_transported_scrutinee"@,
                                Box::new(spec_apply_args(Term::Var(cfg.type_b, NameKind::Const()), tvalues)),
                                Box::new(final_type),
                            );
                            match spec_transport(env, cfg, scrutinee, known, typer) {
                                Err(e) => Err(e),
                                Ok(ts) => Ok(spec_apply_args(cfg.dep_elim, tvalues.push(motive) + premises + seq![ts])),
                            }
                        },
                    },
                },
            }
        },
    }
}

/// The definition body `t` of `fun_name : new_type` transported across
/// `cfg`: through its λs, a structural recursion on a parameter of the
/// source type becomes a `dep_elim` application, and anything else is
/// transported as a term.
pub open spec fn spec_transport_definition(
    env: EnvModel,
    cfg: EquivModel,
    fun_name: Seq<char>,
    new_type: Term,
    t: Term,
    known: Seq<(Seq<char>, Term)>,
    typer: spec_fn(Term) -> Option<Term>,
) -> Result<Term, Seq<char>>
    decreases t,
{
    match t {
        Term::Abs(n, ty, body) => match spec_transport(env, cfg, *ty, known, typer) {
            Err(e) => Err(e),
            Ok(ty2) => match spec_transport_definition(env, cfg, fun_name, new_type, *body, known.push((n, *ty)), typer) {
                Err(e) => Err(e),
                Ok(body2) => Ok(Term::Abs(n, Box::new(ty2), Box::new(body2))),
            },
        },
        Term::Match(m, bs) => if spec_is_recursion_match(cfg, *m, known) {
            spec_recursion_to_elim(env, cfg, fun_name, new_type, *m, bs, known, typer)
        } else {
            spec_transport(env, cfg, t, known, typer)
        },
        _ => spec_transport(env, cfg, t, known, typer),
    }
}

/// A failure among the first `k` terms is the failure of every longer run.
pub proof fn lemma_all_failure_stays(
    env: EnvModel,
    cfg: EquivModel,
    ts: Seq<Term>,
    known: Seq<(Seq<char>, Term)>,
    typer: spec_fn(Term) -> Option<Term>,
    k: nat,
    n: nat,
)
    requires
        0 < k <= n <= ts.len(),
        spec_transport_all(env, cfg, ts, known, typer, k) is Err,
    ensures
        spec_transport_all(env, cfg, ts, known, typer, n) == spec_transport_all(env, cfg, ts, known, typer, k),
    decreases n - k,
{
    if n > k {
        lemma_all_failure_stays(env, cfg, ts, known, typer, k, (n - 1) as nat);
    }
}

/// A failure among the first `k` premises is the failure of every longer
/// run.
pub proof fn lemma_premises_failure_stays(
    env: EnvModel,
    cfg: EquivModel,
    fun_name: Seq<char>,
    bs: Seq<(Term, Term)>,
    ctors: Seq<(Seq<char>, Term)>,
    final_type: Term,
    param_count: nat,
    values: Seq<Term>,
    typer: spec_fn(Term) -> Option<Term>,
    k: nat,
    n: nat,
)
    requires
        0 < k <= n <= ctors.len(),
        spec_premises(env, cfg, fun_name, bs, ctors, final_type, param_count, values, typer, k) is Err,
    ensures
        spec_premises(env, cfg, fun_name, bs, ctors, final_type, param_count, values, typer, n) == spec_premises(
            env,
            cfg,
            fun_name,
            bs,
            ctors,
            final_type,
            param_count,
            values,
            typer,
            k,
        ),
    decreases n - k,
{
    if n > k {
        lemma_premises_failure_stays(env, cfg, fun_name, bs, ctors, final_type, param_count, values, typer, k, (n - 1) as nat);
    }
}

/// A list of terms is the modelled one.
pub open spec fn terms_result_is(r: Result<Vec<CicTerm>, LofError>, s: Result<Seq<Term>, Seq<char>>) -> bool {
    match s {
        Ok(ts) => r matches Ok(v) && view_seq(v@) == ts,
        Err(m) => r matches Err(LofError::Other(msg)) && msg@ == m,
    }
}

/// Each of `ts` transported, or the first failure.
fn transport_all<F: Fn(&CicTerm) -> Option<CicTerm>>(
    environment: &Environment,
    config: &EquivConfig,
    ts: &Vec<CicTerm>,
    known_params: &mut Vec<(String, CicTerm)>,
    type_of: &F,
) -> (r: Result<Vec<CicTerm>, LofError>)
    requires
        forall|t: &CicTerm| call_requires(*type_of, (t,)),
    ensures
        final(known_params)@ == old(known_params)@,
        forall|typer: spec_fn(Term) -> Option<Term>|
            typer_agrees(*type_of, typer) ==> terms_result_is(
                r,
                spec_transport_all(
                    environment@,
                    config@,
                    view_seq(ts@),
                    view_named(old(known_params)@),
                    typer,
                    ts@.len(),
                ),
            ),
{
    let ghost k0 = known_params@;
    let ghost vt = view_seq(ts@);
    let mut out: Vec<CicTerm> = Vec::new();
    proof {
        assert(view_seq(out@) =~= Seq::<Term>::empty());
    }
    let mut i: usize = 0;
    while i < ts.len()
        invariant
            i <= ts@.len(),
            vt == view_seq(ts@),
            known_params@ == k0,
            k0 == old(known_params)@,
            forall|t: &CicTerm| call_requires(*type_of, (t,)),
            forall|typer: spec_fn(Term) -> Option<Term>|
                typer_agrees(*type_of, typer) ==> spec_transport_all(environment@, config@, vt, view_named(k0), typer, i as nat)
                    == Ok::<Seq<Term>, Seq<char>>(view_seq(out@)),
        decreases ts@.len() - i,
    {
        assert(vt[i as int] == ts@[i as int]@);
        match transport_term_inner(environment, config, &ts[i], known_params, type_of) {
            Ok(x) => {
                let ghost before = out@;
                out.push(x);
                proof {
                    assert(view_seq(out@) =~= view_seq(before).push(x@));
                }
            },
            Err(e) => {
                proof {
                    assert forall|typer: spec_fn(Term) -> Option<Term>| typer_agrees(*type_of, typer) implies terms_result_is(
                        Err(e),
                        spec_transport_all(environment@, config@, vt, view_named(k0), typer, vt.len()),
                    ) by {
                        lemma_all_failure_stays(environment@, config@, vt, view_named(k0), typer, (i + 1) as nat, vt.len());
                    }
                }
                return Err(e);
            },
        }
        i = i + 1;
    }
    Ok(out)
}

/// The minor premise of each constructor of `ctors`, or the first failure.
fn build_premises<F: Fn(&CicTerm) -> Option<CicTerm>>(
    environment: &Environment,
    config: &EquivConfig,
    fun_name: &str,
    branches: &Vec<(CicTerm, CicTerm)>,
    ctors: &Vec<(String, CicTerm)>,
    final_type: &CicTerm,
    param_count: usize,
    values: &Vec<CicTerm>,
    type_of: &F,
) -> (r: Result<Vec<CicTerm>, LofError>)
    requires
        forall|t: &CicTerm| call_requires(*type_of, (t,)),
    ensures
        forall|typer: spec_fn(Term) -> Option<Term>|
            typer_agrees(*type_of, typer) ==> terms_result_is(
                r,
                spec_premises(
                    environment@,
                    config@,
                    fun_name@,
                    view_branches(branches@),
                    view_named(ctors@),
                    final_type@,
                    param_count as nat,
                    view_seq(values@),
                    typer,
                    ctors@.len(),
                ),
            ),
{
    let ghost vc = view_named(ctors@);
    let mut out: Vec<CicTerm> = Vec::new();
    proof {
        assert(view_seq(out@) =~= Seq::<Term>::empty());
    }
    let mut i: usize = 0;
    while i < ctors.len()
        invariant
            i <= ctors@.len(),
            vc == view_named(ctors@),
            forall|t: &CicTerm| call_requires(*type_of, (t,)),
            forall|typer: spec_fn(Term) -> Option<Term>|
                typer_agrees(*type_of, typer) ==> spec_premises(
                    environment@,
                    config@,
                    fun_name@,
                    view_branches(branches@),
                    vc,
                    final_type@,
                    param_count as nat,
                    view_seq(values@),
                    typer,
                    i as nat,
                ) == Ok::<Seq<Term>, Seq<char>>(view_seq(out@)),
        decreases ctors@.len() - i,
    {
        assert(vc[i as int] == (ctors@[i as int].0@, ctors@[i as int].1@));
        match build_minor_premise(
            environment,
            config,
            fun_name,
            branches,
            ctors[i].0.as_str(),
            &ctors[i].1,
            final_type,
            param_count,
            values,
            type_of,
        ) {
            Ok(x) => {
                let ghost before = out@;
                out.push(x);
                proof {
                    assert(view_seq(out@) =~= view_seq(before).push(x@));
                }
            },
            Err(e) => {
                proof {
                    assert forall|typer: spec_fn(Term) -> Option<Term>| typer_agrees(*type_of, typer) implies terms_result_is(
                        Err(e),
                        spec_premises(
                            environment@,
                            config@,
                            fun_name@,
                            view_branches(branches@),
                            vc,
                            final_type@,
                            param_count as nat,
                            view_seq(values@),
                            typer,
                            vc.len(),
                        ),
                    ) by {
                        lemma_premises_failure_stays(
                            environment@,
                            config@,
                            fun_name@,
                            view_branches(branches@),
                            vc,
                            final_type@,
                            param_count as nat,
                            view_seq(values@),
                            typer,
                            (i + 1) as nat,
                            vc.len(),
                        );
                    }
                }
                return Err(e);
            },
        }
        i = i + 1;
    }
    Ok(out)
}

/// The first `k` terms of `v`.
fn take_terms(v: &Vec<CicTerm>, k: usize) -> (r: Vec<CicTerm>)
    requires
        k <= v@.len(),
    ensures
        view_seq(r@) == view_seq(v@).take(k as int),
{
    let mut out: Vec<CicTerm> = Vec::new();
    let mut i: usize = 0;
    while i < k
        invariant
            i <= k <= v@.len(),
            view_seq(out@) == view_seq(v@).subrange(0, i as int),
        decreases k - i,
    {
        let ghost before = out@;
        out.push(copy_term(&v[i]));
        proof {
            assert(view_seq(out@) =~= view_seq(before).push(v@[i as int]@));
            assert(view_seq(v@).subrange(0, i + 1) =~= view_seq(v@).subrange(0, i as int).push(v@[i as int]@));
        }
        i = i + 1;
    }
    out
}

/// `front` followed by copies of `back`.
fn append_terms(front: Vec<CicTerm>, back: &Vec<CicTerm>) -> (r: Vec<CicTerm>)
    ensures
        view_seq(r@) == view_seq(front@) + view_seq(back@),
{
    let ghost f = view_seq(front@);
    let mut args = front;
    let mut i: usize = 0;
    while i < back.len()
        invariant
            i <= back@.len(),
            view_seq(args@) == f + view_seq(back@).subrange(0, i as int),
        decreases back@.len() - i,
    {
        let ghost before = args@;
        args.push(copy_term(&back[i]));
        proof {
            assert(view_seq(args@) =~= view_seq(before).push(back@[i as int]@));
            assert(f + view_seq(back@).subrange(0, i + 1) =~= (f + view_seq(back@).subrange(0, i as int)).push(
                back@[i as int]@,
            ));
        }
        i = i + 1;
    }
    proof {
        assert(view_seq(back@).subrange(0, back@.len() as int) =~= view_seq(back@));
    }
    args
}

/// The type a binder around the `match` declares for `scrutinee`, when it
/// is one of them.
fn scrutinee_declared_type(scrutinee: &CicTerm, known_params: &Vec<(String, CicTerm)>) -> (r: Option<CicTerm>)
    ensures
        view_opt_term(r) == match scrutinee@ {
            Term::Var(name, _) => spec_assoc(view_named(known_params@), name),
            _ => None,
        },
{
    match scrutinee {
        CicTerm::Variable(name, _) => match lookup_named(known_params, name.as_str()) {
            Some(entry) => Some(entry.1),
            None => None,
        },
        _ => None,
    }
}

/// The values of the parameters of the source type, read off the declared
/// type of `scrutinee` (see [`spec_param_values`]).
fn param_values_of(
    config: &EquivConfig,
    scrutinee: &CicTerm,
    known_params: &Vec<(String, CicTerm)>,
    param_count: usize,
) -> (r: Result<Vec<CicTerm>, LofError>)
    ensures
        terms_result_is(r, spec_param_values(config@, scrutinee@, view_named(known_params@), param_count as nat)),
{
    match scrutinee_declared_type(scrutinee, known_params) {
        Some(d) => {
            let applied = application_args(&d);
            if applied.len() < param_count {
                let count = decimal_u64(param_count as u64);
                let mut m = String::from_str("transport: scrutinee of type '");
                m.append(config.type_a.as_str());
                m.append("' does not supply its ");
                m.append(count.as_str());
                m.append(" parameter(s)");
                Err(LofError::custom(m.as_str()))
            } else {
                Ok(take_terms(&applied, param_count))
            }
        },
        None => {
            if param_count == 0 {
                let v: Vec<CicTerm> = Vec::new();
                proof {
                    assert(view_seq(v@) =~= Seq::<Term>::empty());
                }
                Ok(v)
            } else {
                let mut m = String::from_str("transport: cannot determine the parameters of '");
                m.append(config.type_a.as_str());
                m.append("' for this match");
                Err(LofError::custom(m.as_str()))
            }
        },
    }
}

/// The structural recursion `match scrutinee with branches` as a
/// `dep_elim` application (see [`spec_recursion_to_elim`]).
fn recursion_to_elim<F: Fn(&CicTerm) -> Option<CicTerm>>(
    environment: &Environment,
    config: &EquivConfig,
    fun_name: &str,
    new_type: &CicTerm,
    scrutinee: &CicTerm,
    branches: &Vec<(CicTerm, CicTerm)>,
    known_params: &mut Vec<(String, CicTerm)>,
    type_of: &F,
) -> (r: Result<CicTerm, LofError>)
    requires
        forall|t: &CicTerm| call_requires(*type_of, (t,)),
    ensures
        final(known_params)@ == old(known_params)@,
        forall|typer: spec_fn(Term) -> Option<Term>|
            typer_agrees(*type_of, typer) ==> result_is(
                r,
                spec_recursion_to_elim(
                    environment@,
                    config@,
                    fun_name@,
                    new_type@,
                    scrutinee@,
                    view_branches(branches@),
                    view_named(old(known_params)@),
                    typer,
                ),
            ),
{
    let final_result_type = copy_term(crate::cic::utils::get_prod_innermost(new_type));
    let constructors = match environment.get_constructor_signatures(config.type_a.as_str()) {
        Some(c) => c,
        None => {
            let mut m = String::from_str("transport: no registered constructors for '");
            m.append(config.type_a.as_str());
            m.append("'");
            return Err(LofError::custom(m.as_str()));
        },
    };
    let param_count = match environment.get_inductive_param_count(config.type_a.as_str()) {
        Some(c) => c,
        None => 0,
    };
    let param_values = match param_values_of(config, scrutinee, known_params, param_count) {
        Ok(v) => v,
        Err(e) => {
            return Err(e);
        },
    };
    let transported_params = match transport_all(environment, config, &param_values, known_params, type_of) {
        Ok(v) => v,
        Err(e) => {
            return Err(e);
        },
    };
    let premises = match build_premises(
        environment,
        config,
        fun_name,
        branches,
        &constructors,
        &final_result_type,
        param_count,
        &transported_params,
        type_of,
    ) {
        Ok(v) => v,
        Err(e) => {
            return Err(e);
        },
    };
    let params_copy = drop_terms(&transported_params, 0);
    proof {
        assert(view_seq(params_copy@) =~= view_seq(transported_params@));
    }
    let motive_domain = apply_arguments(&CicTerm::Variable(config.type_b.clone(), NameKind::Const()), params_copy);
    let motive = CicTerm::Abstraction(
        String::from_str("_transported_scrutinee"),
        Box::new(motive_domain),
        Box::new(final_result_type),
    );
    let transported_scrutinee = match transport_term_inner(environment, config, scrutinee, known_params, type_of) {
        Ok(x) => x,
        Err(e) => {
            return Err(e);
        },
    };
    let ghost tp = view_seq(transported_params@);
    let ghost mv = motive@;
    let ghost tsv = transported_scrutinee@;
    let mut args = transported_params;
    args.push(motive);
    proof {
        assert(view_seq(args@) =~= tp.push(mv));
    }
    let mut args = append_terms(args, &premises);
    let ghost mid = args@;
    args.push(transported_scrutinee);
    proof {
        assert(view_seq(args@) =~= view_seq(mid).push(tsv));
        assert(view_seq(args@) =~= tp.push(mv) + view_seq(premises@) + seq![tsv]);
    }
    let r = apply_arguments(&config.dep_elim, args);
    proof {
        let k0 = view_named(old(known_params)@);
        assert(view_named(known_params@) == k0);
        let cs = spec_assoc(environment@.constructors, config@.type_a);
        assert(cs == Some(view_named(constructors@)));
        assert(mv == Term::Abs(
            "_transported_scrutinee"@,
            Box::new(spec_apply_args(Term::Var(config@.type_b, NameKind::Const()), tp)),
            Box::new(spec_prod_innermost(new_type@)),
        ));
        assert forall|typer: spec_fn(Term) -> Option<Term>| typer_agrees(*type_of, typer) implies result_is(
            Ok(r),
            spec_recursion_to_elim(
                environment@,
                config@,
                fun_name@,
                new_type@,
                scrutinee@,
                view_branches(branches@),
                k0,
                typer,
            ),
        ) by {
            let pc: nat = param_count as nat;
            assert(spec_param_values(config@, scrutinee@, k0, pc) == Ok::<Seq<Term>, Seq<char>>(view_seq(param_values@)));
            assert(spec_transport_all(environment@, config@, view_seq(param_values@), k0, typer, view_seq(param_values@).len())
                == Ok::<Seq<Term>, Seq<char>>(tp));
            assert(spec_transport(environment@, config@, scrutinee@, k0, typer) == Ok::<Term, Seq<char>>(tsv));
        }
    }
    Ok(r)
}

/// Transports the body `term` of the definition `fun_name : new_type` (see
/// [`spec_transport_definition`]).
fn transport_definition_inner<F: Fn(&CicTerm) -> Option<CicTerm>>(
    environment: &Environment,
    config: &EquivConfig,
    fun_name: &str,
    new_type: &CicTerm,
    term: &CicTerm,
    known_params: &mut Vec<(String, CicTerm)>,
    type_of: &F,
) -> (r: Result<CicTerm, LofError>)
    requires
        forall|t: &CicTerm| call_requires(*type_of, (t,)),
    ensures
        final(known_params)@ == old(known_params)@,
        forall|typer: spec_fn(Term) -> Option<Term>|
            typer_agrees(*type_of, typer) ==> result_is(
                r,
                spec_transport_definition(
                    environment@,
                    config@,
                    fun_name@,
                    new_type@,
                    term@,
                    view_named(old(known_params)@),
                    typer,
                ),
            ),
    decreases term@,
{
    let ghost k0 = known_params@;
    match term {
        CicTerm::Abstraction(var_name, var_type, body) => {
            proof {
                let tv = term@;
                assert(decreases_to!(tv => tv->Abs_2));
            }
            let ty2 = match transport_term_inner(environment, config, var_type, known_params, type_of) {
                Ok(x) => x,
                Err(e) => {
                    return Err(e);
                },
            };
            known_params.push((var_name.clone(), copy_term(var_type)));
            proof {
                assert(view_named(known_params@) =~= view_named(k0).push((var_name@, var_type@)));
            }
            let body2 = transport_definition_inner(environment, config, fun_name, new_type, body, known_params, type_of);
            known_params.pop();
            proof {
                assert(known_params@ =~= k0);
            }
            match body2 {
                Ok(b) => Ok(CicTerm::Abstraction(var_name.clone(), Box::new(ty2), Box::new(b))),
                Err(e) => Err(e),
            }
        },
        CicTerm::Match(scrutinee, branches) => {
            proof {
                lemma_match_view(**scrutinee, *branches);
            }
            let is_recursion = match &**scrutinee {
                CicTerm::Variable(name, _) => match lookup_named(known_params, name.as_str()) {
                    Some(entry) => is_instance_of(&entry.1, config.type_a.as_str()),
                    None => false,
                },
                _ => false,
            };
            if !is_recursion {
                return transport_term_inner(environment, config, term, known_params, type_of);
            }
            recursion_to_elim(environment, config, fun_name, new_type, scrutinee, branches, known_params, type_of)
        },
        _ => transport_term_inner(environment, config, term, known_params, type_of),
    }
}

/// Transports the definition `fun_name : new_type := term` across
/// `config` (see [`spec_transport_definition`]): a body that recurses
/// structurally on a parameter of the source type through a `match`
/// becomes an application of `dep_elim`; any other body is transported as
/// a term. `type_of` stands for the type checker (see [`transport_term`]).
fn transport_definition_by<F: Fn(&CicTerm) -> Option<CicTerm>>(
    environment: &Environment,
    config: &EquivConfig,
    fun_name: &str,
    new_type: &CicTerm,
    term: &CicTerm,
    type_of: &F,
) -> (r: Result<CicTerm, LofError>)
    requires
        forall|t: &CicTerm| call_requires(*type_of, (t,)),
    ensures
        forall|typer: spec_fn(Term) -> Option<Term>|
            typer_agrees(*type_of, typer) ==> result_is(
                r,
                spec_transport_definition(environment@, config@, fun_name@, new_type@, term@, Seq::empty(), typer),
            ),
{
    let mut known: Vec<(String, CicTerm)> = Vec::new();
    proof {
        assert(view_named(known@) =~= Seq::<(Seq<char>, Term)>::empty());
    }
    transport_definition_inner(environment, config, fun_name, new_type, term, &mut known, type_of)
}

//########################### LAWS

/// Nothing in `t` is changed by transport across `cfg`: no occurrence of
/// the source type, of a lifted name or of the source type's eliminator,
/// no constant that is a constructor of the source type, and no `match`
/// whose scrutinee has the source type; `known` holds the binders around
/// `t` with their types.
pub open spec fn untouched(
    env: EnvModel,
    cfg: EquivModel,
    t: Term,
    known: Seq<(Seq<char>, Term)>,
    typer: spec_fn(Term) -> Option<Term>,
) -> bool
    decreases t,
{
    match t {
        Term::Var(name, k) => {
            &&& name != cfg.type_a
            &&& spec_assoc(cfg.lifted_names, name) is None
            &&& name != "e_"@ + cfg.type_a
            &&& !(k == NameKind::Const() && spec_is_constructor_of(env, cfg.type_a, name))
        },
        Term::Abs(n, ty, b) => untouched(env, cfg, *ty, known, typer) && untouched(env, cfg, *b, known.push((n, *ty)), typer),
        Term::Prod(n, ty, b) => untouched(env, cfg, *ty, known, typer) && untouched(env, cfg, *b, known.push((n, *ty)), typer),
        Term::Let(_, ty, b, sc) => {
            &&& match ty {
                Some(x) => untouched(env, cfg, *x, known, typer),
                None => true,
            }
            &&& untouched(env, cfg, *b, known, typer)
            &&& untouched(env, cfg, *sc, known, typer)
        },
        Term::App(l, r) => untouched(env, cfg, *l, known, typer) && untouched(env, cfg, *r, known, typer),
        Term::Match(m, bs) => {
            &&& !spec_is_type_a_scrutinee(env, cfg, *m, known, typer)
            &&& untouched(env, cfg, *m, known, typer)
            &&& forall|i: int|
                0 <= i < bs.len() ==> untouched(env, cfg, (#[trigger] bs[i]).0, known, typer) && untouched(
                    env,
                    cfg,
                    bs[i].1,
                    known,
                    typer,
                )
        },
        _ => true,
    }
}

/// An application spine is its head applied to its arguments.
pub proof fn lemma_spine_reassembles(t: Term)
    ensures
        spec_apply_args(spec_applied_function(t), spec_application_args(t)) == t,
    decreases t,
{
    match t {
        Term::App(l, r) => {
            lemma_spine_reassembles(*l);
            let args = spec_application_args(t);
            assert(args.drop_last() =~= spec_application_args(*l));
        },
        _ => {},
    }
}

/// The head and the arguments of an untouched application are untouched.
pub proof fn lemma_untouched_spine(
    env: EnvModel,
    cfg: EquivModel,
    t: Term,
    known: Seq<(Seq<char>, Term)>,
    typer: spec_fn(Term) -> Option<Term>,
)
    requires
        untouched(env, cfg, t, known, typer),
    ensures
        untouched(env, cfg, spec_applied_function(t), known, typer),
        forall|i: int|
            0 <= i < spec_application_args(t).len() ==> untouched(
                env,
                cfg,
                #[trigger] spec_application_args(t)[i],
                known,
                typer,
            ),
    decreases t,
{
    match t {
        Term::App(l, r) => {
            lemma_untouched_spine(env, cfg, *l, known, typer);
            let args = spec_application_args(t);
            assert forall|i: int| 0 <= i < args.len() implies untouched(env, cfg, #[trigger] args[i], known, typer) by {
                if i < args.len() - 1 {
                    assert(args[i] == spec_application_args(*l)[i]);
                }
            }
        },
        _ => {},
    }
}

/// Transport leaves an untouched term as it is.
pub proof fn law_transport_keeps_untouched(
    env: EnvModel,
    cfg: EquivModel,
    t: Term,
    known: Seq<(Seq<char>, Term)>,
    typer: spec_fn(Term) -> Option<Term>,
)
    requires
        untouched(env, cfg, t, known, typer),
    ensures
        spec_transport(env, cfg, t, known, typer) == Ok::<Term, Seq<char>>(t),
    decreases t, 2int, 0nat,
{
    match t {
        Term::Abs(n, ty, b) => {
            law_transport_keeps_untouched(env, cfg, *ty, known, typer);
            law_transport_keeps_untouched(env, cfg, *b, known.push((n, *ty)), typer);
        },
        Term::Prod(n, ty, b) => {
            law_transport_keeps_untouched(env, cfg, *ty, known, typer);
            law_transport_keeps_untouched(env, cfg, *b, known.push((n, *ty)), typer);
        },
        Term::Let(_, ty, b, sc) => {
            match ty {
                Some(x) => law_transport_keeps_untouched(env, cfg, *x, known, typer),
                None => {},
            }
            law_transport_keeps_untouched(env, cfg, *b, known, typer);
            law_transport_keeps_untouched(env, cfg, *sc, known, typer);
        },
        Term::App(_, _) => {
            let args = spec_application_args(t);
            lemma_untouched_spine(env, cfg, t, known, typer);
            lemma_untouched_args(env, cfg, t, known, typer, args.len());
            assert(args.take(args.len() as int) =~= args);
            lemma_head_smaller(t);
            law_transport_keeps_untouched(env, cfg, spec_applied_function(t), known, typer);
            lemma_spine_reassembles(t);
        },
        Term::Match(m, bs) => {
            law_transport_keeps_untouched(env, cfg, *m, known, typer);
            lemma_untouched_branches(env, cfg, t, known, typer, bs.len());
            assert(bs.take(bs.len() as int) =~= bs);
        },
        _ => {},
    }
}

/// The first `n` arguments of an untouched application transport to
/// themselves.
pub proof fn lemma_untouched_args(
    env: EnvModel,
    cfg: EquivModel,
    t: Term,
    known: Seq<(Seq<char>, Term)>,
    typer: spec_fn(Term) -> Option<Term>,
    n: nat,
)
    requires
        untouched(env, cfg, t, known, typer),
        n <= spec_application_args(t).len(),
    ensures
        spec_transport_args(env, cfg, t, known, typer, n) == Ok::<Seq<Term>, Seq<char>>(
            spec_application_args(t).take(n as int),
        ),
    decreases t, 1int, n,
{
    let args = spec_application_args(t);
    if n == 0 {
        assert(args.take(0) =~= Seq::<Term>::empty());
    } else {
        lemma_untouched_args(env, cfg, t, known, typer, (n - 1) as nat);
        lemma_untouched_spine(env, cfg, t, known, typer);
        lemma_arg_smaller(t, n - 1);
        law_transport_keeps_untouched(env, cfg, args[n - 1], known, typer);
        assert(args.take(n as int) =~= args.take(n - 1).push(args[n - 1]));
    }
}

/// The first `n` branches of an untouched `match` transport to themselves.
pub proof fn lemma_untouched_branches(
    env: EnvModel,
    cfg: EquivModel,
    t: Term,
    known: Seq<(Seq<char>, Term)>,
    typer: spec_fn(Term) -> Option<Term>,
    n: nat,
)
    requires
        t is Match,
        untouched(env, cfg, t, known, typer),
        n <= t->Match_1.len(),
    ensures
        spec_transport_branches(env, cfg, t, known, typer, n) == Ok::<Seq<(Term, Term)>, Seq<char>>(
            t->Match_1.take(n as int),
        ),
    decreases t, 1int, n,
{
    let bs = t->Match_1;
    if n == 0 {
        assert(bs.take(0) =~= Seq::<(Term, Term)>::empty());
    } else {
        lemma_untouched_branches(env, cfg, t, known, typer, (n - 1) as nat);
        assert(decreases_to!(t => t->Match_1));
        assert(decreases_to!(bs => bs[n - 1]));
        assert(untouched(env, cfg, bs[n - 1].0, known, typer));
        law_transport_keeps_untouched(env, cfg, bs[n - 1].0, known, typer);
        law_transport_keeps_untouched(env, cfg, bs[n - 1].1, known, typer);
        assert(bs.take(n as int) =~= bs.take(n - 1).push(bs[n - 1]));
    }
}

/// The type checker of the kernel, as transport asks it: the type of a term
/// in `environment`, `None` when it has none.
pub open spec fn kernel_typer(environment: EnvModel) -> spec_fn(Term) -> Option<Term> {
    |t: Term| spec_type_of(environment, t)
}

/// Transports `term` across `config` (see [`spec_transport`]), the type of
/// a `match` scrutinee that is not a bound parameter being the one the
/// kernel's type checker gives in `environment`.
pub fn transport_term(environment: &Environment, config: &EquivConfig, term: &CicTerm) -> (r: Result<CicTerm, LofError>)
    ensures
        result_is(r, spec_transport(environment@, config@, term@, Seq::empty(), kernel_typer(environment@))),
{
    let env_copy = environment.clone();
    let type_of = |t: &CicTerm| -> (r: Option<CicTerm>)
        ensures
            view_opt_term(r) == spec_type_of(env_copy@, t@),
        {
            let mut e = env_copy.clone();
            match type_check_term(t, &mut e) {
                Ok(x) => Some(x),
                Err(_) => None,
            }
        };
    let r = transport_term_by(environment, config, term, &type_of);
    proof {
        assert(typer_agrees(type_of, kernel_typer(environment@)));
    }
    r
}

/// Transports the definition `term` of `fun_name` across `config` (see
/// [`spec_transport_definition`]), the kernel's type checker in
/// `environment` typing `match` scrutinees.
pub fn transport_definition(
    environment: &Environment,
    config: &EquivConfig,
    fun_name: &str,
    new_type: &CicTerm,
    term: &CicTerm,
) -> (r: Result<CicTerm, LofError>)
    ensures
        result_is(
            r,
            spec_transport_definition(
                environment@,
                config@,
                fun_name@,
                new_type@,
                term@,
                Seq::empty(),
                kernel_typer(environment@),
            ),
        ),
{
    let env_copy = environment.clone();
    let type_of = |t: &CicTerm| -> (r: Option<CicTerm>)
        ensures
            view_opt_term(r) == spec_type_of(env_copy@, t@),
        {
            let mut e = env_copy.clone();
            match type_check_term(t, &mut e) {
                Ok(x) => Some(x),
                Err(_) => None,
            }
        };
    let r = transport_definition_by(environment, config, fun_name, new_type, term, &type_of);
    proof {
        assert(typer_agrees(type_of, kernel_typer(environment@)));
    }
    r
}

} // verus!
