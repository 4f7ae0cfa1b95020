//! Reduction of terms of the calculus: pattern matching of `match`
//! branches and ι-reduction of eliminator applications.

use vstd::prelude::*;
use crate::cic::bounds::{subst_fits, try_substitute};
use crate::cic::eliminator::{eliminator_defined, inductive_eliminator, spec_eliminator};
use crate::cic::elaboration::{index_variables, spec_index};
use crate::cic::environment::{EnvModel, Environment};
use crate::cic::assoc::spec_assoc;
use crate::commons::transport::copy_named;
use crate::error::LofError;
use crate::cic::model::{
    spec_application_args, spec_applied_function, spec_apply_args, spec_is_instance_of, spec_multiarg_fun_type,
    spec_rename, spec_subst,
};
use crate::cic::term::{copy_term, term_eq, view_named, view_seq, CicTerm, NameKind, Term};
use crate::cic::utils::{application_args, apply_arguments, get_applied_function, is_instance_of, make_multiarg_fun_type, substitute};
use crate::text::{concat, spec_starts_with, starts_with, str_eq};

verus! {

//########################### PATTERN MATCHING

/// `term` matches `pattern`: the same head, applied to as many arguments.
pub open spec fn spec_matches_pattern(term: Term, pattern: Term) -> bool {
    spec_applied_function(term) == spec_applied_function(pattern) && spec_application_args(term).len()
        == spec_application_args(pattern).len()
}

/// Whether `term` matches `pattern` (see [`spec_matches_pattern`]).
pub fn matches_pattern(term: &CicTerm, pattern: &CicTerm) -> (r: bool)
    ensures
        r == spec_matches_pattern(term@, pattern@),
{
    let used = get_applied_function(term);
    let constructor = get_applied_function(pattern);
    let actual_args = application_args(term);
    let formal_args = application_args(pattern);
    term_eq(&used, &constructor) && actual_args.len() == formal_args.len()
}

/// Each argument of an application spine is smaller than the spine.
pub proof fn lemma_args_smaller(t: Term, i: int)
    requires
        0 <= i < spec_application_args(t).len(),
    ensures
        decreases_to!(t => spec_application_args(t)[i]),
    decreases t,
{
    match t {
        Term::App(l, r) => {
            let args = spec_application_args(t);
            if i < args.len() - 1 {
                assert(args[i] == spec_application_args(*l)[i]);
                lemma_args_smaller(*l, i);
                assert(decreases_to!(t => *l));
            }
        },
        _ => {},
    }
}

/// `body` with the variables of the first `n` arguments of `pattern` bound
/// to the arguments of `term` at the same place, left to right; an argument
/// that is itself an application binds the variables of its own arguments.
pub open spec fn spec_bind_pattern(term: Term, pattern: Term, body: Term, n: nat) -> Term
    decreases pattern, 0int, n,
{
    let formal = spec_application_args(pattern);
    let actual = spec_application_args(term);
    if n == 0 || n > formal.len() || n > actual.len() {
        body
    } else {
        proof {
            lemma_args_smaller(pattern, n - 1);
        }
        spec_bind_pattern_arg(formal[n - 1], actual[n - 1], spec_bind_pattern(term, pattern, body, (n - 1) as nat))
    }
}

/// `body` with what the pattern argument `formal` binds taken from `actual`.
pub open spec fn spec_bind_pattern_arg(formal: Term, actual: Term, body: Term) -> Term
    decreases formal, 1int, 0nat,
{
    match formal {
        Term::Var(n, _) => spec_rename(body, n, actual),
        Term::App(_, _) => spec_bind_pattern(
            actual,
            formal,
            body,
            spec_pairs(actual, formal),
        ),
        _ => body,
    }
}

/// The number of argument pairs of `term` and `pattern`.
pub open spec fn spec_pairs(term: Term, pattern: Term) -> nat {
    let f = spec_application_args(pattern).len();
    let a = spec_application_args(term).len();
    if f < a {
        f
    } else {
        a
    }
}

/// Given the matched `term` and the `pattern`, puts in `body` the
/// arguments of `term` in place of the pattern variables they stand for
/// (see [`spec_bind_pattern`]).
pub fn substitute_pattern_variables(term: &CicTerm, pattern: &CicTerm, body: &CicTerm) -> (r: CicTerm)
    ensures
        r@ == spec_bind_pattern(term@, pattern@, body@, spec_pairs(term@, pattern@)),
    decreases pattern@, 0int, 0nat,
{
    let actual_args = application_args(term);
    let formal_args = application_args(pattern);
    let ghost actual = spec_application_args(term@);
    let ghost formal = spec_application_args(pattern@);
    let n = if formal_args.len() < actual_args.len() { formal_args.len() } else { actual_args.len() };
    let mut bound_body = crate::cic::term::copy_term(body);
    let mut i: usize = 0;
    while i < n
        invariant
            i <= n,
            n == spec_pairs(term@, pattern@),
            view_seq(actual_args@) == actual,
            view_seq(formal_args@) == formal,
            actual == spec_application_args(term@),
            formal == spec_application_args(pattern@),
            bound_body@ == spec_bind_pattern(term@, pattern@, body@, i as nat),
        decreases n - i,
    {
        proof {
            lemma_args_smaller(pattern@, i as int);
            assert(formal_args@[i as int]@ == formal[i as int]);
            assert(actual_args@[i as int]@ == actual[i as int]);
        }
        bound_body = substitute_pattern_arg(&formal_args[i], &actual_args[i], &bound_body);
        i = i + 1;
    }
    bound_body
}

/// `body` with what the pattern argument `formal` binds taken from
/// `actual` (see [`spec_bind_pattern_arg`]).
pub fn substitute_pattern_arg(formal_arg: &CicTerm, actual_arg: &CicTerm, body: &CicTerm) -> (r: CicTerm)
    ensures
        r@ == spec_bind_pattern_arg(formal_arg@, actual_arg@, body@),
    decreases formal_arg@, 1int, 0nat,
{
    match formal_arg {
        CicTerm::Variable(var_name, _) => substitute(body, var_name.as_str(), actual_arg),
        CicTerm::Application(_, _) => substitute_pattern_variables(actual_arg, formal_arg, body),
        _ => crate::cic::term::copy_term(body),
    }
}

//########################### IOTA REDUCTION

/// The place of the first constructor named `name`, if any.
pub open spec fn spec_position(ctors: Seq<(Seq<char>, Term)>, name: Seq<char>) -> Option<int>
    decreases ctors.len(),
{
    if ctors.len() == 0 {
        None
    } else {
        match spec_position(ctors.drop_last(), name) {
            Some(i) => Some(i),
            None => if ctors.last().0 == name {
                Some(ctors.len() - 1)
            } else {
                None
            },
        }
    }
}

/// The constructor type `ty` instantiated with `supplied`, one product at a
/// time: the domains met, and the type left; `None` when `ty` has fewer
/// products than arguments, or an instantiation would take De Bruijn
/// indices out of the range of `i32`.
pub open spec fn spec_peel(ty: Term, supplied: Seq<Term>) -> Option<(Seq<Term>, Term)>
    decreases supplied.len(),
{
    if supplied.len() == 0 {
        Some((Seq::empty(), ty))
    } else {
        match spec_peel(ty, supplied.drop_last()) {
            Some((doms, rest)) => match rest {
                Term::Prod(binder, domain, codomain) => if subst_fits(*codomain, supplied.last()) {
                    Some((doms.push(*domain), spec_subst(*codomain, binder, supplied.last(), 0)))
                } else {
                    None
                },
                _ => None,
            },
            None => None,
        }
    }
}

/// `reduced` applied to the first `n` of `own_args`, each argument whose
/// type is an instance of `ind` followed by its inductive hypothesis: the
/// eliminator `elim` applied to `leading`, to the indices of that instance
/// (its arguments past the `pc` parameters) and to the argument.
pub open spec fn spec_iota_fold(
    reduced: Term,
    own_args: Seq<Term>,
    own_types: Seq<Term>,
    n: nat,
    ind: Seq<char>,
    pc: nat,
    leading: Seq<Term>,
    elim: Seq<char>,
) -> Option<Term>
    decreases n,
{
    if n == 0 {
        Some(reduced)
    } else {
        match spec_iota_fold(reduced, own_args, own_types, (n - 1) as nat, ind, pc, leading, elim) {
            Some(r) => {
                let arg = own_args[n - 1];
                let ty = own_types[n - 1];
                let applied = Term::App(Box::new(r), Box::new(arg));
                if spec_is_instance_of(ty, ind) {
                    let occurrence = spec_application_args(ty);
                    if occurrence.len() < pc {
                        None
                    } else {
                        let hypothesis = spec_apply_args(
                            Term::Var(elim, NameKind::Const()),
                            leading + occurrence.skip(pc as int) + seq![arg],
                        );
                        Some(Term::App(Box::new(applied), Box::new(hypothesis)))
                    }
                } else {
                    Some(applied)
                }
            },
            None => None,
        }
    }
}

/// ι-reduction of a fully applied eliminator `e_<T>(params.., motive,
/// case_1..case_k, instance)` whose instance is a constructor application
/// `ctor_i(params.., args..)`: `case_i` applied to those arguments, each
/// recursive one followed by its inductive hypothesis. `None` when `t` is
/// no such application, or the constructor's type does not fit its
/// arguments.
pub open spec fn spec_iota(env: EnvModel, t: Term) -> Option<Term> {
    match spec_applied_function(t) {
        Term::Var(elim, kind) => if kind == NameKind::Const() && spec_starts_with(elim, "e_"@) {
            let ind = elim.skip(2);
            match spec_assoc(env.param_counts, ind) {
                Some(pc) => match spec_assoc(env.constructors, ind) {
                    Some(ctors) => {
                        let args = spec_application_args(t);
                        let cc = ctors.len();
                        if args.len() < pc + cc + 2 {
                            None
                        } else {
                            let instance = args.last();
                            match spec_applied_function(instance) {
                                Term::Var(ctor, ctor_kind) => if ctor_kind == NameKind::Const() {
                                    let instance_args = spec_application_args(instance);
                                    if instance_args.len() < pc {
                                        None
                                    } else {
                                        match spec_position(ctors, ctor) {
                                            Some(ci) => match spec_peel(ctors[ci].1, instance_args) {
                                                Some((types, _)) => spec_iota_fold(
                                                    args[pc + 1 + ci],
                                                    instance_args.skip(pc as int),
                                                    types.skip(pc as int),
                                                    (instance_args.len() - pc) as nat,
                                                    ind,
                                                    pc as nat,
                                                    args.subrange(0, pc + 1 + cc),
                                                    elim,
                                                ),
                                                None => None,
                                            },
                                            None => None,
                                        }
                                    }
                                } else {
                                    None
                                },
                                _ => None,
                            }
                        }
                    },
                    None => None,
                },
                None => None,
            }
        } else {
            None
        },
        _ => None,
    }
}

proof fn lemma_position(ctors: Seq<(Seq<char>, Term)>, name: Seq<char>)
    ensures
        match spec_position(ctors, name) {
            Some(i) => 0 <= i < ctors.len() && ctors[i].0 == name && forall|j: int| 0 <= j < i ==> ctors[j].0 != name,
            None => forall|j: int| 0 <= j < ctors.len() ==> ctors[j].0 != name,
        },
    decreases ctors.len(),
{
    if ctors.len() > 0 {
        let init = ctors.drop_last();
        lemma_position(init, name);
        assert forall|j: int| 0 <= j < init.len() implies init[j] == ctors[j] by {}
    }
}

proof fn lemma_peel_len(ty: Term, supplied: Seq<Term>)
    ensures
        spec_peel(ty, supplied) matches Some((doms, _)) ==> doms.len() == supplied.len(),
    decreases supplied.len(),
{
    if supplied.len() > 0 {
        lemma_peel_len(ty, supplied.drop_last());
    }
}

proof fn lemma_iota_fold_failed(
    reduced: Term,
    own_args: Seq<Term>,
    own_types: Seq<Term>,
    k: nat,
    n: nat,
    ind: Seq<char>,
    pc: nat,
    leading: Seq<Term>,
    elim: Seq<char>,
)
    requires
        k <= n,
        spec_iota_fold(reduced, own_args, own_types, k, ind, pc, leading, elim) is None,
    ensures
        spec_iota_fold(reduced, own_args, own_types, n, ind, pc, leading, elim) is None,
    decreases n - k,
{
    if k < n {
        lemma_iota_fold_failed(reduced, own_args, own_types, k, (n - 1) as nat, ind, pc, leading, elim);
    }
}

/// The place of the first constructor named `name` in `ctors`, if any.
fn position(ctors: &Vec<(String, CicTerm)>, name: &String) -> (r: Option<usize>)
    ensures
        match spec_position(view_named(ctors@), name@) {
            Some(i) => r == Some(i as usize),
            None => r is None,
        },
{
    proof {
        lemma_position(view_named(ctors@), name@);
    }
    let mut i: usize = 0;
    while i < ctors.len()
        invariant
            i <= ctors@.len(),
            forall|j: int| 0 <= j < i ==> ctors@[j].0@ != name@,
        decreases ctors@.len() - i,
    {
        if str_eq(ctors[i].0.as_str(), name.as_str()) {
            proof {
                lemma_position(view_named(ctors@), name@);
                let vc = view_named(ctors@);
                match spec_position(vc, name@) {
                    Some(p) => {
                        if p < i {
                            assert(ctors@[p].0@ != name@);
                        }
                        if p > i {
                            assert(vc[i as int].0 == name@);
                        }
                    },
                    None => {
                        assert(vc[i as int].0 == name@);
                    },
                }
            }
            return Some(i);
        }
        i = i + 1;
    }
    proof {
        lemma_position(view_named(ctors@), name@);
        let vc = view_named(ctors@);
        match spec_position(vc, name@) {
            Some(p) => {
                assert(ctors@[p].0@ != name@);
            },
            None => {},
        }
    }
    None
}

/// The domains met instantiating the constructor type `ty` with each of
/// `supplied` in turn (see [`spec_peel`]).
fn peel(ty: &CicTerm, supplied: &Vec<CicTerm>) -> (r: Option<Vec<CicTerm>>)
    ensures
        match spec_peel(ty@, view_seq(supplied@)) {
            Some((doms, _)) => r matches Some(v) && view_seq(v@) == doms,
            None => r is None,
        },
{
    let ghost vs = view_seq(supplied@);
    let mut domains: Vec<CicTerm> = Vec::new();
    let mut remaining = copy_term(ty);
    let mut i: usize = 0;
    proof {
        assert(vs.subrange(0, 0) =~= Seq::<Term>::empty());
        assert(view_seq(domains@) =~= Seq::<Term>::empty());
    }
    while i < supplied.len()
        invariant
            i <= supplied@.len(),
            vs == view_seq(supplied@),
            spec_peel(ty@, vs.subrange(0, i as int)) == Some((view_seq(domains@), remaining@)),
        decreases supplied@.len() - i,
    {
        let ghost pre = vs.subrange(0, i + 1);
        proof {
            assert(pre.drop_last() =~= vs.subrange(0, i as int));
            assert(pre.last() == supplied@[i as int]@);
        }
        let next = match &remaining {
            CicTerm::Product(binder, domain, codomain) => {
                let ghost before = domains@;
                domains.push(copy_term(domain));
                proof {
                    assert(view_seq(domains@) =~= view_seq(before).push(domain@));
                }
                match try_substitute(codomain, binder.as_str(), &supplied[i]) {
                    Some(t) => t,
                    None => {
                        proof {
                            lemma_peel_failed(ty@, vs, (i + 1) as nat);
                        }
                        return None;
                    },
                }
            },
            _ => {
                proof {
                    lemma_peel_failed(ty@, vs, (i + 1) as nat);
                }
                return None;
            },
        };
        remaining = next;
        i = i + 1;
    }
    proof {
        assert(vs.subrange(0, supplied@.len() as int) =~= vs);
    }
    Some(domains)
}

proof fn lemma_peel_failed(ty: Term, supplied: Seq<Term>, k: nat)
    requires
        k <= supplied.len(),
        spec_peel(ty, supplied.subrange(0, k as int)) is None,
    ensures
        spec_peel(ty, supplied) is None,
    decreases supplied.len() - k,
{
    if k == supplied.len() {
        assert(supplied.subrange(0, k as int) =~= supplied);
    } else {
        let init = supplied.drop_last();
        assert(init.subrange(0, k as int) =~= supplied.subrange(0, k as int));
        lemma_peel_failed(ty, init, k);
    }
}

/// Copies of `ts[from..to]`.
fn copy_range(ts: &Vec<CicTerm>, from: usize, to: usize) -> (r: Vec<CicTerm>)
    requires
        from <= to <= ts@.len(),
    ensures
        view_seq(r@) == view_seq(ts@).subrange(from as int, to as int),
{
    let mut out: Vec<CicTerm> = Vec::new();
    let mut i: usize = from;
    while i < to
        invariant
            from <= i <= to,
            to <= ts@.len(),
            out@.len() == i - from,
            forall|j: int| 0 <= j < out@.len() ==> (#[trigger] out@[j])@ == ts@[from + j]@,
        decreases to - i,
    {
        out.push(copy_term(&ts[i]));
        i = i + 1;
    }
    assert(view_seq(out@) =~= view_seq(ts@).subrange(from as int, to as int));
    out
}

/// ι-reduction of an eliminator application whose instance is a
/// constructor application (see [`spec_iota`]).
pub fn try_iota_reduction(environment: &Environment, term: &CicTerm) -> (r: Option<CicTerm>)
    ensures
        match spec_iota(environment@, term@) {
            Some(t) => r matches Some(x) && x@ == t,
            None => r is None,
        },
{
    let head = get_applied_function(term);
    let elim_name = match &head {
        CicTerm::Variable(name, NameKind::Const()) => {
            if !starts_with(name.as_str(), "e_") {
                return None;
            }
            name.clone()
        },
        _ => return None,
    };
    proof {
        reveal_strlit("e_");
    }
    let n = elim_name.as_str().unicode_len();
    let ind = String::from_str(elim_name.as_str().substring_char(2, n));
    proof {
        assert(ind@ =~= elim_name@.skip(2));
    }
    let param_count = match environment.get_inductive_param_count(ind.as_str()) {
        Some(c) => c,
        None => return None,
    };
    let constructors = match environment.get_constructor_signatures(ind.as_str()) {
        Some(cs) => cs,
        None => return None,
    };
    let constructor_count = constructors.len();
    let args = application_args(term);
    if args.len() < 2 || param_count > args.len() - 2 || constructor_count > args.len() - 2 - param_count {
        return None;
    }
    let instance = &args[args.len() - 1];
    let instance_head = get_applied_function(instance);
    let constructor_name = match &instance_head {
        CicTerm::Variable(name, NameKind::Const()) => name.clone(),
        _ => return None,
    };
    let instance_args = application_args(instance);
    if instance_args.len() < param_count {
        return None;
    }
    let constructor_index = match position(&constructors, &constructor_name) {
        Some(i) => i,
        None => return None,
    };
    let ghost vctors = view_named(constructors@);
    proof {
        lemma_position(vctors, constructor_name@);
        assert(vctors[constructor_index as int].1 == constructors@[constructor_index as int].1@);
    }
    let arg_types = match peel(&constructors[constructor_index].1, &instance_args) {
        Some(t) => t,
        None => return None,
    };
    proof {
        lemma_peel_len(vctors[constructor_index as int].1, view_seq(instance_args@));
    }
    let leading = copy_range(&args, 0, param_count + 1 + constructor_count);
    let ghost vargs = view_seq(args@);
    let ghost vinst = view_seq(instance_args@);
    let ghost vtypes = view_seq(arg_types@);
    let ghost own_args = vinst.skip(param_count as int);
    let ghost own_types = vtypes.skip(param_count as int);
    let count = instance_args.len() - param_count;
    let mut reduced = copy_term(&args[param_count + 1 + constructor_index]);
    proof {
        assert(spec_iota(environment@, term@) == spec_iota_fold(
            vargs[param_count + 1 + constructor_index],
            own_args,
            own_types,
            count as nat,
            ind@,
            param_count as nat,
            view_seq(leading@),
            elim_name@,
        ));
        assert(spec_iota_fold(
            vargs[param_count + 1 + constructor_index],
            own_args,
            own_types,
            0,
            ind@,
            param_count as nat,
            view_seq(leading@),
            elim_name@,
        ) == Some(reduced@));
    }
    let mut j: usize = 0;
    while j < count
        invariant
            j <= count,
            vargs == view_seq(args@),
            param_count + constructor_count + 2 <= args@.len(),
            constructor_index < constructor_count,
            spec_iota(environment@, term@) == spec_iota_fold(
                vargs[param_count + 1 + constructor_index],
                own_args,
                own_types,
                count as nat,
                ind@,
                param_count as nat,
                view_seq(leading@),
                elim_name@,
            ),
            count == instance_args@.len() - param_count,
            param_count <= instance_args@.len(),
            arg_types@.len() == instance_args@.len(),
            vinst == view_seq(instance_args@),
            vtypes == view_seq(arg_types@),
            own_args == vinst.skip(param_count as int),
            own_types == vtypes.skip(param_count as int),
            view_seq(leading@) == vargs.subrange(0, param_count + 1 + constructor_count),
            spec_iota_fold(
                vargs[param_count + 1 + constructor_index],
                own_args,
                own_types,
                j as nat,
                ind@,
                param_count as nat,
                view_seq(leading@),
                elim_name@,
            ) == Some(reduced@),
        decreases count - j,
    {
        assert(j < count);
        assert(param_count + j < instance_args@.len());
        let k = param_count + j;
        let own_arg = copy_term(&instance_args[k]);
        let own_type = &arg_types[k];
        proof {
            assert(own_args[j as int] == instance_args@[k as int]@);
            assert(own_types[j as int] == arg_types@[k as int]@);
        }
        let ghost r_old = reduced@;
        let applied = CicTerm::Application(Box::new(reduced), Box::new(copy_term(&own_arg)));
        assert(applied@ == Term::App(Box::new(r_old), Box::new(own_args[j as int])));
        if is_instance_of(own_type, ind.as_str()) {
            let occurrence = application_args(own_type);
            if occurrence.len() < param_count {
                proof {
                    lemma_iota_fold_failed(
                        vargs[param_count + 1 + constructor_index],
                        own_args,
                        own_types,
                        (j + 1) as nat,
                        count as nat,
                        ind@,
                        param_count as nat,
                        view_seq(leading@),
                        elim_name@,
                    );
                }
                return None;
            }
            let mut hypothesis_args = copy_range(&leading, 0, leading.len());
            let mut indices = copy_range(&occurrence, param_count, occurrence.len());
            let ghost h0 = hypothesis_args@;
            let ghost i0 = indices@;
            let ghost a0 = own_arg@;
            hypothesis_args.append(&mut indices);
            proof {
                assert(hypothesis_args@ == h0 + i0);
            }
            let ghost h1 = hypothesis_args@;
            hypothesis_args.push(own_arg);
            proof {
                assert(hypothesis_args@ == h1.push(hypothesis_args@.last()));
                assert(view_seq(h0) =~= view_seq(leading@));
                assert(view_seq(i0) =~= view_seq(occurrence@).skip(param_count as int));
                assert(view_seq(h1) =~= view_seq(h0) + view_seq(i0));
                assert(view_seq(hypothesis_args@) =~= view_seq(h1).push(a0));
                assert(view_seq(hypothesis_args@) =~= view_seq(leading@) + view_seq(occurrence@).skip(param_count as int)
                    + seq![own_args[j as int]]);
            }
            let eliminator = CicTerm::Variable(elim_name.clone(), NameKind::Const());
            let ghost hyp_view = view_seq(hypothesis_args@);
            let hypothesis = apply_arguments(&eliminator, hypothesis_args);
            proof {
                assert(eliminator@ == Term::Var(elim_name@, NameKind::Const()));
                assert(hypothesis@ == spec_apply_args(Term::Var(elim_name@, NameKind::Const()), hyp_view));
                assert(spec_application_args(own_types[j as int]) == view_seq(occurrence@));
            }
            reduced = CicTerm::Application(Box::new(applied), Box::new(hypothesis));
        } else {
            reduced = applied;
        }
        proof {
            let prev = spec_iota_fold(
                vargs[param_count + 1 + constructor_index],
                own_args,
                own_types,
                j as nat,
                ind@,
                param_count as nat,
                view_seq(leading@),
                elim_name@,
            );
            assert(((j + 1) as nat - 1) as nat == j as nat);
            assert(prev is Some);
            assert(spec_iota_fold(
                vargs[param_count + 1 + constructor_index],
                own_args,
                own_types,
                (j + 1) as nat,
                ind@,
                param_count as nat,
                view_seq(leading@),
                elim_name@,
            ) == Some(reduced@));
        }
        j = j + 1;
    }
    proof {
        assert(vargs.subrange(0, param_count + 1 + constructor_count) == view_seq(leading@));
    }
    Some(reduced)
}

//########################### STATEMENTS EXECUTION

/// The indexed type `params -> t` of a declaration of an inductive type.
pub open spec fn spec_declared_type(params: Seq<(Seq<char>, Term)>, t: Term) -> Term {
    spec_index(spec_multiarg_fun_type(params, t), Seq::empty())
}

/// The constructors of an inductive type, each with its indexed type
/// abstracted over the type's parameters.
pub open spec fn spec_declared_constructors(
    params: Seq<(Seq<char>, Term)>,
    ctors: Seq<(Seq<char>, Term)>,
) -> Seq<(Seq<char>, Term)> {
    ctors.map_values(|c: (Seq<char>, Term)| (c.0, spec_declared_type(params, c.1)))
}

/// Declares the inductive type `name` with parameters `params`, arity
/// `ariety` and constructors `constructors`: the type, each constructor and
/// the eliminator `e_<name>` are assumed in this order, and the constructors
/// and number of parameters are recorded for reduction.
pub fn evaluate_inductive(
    environment: &mut Environment,
    name: &str,
    params: &Vec<(String, CicTerm)>,
    ariety: &CicTerm,
    constructors: &Vec<(String, CicTerm)>,
) -> (r: Result<(), LofError>)
    requires
        eliminator_defined(name@, view_named(params@), ariety@, view_named(constructors@)),
    ensures
        r is Ok,
        ({
            let ps = view_named(params@);
            let cs = spec_declared_constructors(ps, view_named(constructors@));
            final(environment)@ == old(environment)@.with_context(
                old(environment)@.context.push((name@, spec_declared_type(ps, ariety@))) + cs + seq![
                    ("e_"@ + name@, spec_eliminator(name@, ps, ariety@, view_named(constructors@))),
                ],
            ).with_constructors(old(environment)@.constructors.push((name@, cs))).with_param_counts(
                old(environment)@.param_counts.push((name@, params@.len() as usize)),
            )
        }),
{
    let ghost ps = view_named(params@);
    let ghost vc = view_named(constructors@);
    let ghost start = environment@;
    let ind_type = index_variables(&make_multiarg_fun_type(params.as_slice(), ariety));
    environment.add_to_context(name, &ind_type);
    let ghost base = start.context.push((name@, spec_declared_type(ps, ariety@)));
    let mut constr_set: Vec<(String, CicTerm)> = Vec::new();
    let mut i: usize = 0;
    while i < constructors.len()
        invariant
            i <= constructors@.len(),
            ps == view_named(params@),
            vc == view_named(constructors@),
            environment@ == start.with_context(base + view_named(constr_set@)),
            view_named(constr_set@) == spec_declared_constructors(ps, vc.subrange(0, i as int)),
        decreases constructors@.len() - i,
    {
        let constr_type = index_variables(&make_multiarg_fun_type(params.as_slice(), &constructors[i].1));
        environment.add_to_context(constructors[i].0.as_str(), &constr_type);
        let ghost before = constr_set@;
        constr_set.push((constructors[i].0.clone(), constr_type));
        proof {
            assert(vc[i as int] == (constructors@[i as int].0@, constructors@[i as int].1@));
            assert(view_named(constr_set@) =~= view_named(before).push((vc[i as int].0, constr_type@)));
            assert(spec_declared_constructors(ps, vc.subrange(0, i + 1)) =~= spec_declared_constructors(
                ps,
                vc.subrange(0, i as int),
            ).push((vc[i as int].0, spec_declared_type(ps, vc[i as int].1))));
            assert(base + view_named(constr_set@) =~= (base + view_named(before)).push((vc[i as int].0, constr_type@)));
        }
        i = i + 1;
    }
    proof {
        assert(vc.subrange(0, vc.len() as int) =~= vc);
    }
    let ghost cs = view_named(constr_set@);
    let elim_name = concat("e_", name);
    let eliminator = inductive_eliminator(
        String::from_str(name),
        copy_named(params),
        copy_term(ariety),
        copy_named(constructors),
    );
    environment.add_to_context(elim_name.as_str(), &eliminator);
    environment.add_to_inductive_store(name, constr_set, params.len());
    proof {
        assert(base + cs + seq![("e_"@ + name@, eliminator@)] =~= (base + cs).push(("e_"@ + name@, eliminator@)));
    }
    Ok(())
}

} // verus!
