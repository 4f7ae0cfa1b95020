use vstd::prelude::*;
use vstd::string::*;
use crate::cic::elaboration::{index_variables, spec_index};
use crate::cic::model::{
    ends_in_atom, prod_len, spec_application_args, spec_apply_args, spec_arg_types, spec_is_instance_of,
    spec_multiarg_fun_type, spec_prod_innermost, spec_replace_result, spec_variables_as_terms,
};
use crate::cic::term::{copy_term, view_named, view_seq, CicTerm, NameKind, Term, PLACEHOLDER_DBI};
use crate::cic::utils::{
    application_args, apply_arguments, clone_product_with_different_result, get_arg_types, get_prod_innermost,
    get_variables_as_terms, is_instance_of, make_multiarg_fun_type,
};
use crate::text::{concat, decimal_u64, spec_decimal};

verus! {

//########################### MODEL

/// A variable that has not been given its De Bruijn index yet.
pub open spec fn placeholder(n: Seq<char>) -> Term {
    Term::Var(n, NameKind::Bound(PLACEHOLDER_DBI))
}

/// `prefix` followed by the decimal digits of `i`.
pub open spec fn indexed_name(prefix: Seq<char>, i: int) -> Seq<char> {
    prefix + spec_decimal(i as nat)
}

/// Placeholder variables for the names of `named`.
pub open spec fn placeholder_vars(named: Seq<(Seq<char>, Term)>) -> Seq<Term> {
    named.map_values(|p: (Seq<char>, Term)| placeholder(p.0))
}

/// Each term of `ts` named `prefix` followed by its position.
pub open spec fn named_indexed(prefix: Seq<char>, ts: Seq<Term>) -> Seq<(Seq<char>, Term)> {
    Seq::new(ts.len(), |i: int| (indexed_name(prefix, i), ts[i]))
}

/// The type `name` applied to the left parameters, then to the right ones.
pub open spec fn spec_instance_type(name: Seq<char>, lefts: Seq<Term>, rights: Seq<Term>) -> Term {
    spec_apply_args(spec_apply_args(placeholder(name), lefts), rights)
}

/// The type of the eliminator's motive: over the indices of the arity and an
/// instance of the type, into `TYPE`.
pub open spec fn spec_result_type(name: Seq<char>, lefts: Seq<Term>, ariety: Term) -> Term {
    spec_replace_result(
        ariety,
        Term::Prod(
            "instance"@,
            Box::new(spec_instance_type(name, lefts, spec_variables_as_terms(ariety, 0))),
            Box::new(Term::Sort("TYPE"@)),
        ),
    )
}

/// The argument types of a constructor split into the non recursive ones
/// (named `nr_<position>`) and the recursive ones, instances of `name`
/// (named `r_<position>`), each keeping its order.
pub open spec fn spec_split(arg_types: Seq<Term>, name: Seq<char>) -> (Seq<(Seq<char>, Term)>, Seq<(Seq<char>, Term)>)
    decreases arg_types.len(),
{
    if arg_types.len() == 0 {
        (Seq::empty(), Seq::empty())
    } else {
        let (nr, r) = spec_split(arg_types.drop_last(), name);
        let i = arg_types.len() - 1;
        let t = arg_types.last();
        if spec_is_instance_of(t, name) {
            (nr, r.push((indexed_name("r_"@, i), t)))
        } else {
            (nr.push((indexed_name("nr_"@, i), t)), r)
        }
    }
}

/// The inductive hypotheses for the recursive arguments: the motive applied
/// to the argument's indices and to the argument.
pub open spec fn spec_hypotheses(rec: Seq<(Seq<char>, Term)>, result_var: Term, l: int) -> Seq<Term> {
    rec.map_values(
        |p: (Seq<char>, Term)|
            Term::App(
                Box::new(spec_apply_args(result_var, spec_application_args(p.1).skip(l))),
                Box::new(placeholder(p.0)),
            ),
    )
}

/// The minor premise of the eliminator for one constructor.
pub open spec fn spec_case(ctor: (Seq<char>, Term), lefts: Seq<Term>, result_var: Term, name: Seq<char>) -> Term {
    let l = lefts.len() as int;
    let rights = spec_application_args(spec_prod_innermost(ctor.1)).skip(l);
    let result_with_rights = spec_apply_args(result_var, rights);
    let (nr, r) = spec_split(spec_arg_types(ctor.1), name);
    let hyps = spec_hypotheses(r, result_var, l);
    let constr_instance = spec_apply_args(
        spec_apply_args(spec_apply_args(placeholder(ctor.0), lefts), placeholder_vars(nr)),
        placeholder_vars(r),
    );
    let result_instance = spec_apply_args(result_with_rights, seq![constr_instance]);
    spec_multiarg_fun_type(
        nr,
        spec_multiarg_fun_type(r, spec_multiarg_fun_type(named_indexed("ih_"@, hyps), result_instance)),
    )
}

/// The eliminator of the inductive type `name` with the parameters
/// `params`, the arity `ariety` and the constructors `ctors` (after Dybjer,
/// Inductive Families): over the parameters, the motive `er_<name>`, one
/// minor premise `c_<i>` per constructor, the indices `rp_<i>` and an
/// instance `t`, into the motive applied to them; indexed at the end.
pub open spec fn spec_eliminator(
    name: Seq<char>,
    params: Seq<(Seq<char>, Term)>,
    ariety: Term,
    ctors: Seq<(Seq<char>, Term)>,
) -> Term {
    let lefts = placeholder_vars(params);
    let result_var = placeholder("er_"@ + name);
    let result_type = spec_result_type(name, lefts, ariety);
    let cases = ctors.map_values(|c: (Seq<char>, Term)| spec_case(c, lefts, result_var, name));
    let right_params = named_indexed("rp_"@, spec_arg_types(ariety));
    let rvars = placeholder_vars(right_params);
    let instance = spec_instance_type(name, lefts, rvars);
    let result_instance = Term::App(
        Box::new(spec_apply_args(result_var, rvars)),
        Box::new(Term::Var("t"@, NameKind::Const())),
    );
    let full = spec_multiarg_fun_type(seq![("t"@, instance)], result_instance);
    let full = spec_multiarg_fun_type(right_params, full);
    let full = spec_multiarg_fun_type(named_indexed("c_"@, cases), full);
    let full = spec_multiarg_fun_type(seq![("er_"@ + name, result_type)], full);
    let full = spec_multiarg_fun_type(params, full);
    spec_index(full, Seq::empty())
}

/// A constructor's type gives the type `name` at least `l` arguments, and so
/// does each of its recursive arguments.
pub open spec fn ctor_fits(ctor_type: Term, name: Seq<char>, l: int) -> bool {
    &&& l <= spec_application_args(spec_prod_innermost(ctor_type)).len()
    &&& forall|j: int|
        0 <= j < spec_arg_types(ctor_type).len() && spec_is_instance_of(#[trigger] spec_arg_types(ctor_type)[j], name)
            ==> l <= spec_application_args(spec_arg_types(ctor_type)[j]).len()
}

/// The inputs the eliminator is built for: an arity that is a product chain
/// ending in a sort or a variable, and constructors that instantiate the
/// type with all of its parameters.
pub open spec fn eliminator_defined(
    name: Seq<char>,
    params: Seq<(Seq<char>, Term)>,
    ariety: Term,
    ctors: Seq<(Seq<char>, Term)>,
) -> bool {
    &&& ends_in_atom(ariety)
    &&& prod_len(ariety) <= i32::MAX
    &&& forall|i: int| 0 <= i < ctors.len() ==> ctor_fits(#[trigger] ctors[i].1, name, params.len() as int)
}

//########################### CONSTRUCTION

fn placeholder_var(name: &str) -> (r: CicTerm)
    ensures
        r@ == placeholder(name@),
{
    CicTerm::Variable(String::from_str(name), NameKind::Bound(PLACEHOLDER_DBI))
}

/// `prefix` followed by the decimal digits of `i`.
fn make_indexed_name(prefix: &str, i: usize) -> (r: String)
    ensures
        r@ == indexed_name(prefix@, i as int),
{
    let digits = decimal_u64(i as u64);
    concat(prefix, digits.as_str())
}

/// Placeholder variables for the names of `named`.
fn make_placeholder_vars(named: &Vec<(String, CicTerm)>) -> (r: Vec<CicTerm>)
    ensures
        view_seq(r@) == placeholder_vars(view_named(named@)),
{
    let mut out: Vec<CicTerm> = Vec::new();
    let mut i: usize = 0;
    while i < named.len()
        invariant
            i <= named@.len(),
            view_seq(out@) == placeholder_vars(view_named(named@)).subrange(0, i as int),
        decreases named@.len() - i,
    {
        let v = placeholder_var(named[i].0.as_str());
        let ghost before = out@;
        out.push(v);
        proof {
            assert(view_seq(out@) =~= view_seq(before).push(v@));
            assert(placeholder_vars(view_named(named@)).subrange(0, i + 1) =~= placeholder_vars(
                view_named(named@),
            ).subrange(0, i as int).push(v@));
        }
        i = i + 1;
    }
    proof {
        assert(placeholder_vars(view_named(named@)).subrange(0, named@.len() as int) =~= placeholder_vars(
            view_named(named@),
        ));
    }
    out
}

/// Each term of `terms` named `prefix` followed by its position.
fn make_named_indexed(prefix: &str, terms: Vec<CicTerm>) -> (r: Vec<(String, CicTerm)>)
    ensures
        view_named(r@) == named_indexed(prefix@, view_seq(terms@)),
{
    let mut out: Vec<(String, CicTerm)> = Vec::new();
    let mut i: usize = 0;
    while i < terms.len()
        invariant
            i <= terms@.len(),
            view_named(out@) == named_indexed(prefix@, view_seq(terms@)).subrange(0, i as int),
        decreases terms@.len() - i,
    {
        let name = make_indexed_name(prefix, i);
        let t = copy_term(&terms[i]);
        let ghost before = out@;
        out.push((name, t));
        proof {
            assert(view_named(out@) =~= view_named(before).push((name@, t@)));
            assert(named_indexed(prefix@, view_seq(terms@)).subrange(0, i + 1) =~= named_indexed(
                prefix@,
                view_seq(terms@),
            ).subrange(0, i as int).push((name@, t@)));
        }
        i = i + 1;
    }
    proof {
        assert(named_indexed(prefix@, view_seq(terms@)).subrange(0, terms@.len() as int) =~= named_indexed(
            prefix@,
            view_seq(terms@),
        ));
    }
    out
}

/// `v` without its first `n` elements.
fn drop_front(v: Vec<CicTerm>, n: usize) -> (r: Vec<CicTerm>)
    requires
        n <= v@.len(),
    ensures
        view_seq(r@) == view_seq(v@).skip(n as int),
{
    let mut out: Vec<CicTerm> = Vec::new();
    let mut i: usize = n;
    while i < v.len()
        invariant
            n <= i <= v@.len(),
            view_seq(out@) == view_seq(v@).subrange(n as int, i as int),
        decreases v@.len() - i,
    {
        let t = copy_term(&v[i]);
        let ghost before = out@;
        out.push(t);
        proof {
            assert(view_seq(out@) =~= view_seq(before).push(t@));
            assert(view_seq(v@).subrange(n as int, i + 1) =~= view_seq(v@).subrange(n as int, i as int).push(t@));
        }
        i = i + 1;
    }
    proof {
        assert(view_seq(v@).subrange(n as int, v@.len() as int) =~= view_seq(v@).skip(n as int));
    }
    out
}

/// The left parameters as placeholder variables ( A :: σ ).
fn make_left_param_vars(params: &Vec<(String, CicTerm)>) -> (r: Vec<CicTerm>)
    ensures
        view_seq(r@) == placeholder_vars(view_named(params@)),
{
    make_placeholder_vars(params)
}

/// The type `inductive_name` applied to the left parameters, then to the right ones.
fn make_instance_type(inductive_name: &str, left_param_vars: Vec<CicTerm>, right_param_vars: Vec<CicTerm>) -> (r: CicTerm)
    ensures
        r@ == spec_instance_type(inductive_name@, view_seq(left_param_vars@), view_seq(right_param_vars@)),
{
    let head = placeholder_var(inductive_name);
    let instance_type = apply_arguments(&head, left_param_vars);
    apply_arguments(&instance_type, right_param_vars)
}

/// The type of the motive ( C : (a :: α[A]) (c : P A a) TYPE ).
fn make_result_type(inductive_name: &str, left_param_vars: Vec<CicTerm>, ariety: &CicTerm) -> (r: CicTerm)
    requires
        ends_in_atom(ariety@),
        prod_len(ariety@) <= i32::MAX,
    ensures
        r@ == spec_result_type(inductive_name@, view_seq(left_param_vars@), ariety@),
{
    let right_params = get_variables_as_terms(ariety);
    let ghost lv = view_seq(left_param_vars@);
    let instance_type = make_instance_type(inductive_name, left_param_vars, right_params);
    assert(instance_type@ == spec_instance_type(inductive_name@, lv, spec_variables_as_terms(ariety@, 0)));
    let instance_name = String::from_str("instance");
    let sort_name = String::from_str("TYPE");
    assert(instance_name@ == "instance"@);
    assert(sort_name@ == "TYPE"@);
    let sort = CicTerm::Sort(sort_name);
    assert(sort@ == Term::Sort("TYPE"@));
    let result = CicTerm::Product(instance_name, Box::new(instance_type), Box::new(sort));
    assert(result@ == Term::Prod(
        "instance"@,
        Box::new(spec_instance_type(inductive_name@, lv, spec_variables_as_terms(ariety@, 0))),
        Box::new(Term::Sort("TYPE"@)),
    ));
    clone_product_with_different_result(ariety, result)
}

/// Splits the argument types of a constructor into the non recursive and the
/// recursive ones (see [`spec_split`]).
fn split_recursive_arguments(arg_types: &Vec<CicTerm>, inductive_name: &str) -> (r: (Vec<(String, CicTerm)>, Vec<(String, CicTerm)>))
    ensures
        (view_named(r.0@), view_named(r.1@)) == spec_split(view_seq(arg_types@), inductive_name@),
{
    let mut recursive: Vec<(String, CicTerm)> = Vec::new();
    let mut non_recursive: Vec<(String, CicTerm)> = Vec::new();
    let mut index: usize = 0;
    proof {
        assert(view_seq(arg_types@).subrange(0, 0) =~= Seq::<Term>::empty());
        assert(view_named(recursive@) =~= Seq::<(Seq<char>, Term)>::empty());
        assert(view_named(non_recursive@) =~= Seq::<(Seq<char>, Term)>::empty());
    }
    while index < arg_types.len()
        invariant
            index <= arg_types@.len(),
            (view_named(non_recursive@), view_named(recursive@)) == spec_split(
                view_seq(arg_types@).subrange(0, index as int),
                inductive_name@,
            ),
        decreases arg_types@.len() - index,
    {
        let ghost pre = view_seq(arg_types@).subrange(0, index + 1);
        proof {
            assert(pre.drop_last() =~= view_seq(arg_types@).subrange(0, index as int));
            assert(pre.last() == arg_types@[index as int]@);
        }
        let arg_type = copy_term(&arg_types[index]);
        if is_instance_of(&arg_type, inductive_name) {
            let name = make_indexed_name("r_", index);
            let ghost before = recursive@;
            recursive.push((name, arg_type));
            proof {
                assert(view_named(recursive@) =~= view_named(before).push((name@, arg_type@)));
            }
        } else {
            let name = make_indexed_name("nr_", index);
            let ghost before = non_recursive@;
            non_recursive.push((name, arg_type));
            proof {
                assert(view_named(non_recursive@) =~= view_named(before).push((name@, arg_type@)));
            }
        }
        index = index + 1;
    }
    proof {
        assert(view_seq(arg_types@).subrange(0, arg_types@.len() as int) =~= view_seq(arg_types@));
    }
    (non_recursive, recursive)
}

/// The inductive hypotheses for the recursive arguments `rec_args`.
fn make_inductive_hypotheses(rec_args: &Vec<(String, CicTerm)>, result_var: &CicTerm, left_params_len: usize) -> (r: Vec<CicTerm>)
    requires
        forall|i: int| 0 <= i < rec_args@.len() ==> left_params_len <= spec_application_args(#[trigger] rec_args@[i].1@).len(),
    ensures
        view_seq(r@) == spec_hypotheses(view_named(rec_args@), result_var@, left_params_len as int),
{
    let mut hypotheses: Vec<CicTerm> = Vec::new();
    let mut i: usize = 0;
    while i < rec_args.len()
        invariant
            i <= rec_args@.len(),
            forall|k: int| 0 <= k < rec_args@.len() ==> left_params_len <= spec_application_args(#[trigger] rec_args@[k].1@).len(),
            view_seq(hypotheses@) == spec_hypotheses(view_named(rec_args@), result_var@, left_params_len as int).subrange(0, i as int),
        decreases rec_args@.len() - i,
    {
        let args = application_args(&rec_args[i].1);
        let right_params = drop_front(args, left_params_len);
        let result_with_rights = apply_arguments(result_var, right_params);
        let hypothesis = CicTerm::Application(Box::new(result_with_rights), Box::new(placeholder_var(rec_args[i].0.as_str())));
        let ghost before = hypotheses@;
        hypotheses.push(hypothesis);
        proof {
            assert(view_seq(hypotheses@) =~= view_seq(before).push(hypothesis@));
            assert(spec_hypotheses(view_named(rec_args@), result_var@, left_params_len as int).subrange(0, i + 1) =~= spec_hypotheses(
                view_named(rec_args@),
                result_var@,
                left_params_len as int,
            ).subrange(0, i as int).push(hypothesis@));
        }
        i = i + 1;
    }
    proof {
        assert(spec_hypotheses(view_named(rec_args@), result_var@, left_params_len as int).subrange(0, rec_args@.len() as int) =~= spec_hypotheses(
            view_named(rec_args@),
            result_var@,
            left_params_len as int,
        ));
    }
    hypotheses
}

/// A bound on the argument count of every instance of the type among the
/// argument types holds of every recursive argument.
proof fn lemma_split_bound(arg_types: Seq<Term>, name: Seq<char>, l: int)
    requires
        forall|j: int|
            0 <= j < arg_types.len() && spec_is_instance_of(#[trigger] arg_types[j], name) ==> l <= spec_application_args(
                arg_types[j],
            ).len(),
    ensures
        forall|k: int|
            0 <= k < spec_split(arg_types, name).1.len() ==> l <= spec_application_args(
                (#[trigger] spec_split(arg_types, name).1[k]).1,
            ).len(),
    decreases arg_types.len(),
{
    if arg_types.len() > 0 {
        let init = arg_types.drop_last();
        assert forall|j: int| 0 <= j < init.len() && spec_is_instance_of(#[trigger] init[j], name) implies l
            <= spec_application_args(init[j]).len() by {
            assert(init[j] == arg_types[j]);
        }
        lemma_split_bound(init, name, l);
        let r = spec_split(arg_types, name).1;
        let r0 = spec_split(init, name).1;
        assert forall|k: int| 0 <= k < r.len() implies l <= spec_application_args((#[trigger] r[k]).1).len() by {
            if k < r0.len() {
                assert(r[k] == r0[k]);
            } else {
                let j = arg_types.len() - 1;
                assert(spec_is_instance_of(arg_types[j], name));
            }
        }
    }
}

/// The minor premise of the eliminator for the constructor `constr_name : constr_type`.
fn make_inductive_case(
    constr_name: &String,
    constr_type: &CicTerm,
    left_param_vars: &Vec<CicTerm>,
    result_var: &CicTerm,
    inductive_name: &str,
) -> (r: CicTerm)
    requires
        ctor_fits(constr_type@, inductive_name@, left_param_vars@.len() as int),
    ensures
        r@ == spec_case((constr_name@, constr_type@), view_seq(left_param_vars@), result_var@, inductive_name@),
{
    let left_params_len = left_param_vars.len();
    let innermost = get_prod_innermost(constr_type);
    let all_args = application_args(innermost);
    let right_params = drop_front(all_args, left_params_len);
    let result_with_rights = apply_arguments(result_var, right_params);

    let arg_types = get_arg_types(constr_type);
    let (non_recursive, recursive) = split_recursive_arguments(&arg_types, inductive_name);
    proof {
        lemma_split_bound(view_seq(arg_types@), inductive_name@, left_params_len as int);
        assert forall|i: int| 0 <= i < recursive@.len() implies left_params_len <= spec_application_args(
            #[trigger] recursive@[i].1@,
        ).len() by {
            assert(view_named(recursive@)[i] == (recursive@[i].0@, recursive@[i].1@));
        }
    }
    let inductive_hypotheses = make_inductive_hypotheses(&recursive, result_var, left_params_len);

    let mut lefts: Vec<CicTerm> = Vec::new();
    let mut i: usize = 0;
    while i < left_param_vars.len()
        invariant
            i <= left_param_vars@.len(),
            view_seq(lefts@) == view_seq(left_param_vars@).subrange(0, i as int),
        decreases left_param_vars@.len() - i,
    {
        let t = copy_term(&left_param_vars[i]);
        let ghost before = lefts@;
        lefts.push(t);
        proof {
            assert(view_seq(lefts@) =~= view_seq(before).push(t@));
            assert(view_seq(left_param_vars@).subrange(0, i + 1) =~= view_seq(left_param_vars@).subrange(0, i as int).push(t@));
        }
        i = i + 1;
    }
    proof {
        assert(view_seq(left_param_vars@).subrange(0, left_param_vars@.len() as int) =~= view_seq(left_param_vars@));
    }
    let constr_head = placeholder_var(constr_name.as_str());
    let constr_instance = apply_arguments(&constr_head, lefts);
    let constr_instance = apply_arguments(&constr_instance, make_placeholder_vars(&non_recursive));
    let constr_instance = apply_arguments(&constr_instance, make_placeholder_vars(&recursive));
    let ghost ci = constr_instance@;
    let single = vec![constr_instance];
    proof {
        assert(view_seq(single@) =~= seq![ci]);
    }
    let result_instance = apply_arguments(&result_with_rights, single);

    let named_hypotheses = make_named_indexed("ih_", inductive_hypotheses);
    let branch_type = make_multiarg_fun_type(named_hypotheses.as_slice(), &result_instance);
    let branch_type = make_multiarg_fun_type(recursive.as_slice(), &branch_type);
    make_multiarg_fun_type(non_recursive.as_slice(), &branch_type)
}

/// The eliminator of the inductive type `inductive_name` with the parameters
/// `params`, the arity `ariety` and the `constructors` (see [`spec_eliminator`]).
pub fn inductive_eliminator(
    inductive_name: String,
    params: Vec<(String, CicTerm)>,
    ariety: CicTerm,
    constructors: Vec<(String, CicTerm)>,
) -> (r: CicTerm)
    requires
        eliminator_defined(inductive_name@, view_named(params@), ariety@, view_named(constructors@)),
    ensures
        r@ == spec_eliminator(inductive_name@, view_named(params@), ariety@, view_named(constructors@)),
{
    let ghost vparams = view_named(params@);
    let ghost vctors = view_named(constructors@);
    let left_param_vars = make_left_param_vars(&params);
    let result_var = placeholder_var(concat("er_", inductive_name.as_str()).as_str());

    let mut lefts_for_result: Vec<CicTerm> = Vec::new();
    let mut lefts_for_instance: Vec<CicTerm> = Vec::new();
    let mut i: usize = 0;
    while i < left_param_vars.len()
        invariant
            i <= left_param_vars@.len(),
            view_seq(lefts_for_result@) == view_seq(left_param_vars@).subrange(0, i as int),
            view_seq(lefts_for_instance@) == view_seq(left_param_vars@).subrange(0, i as int),
        decreases left_param_vars@.len() - i,
    {
        let a = copy_term(&left_param_vars[i]);
        let b = copy_term(&left_param_vars[i]);
        let ghost before_a = lefts_for_result@;
        let ghost before_b = lefts_for_instance@;
        lefts_for_result.push(a);
        lefts_for_instance.push(b);
        proof {
            assert(view_seq(lefts_for_result@) =~= view_seq(before_a).push(a@));
            assert(view_seq(lefts_for_instance@) =~= view_seq(before_b).push(b@));
            assert(view_seq(left_param_vars@).subrange(0, i + 1) =~= view_seq(left_param_vars@).subrange(0, i as int).push(a@));
        }
        i = i + 1;
    }
    proof {
        assert(view_seq(left_param_vars@).subrange(0, left_param_vars@.len() as int) =~= view_seq(left_param_vars@));
    }
    let result_type = make_result_type(inductive_name.as_str(), lefts_for_result, &ariety);

    let ghost lefts = view_seq(left_param_vars@);
    let mut cases: Vec<CicTerm> = Vec::new();
    let mut c: usize = 0;
    while c < constructors.len()
        invariant
            c <= constructors@.len(),
            vctors == view_named(constructors@),
            lefts == view_seq(left_param_vars@),
            lefts == placeholder_vars(vparams),
            vparams == view_named(params@),
            eliminator_defined(inductive_name@, vparams, ariety@, vctors),
            view_seq(cases@) == vctors.map_values(
                |k: (Seq<char>, Term)| spec_case(k, lefts, result_var@, inductive_name@),
            ).subrange(0, c as int),
        decreases constructors@.len() - c,
    {
        proof {
            assert(vctors[c as int] == (constructors@[c as int].0@, constructors@[c as int].1@));
            assert(ctor_fits(vctors[c as int].1, inductive_name@, vparams.len() as int));
            assert(left_param_vars@.len() == lefts.len());
            assert(lefts.len() == vparams.len());
        }
        let case = make_inductive_case(&constructors[c].0, &constructors[c].1, &left_param_vars, &result_var, inductive_name.as_str());
        let ghost before = cases@;
        cases.push(case);
        proof {
            assert(view_seq(cases@) =~= view_seq(before).push(case@));
            let all = vctors.map_values(|k: (Seq<char>, Term)| spec_case(k, lefts, result_var@, inductive_name@));
            assert(all.subrange(0, c + 1) =~= all.subrange(0, c as int).push(case@));
        }
        c = c + 1;
    }
    proof {
        let all = vctors.map_values(|k: (Seq<char>, Term)| spec_case(k, lefts, result_var@, inductive_name@));
        assert(all.subrange(0, constructors@.len() as int) =~= all);
    }

    let ghost cases_model = vctors.map_values(|k: (Seq<char>, Term)| spec_case(k, lefts, result_var@, inductive_name@));
    assert(view_seq(cases@) == cases_model);
    assert(result_var@ == placeholder("er_"@ + inductive_name@));
    assert(result_type@ == spec_result_type(inductive_name@, lefts, ariety@));

    let right_params = make_named_indexed("rp_", get_arg_types(&ariety));
    let ghost rp = named_indexed("rp_"@, spec_arg_types(ariety@));
    assert(view_named(right_params@) == rp);
    let right_param_vars_for_instance = make_placeholder_vars(&right_params);
    let right_param_vars_for_result = make_placeholder_vars(&right_params);
    let ghost rvars = placeholder_vars(rp);
    let inductive_instance = make_instance_type(inductive_name.as_str(), lefts_for_instance, right_param_vars_for_instance);
    assert(inductive_instance@ == spec_instance_type(inductive_name@, lefts, rvars));
    let applied = apply_arguments(&result_var, right_param_vars_for_result);
    assert(applied@ == spec_apply_args(result_var@, rvars));
    let t_name = String::from_str("t");
    assert(t_name@ == "t"@);
    let t_var = CicTerm::Variable(t_name, NameKind::Const());
    assert(t_var@ == Term::Var("t"@, NameKind::Const()));
    let result_instance = CicTerm::Application(Box::new(applied), Box::new(t_var));
    let ghost ri = Term::App(Box::new(spec_apply_args(result_var@, rvars)), Box::new(Term::Var("t"@, NameKind::Const())));
    assert(result_instance@ == ri);

    let ghost inst = inductive_instance@;
    let binder_name = String::from_str("t");
    assert(binder_name@ == "t"@);
    let instance_binder = vec![(binder_name, inductive_instance)];
    proof {
        assert(view_named(instance_binder@) =~= seq![("t"@, inst)]);
    }
    let full = make_multiarg_fun_type(instance_binder.as_slice(), &result_instance);
    let ghost f1 = spec_multiarg_fun_type(seq![("t"@, inst)], ri);
    assert(full@ == f1);
    let full = make_multiarg_fun_type(right_params.as_slice(), &full);
    let ghost f2 = spec_multiarg_fun_type(rp, f1);
    assert(full@ == f2);
    let named_cases = make_named_indexed("c_", cases);
    let full = make_multiarg_fun_type(named_cases.as_slice(), &full);
    let ghost f3 = spec_multiarg_fun_type(named_indexed("c_"@, cases_model), f2);
    assert(full@ == f3);
    let ghost rt = result_type@;
    let motive_binder = vec![(concat("er_", inductive_name.as_str()), result_type)];
    proof {
        assert(view_named(motive_binder@) =~= seq![("er_"@ + inductive_name@, rt)]);
    }
    let full = make_multiarg_fun_type(motive_binder.as_slice(), &full);
    let ghost f4 = spec_multiarg_fun_type(seq![("er_"@ + inductive_name@, rt)], f3);
    assert(full@ == f4);
    let full = make_multiarg_fun_type(params.as_slice(), &full);
    assert(full@ == spec_multiarg_fun_type(vparams, f4));
    index_variables(&full)
}

} // verus!
