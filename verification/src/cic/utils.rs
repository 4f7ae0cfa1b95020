use vstd::prelude::*;
use vstd::string::*;
use crate::cic::model::{depth_ok, fits_substitution, lemma_indices_le_mono, lemma_depth_ok_branch, lemma_indices_le_branch, has_hole_shape, indices_le, prod_len, spec_application_args, spec_applied_function, spec_apply_args, spec_arg_binder_names, spec_arg_types, spec_binder_count, spec_close, spec_is_constant, spec_is_instance_of, spec_multiarg_fun_type, spec_open, spec_pattern_binder_names, spec_positive, spec_prod_innermost, spec_references, spec_references_branches, spec_rename, spec_replace_result, spec_shift, spec_shift_from, spec_subst, spec_substitute_meta, spec_swap_hole, spec_variables_as_terms, view_strings};
use crate::cic::term::{view_branches, view_seq, view_named, lemma_match_view, copy_term, CicTerm, NameKind, Term};

verus! {

broadcast use crate::cic::model::lemma_depth_ok_range;

//########################### SPINE AND PRODUCT UTILITIES

/// Returns the variables bound by the products of a multi argument function type,
/// the outermost one indexed 0.
pub fn get_variables_as_terms(fun_type: &CicTerm) -> (r: Vec<CicTerm>)
    requires
        prod_len(fun_type@) <= i32::MAX,
    ensures
        view_seq(r@) == spec_variables_as_terms(fun_type@, 0),
{
    variables_from(fun_type, 0)
}

fn variables_from(fun_type: &CicTerm, index: i32) -> (r: Vec<CicTerm>)
    requires
        0 <= index,
        index + prod_len(fun_type@) <= i32::MAX,
    ensures
        view_seq(r@) == spec_variables_as_terms(fun_type@, index as int),
    decreases fun_type,
{
    match fun_type {
        CicTerm::Product(var_name, _domain, codomain) => {
            let next = if index < i32::MAX { index + 1 } else { index };
            let rec = if index < i32::MAX { variables_from(codomain, next) } else { Vec::new() };
            proof {
                if index == i32::MAX {
                    assert(prod_len(codomain@) == 0);
                    assert(spec_variables_as_terms(codomain@, index + 1) =~= seq![]);
                }
            }
            let mut result = vec![CicTerm::Variable(var_name.clone(), NameKind::Bound(index))];
            let mut rec = rec;
            result.append(&mut rec);
            assert(view_seq(result@) =~= spec_variables_as_terms(fun_type@, index as int));
            result
        },
        _ => {
            assert(view_seq(Seq::<CicTerm>::empty()) =~= seq![]);
            Vec::new()
        },
    }
}

/// Returns the types of the arguments of a multi argument function type.
pub fn get_arg_types(fun_type: &CicTerm) -> (r: Vec<CicTerm>)
    ensures
        view_seq(r@) == spec_arg_types(fun_type@),
    decreases fun_type,
{
    match fun_type {
        CicTerm::Product(_, domain, codomain) => {
            let mut result: Vec<CicTerm> = vec![copy_term(domain)];
            let mut rec = get_arg_types(codomain);
            result.append(&mut rec);
            assert(view_seq(result@) =~= spec_arg_types(fun_type@));
            result
        },
        _ => {
            assert(view_seq(Seq::<CicTerm>::empty()) =~= seq![]);
            Vec::new()
        },
    }
}

/// Takes a function term and returns the application of it to all the given arguments.
pub fn apply_arguments(fun: &CicTerm, args: Vec<CicTerm>) -> (r: CicTerm)
    ensures
        r@ == spec_apply_args(fun@, view_seq(args@)),
{
    let mut application = copy_term(fun);
    let mut i: usize = 0;
    let ghost vargs = view_seq(args@);
    while i < args.len()
        invariant
            vargs == view_seq(args@),
            i <= args@.len(),
            application@ == spec_apply_args(fun@, vargs.subrange(0, i as int)),
        decreases args@.len() - i,
    {
        let arg = copy_term(&args[i]);
        proof {
            assert(vargs.subrange(0, i + 1).drop_last() =~= vargs.subrange(0, i as int));
        }
        application = CicTerm::Application(Box::new(application), Box::new(arg));
        i = i + 1;
    }
    assert(vargs.subrange(0, args@.len() as int) =~= vargs);
    application
}


/// Clones the given product, swapping the innermost body term with `new_result`.
pub fn clone_product_with_different_result(product: &CicTerm, new_result: CicTerm) -> (r: CicTerm)
    ensures
        r@ == spec_replace_result(product@, new_result@),
    decreases product,
{
    match product {
        CicTerm::Product(var_name, domain, codomain) => {
            let new_codomain = clone_product_with_different_result(codomain, new_result);
            CicTerm::Product(var_name.clone(), Box::new(copy_term(domain)), Box::new(new_codomain))
        },
        _ => new_result,
    }
}

/// Clones `proof_term`, swapping the hole at the end of its abstraction chain with `new_body`.
pub fn swap_proof_hole(proof_term: &CicTerm, new_body: &CicTerm) -> (r: CicTerm)
    requires
        has_hole_shape(proof_term@),
    ensures
        r@ == spec_swap_hole(proof_term@, new_body@),
    decreases proof_term,
{
    match proof_term {
        CicTerm::Abstraction(var_name, var_type, body) => {
            let new_inner = swap_proof_hole(body, new_body);
            CicTerm::Abstraction(var_name.clone(), Box::new(copy_term(var_type)), Box::new(new_inner))
        },
        _ => copy_term(new_body),
    }
}

/// Returns the innermost body of a series of nested products (the return type of a function).
pub fn get_prod_innermost(term: &CicTerm) -> (r: &CicTerm)
    ensures
        r@ == spec_prod_innermost(term@),
    decreases term,
{
    match term {
        CicTerm::Product(_, _, codomain) => get_prod_innermost(codomain),
        _ => term,
    }
}

/// Given a multi argument application, returns all the arguments being applied.
pub fn application_args(application: &CicTerm) -> (r: Vec<CicTerm>)
    ensures
        view_seq(r@) == spec_application_args(application@),
    decreases application,
{
    match application {
        CicTerm::Application(left, right) => {
            let mut rec = application_args(left);
            rec.push(copy_term(right));
            assert(view_seq(rec@) =~= spec_application_args(application@));
            rec
        },
        _ => {
            assert(view_seq(Seq::<CicTerm>::empty()) =~= seq![]);
            Vec::new()
        },
    }
}

/// Given a multi argument application, returns its head (the function being applied).
pub fn get_applied_function(application: &CicTerm) -> (r: CicTerm)
    ensures
        r@ == spec_applied_function(application@),
    decreases application,
{
    match application {
        CicTerm::Application(left, _) => get_applied_function(left),
        _ => copy_term(application),
    }
}

/// Returns `true` iff `term` is an instance of the type named `name`.
pub fn is_instance_of(term: &CicTerm, name: &str) -> (r: bool)
    ensures
        r == spec_is_instance_of(term@, name@),
    decreases term,
{
    match term {
        CicTerm::Variable(var_name, _) => crate::text::str_eq(var_name.as_str(), name),
        CicTerm::Application(dep_type, _) => is_instance_of(dep_type, name),
        _ => false,
    }
}

/// Returns `true` iff `term` is a constant symbol.
pub fn is_constant(term: &CicTerm) -> (r: bool)
    ensures
        r == spec_is_constant(term@),
{
    match term {
        CicTerm::Variable(_, NameKind::Const()) => true,
        _ => false,
    }
}

/// Returns `true` iff `term` references the name `name`.
pub fn references(term: &CicTerm, name: &str) -> (r: bool)
    ensures
        r == spec_references(term@, name@),
    decreases term,
{
    match term {
        CicTerm::Variable(var_name, _) => crate::text::str_eq(var_name.as_str(), name),
        CicTerm::Sort(sort_name) => crate::text::str_eq(sort_name.as_str(), name),
        CicTerm::Application(left, right) => references(left, name) || references(right, name),
        CicTerm::Abstraction(_, domain, codomain) => references(domain, name) || references(codomain, name),
        CicTerm::Product(_, domain, codomain) => references(domain, name) || references(codomain, name),
        CicTerm::Let(_, var_type, definition, scope) => {
            let in_type = match &**var_type {
                Some(t) => references(t, name),
                None => false,
            };
            in_type || references(definition, name) || references(scope, name)
        },
        CicTerm::Match(matched_term, branches) => {
            proof {
                lemma_match_view(**matched_term, *branches);
            }
            let mut found = references(matched_term, name);
            let ghost bs = view_branches(branches@);
            let mut acc = false;
            let mut i: usize = 0;
            while i < branches.len()
                invariant
                    *term == CicTerm::Match(*matched_term, *branches),
                    bs == view_branches(branches@),
                    i <= branches@.len(),
                    acc == spec_references_branches(bs.subrange(0, i as int), name@),
                decreases branches@.len() - i,
            {
                proof {
                    assert(decreases_to!(*term => (*term)->Match_1));
                    assert(decreases_to!(*branches => branches@));
                    assert(decreases_to!(branches@ => branches@[i as int]));
                    assert(bs[i as int].0 == branches@[i as int].0@);
                    assert(bs[i as int].1 == branches@[i as int].1@);
                    assert(bs.subrange(0, i + 1).subrange(0, i as int) =~= bs.subrange(0, i as int));
                }
                let in_pattern = references(&branches[i].0, name);
                let in_body = references(&branches[i].1, name);
                acc = acc || in_pattern || in_body;
                i = i + 1;
            }
            proof {
                assert(bs.subrange(0, branches@.len() as int) =~= bs);
            }
            found || acc
        },
        CicTerm::Meta(_) => false,
    }
}

/// Returns `true` iff no argument type of `function_type` references `name`.
pub fn check_positivity(function_type: &CicTerm, name: &str) -> (r: bool)
    ensures
        r == spec_positive(function_type@, name@),
{
    let arg_types = get_arg_types(function_type);
    let mut i: usize = 0;
    while i < arg_types.len()
        invariant
            view_seq(arg_types@) == spec_arg_types(function_type@),
            i <= arg_types@.len(),
            forall|j: int| 0 <= j < i ==> !spec_references(#[trigger] spec_arg_types(function_type@)[j], name@),
        decreases arg_types@.len() - i,
    {
        if references(&arg_types[i], name) {
            assert(spec_arg_types(function_type@)[i as int] == arg_types@[i as int]@);
            return false;
        }
        i = i + 1;
    }
    true
}

/// Creates the type of a function with named arguments `arg_types` that returns `base`.
pub fn make_multiarg_fun_type(arg_types: &[(String, CicTerm)], base: &CicTerm) -> (r: CicTerm)
    ensures
        r@ == spec_multiarg_fun_type(view_named(arg_types@), base@),
{
    let mut result = copy_term(base);
    let mut i: usize = arg_types.len();
    let ghost args = view_named(arg_types@);
    while i > 0
        invariant
            args == view_named(arg_types@),
            i <= arg_types@.len(),
            result@ == spec_multiarg_fun_type(args.skip(i as int), base@),
        decreases i,
    {
        i = i - 1;
        proof {
            assert(args.skip(i as int).skip(1) =~= args.skip(i + 1));
        }
        result = CicTerm::Product(arg_types[i].0.clone(), Box::new(copy_term(&arg_types[i].1)), Box::new(result));
    }
    assert(args.skip(0) =~= args);
    result
}


//########################### METAVARIABLES AND PATTERNS

/// Returns `term` where each occurrence of the metavariable `target` is replaced by `arg`.
pub fn substitute_meta(term: &CicTerm, target: &i32, arg: &CicTerm) -> (r: CicTerm)
    ensures
        r@ == spec_substitute_meta(term@, *target, arg@),
    decreases term,
{
    match term {
        CicTerm::Meta(index) => {
            if *index == *target {
                copy_term(arg)
            } else {
                copy_term(term)
            }
        },
        CicTerm::Sort(_) => copy_term(term),
        CicTerm::Variable(_, _) => copy_term(term),
        CicTerm::Application(left, right) => CicTerm::Application(
            Box::new(substitute_meta(left, target, arg)),
            Box::new(substitute_meta(right, target, arg)),
        ),
        CicTerm::Abstraction(var_name, domain, codomain) => CicTerm::Abstraction(
            var_name.clone(),
            Box::new(substitute_meta(domain, target, arg)),
            Box::new(substitute_meta(codomain, target, arg)),
        ),
        CicTerm::Product(var_name, domain, codomain) => CicTerm::Product(
            var_name.clone(),
            Box::new(substitute_meta(domain, target, arg)),
            Box::new(substitute_meta(codomain, target, arg)),
        ),
        CicTerm::Let(var_name, var_type, body, scope) => {
            let new_type = match &**var_type {
                Some(t) => Some(substitute_meta(t, target, arg)),
                None => None,
            };
            CicTerm::Let(
                var_name.clone(),
                Box::new(new_type),
                Box::new(substitute_meta(body, target, arg)),
                Box::new(substitute_meta(scope, target, arg)),
            )
        },
        CicTerm::Match(matched_term, branches) => {
            proof {
                lemma_match_view(**matched_term, *branches);
            }
            let new_matched = substitute_meta(matched_term, target, arg);
            let mut out: Vec<(CicTerm, CicTerm)> = Vec::new();
            let mut i: usize = 0;
            while i < branches.len()
                invariant
                    *term == CicTerm::Match(*matched_term, *branches),
                    i <= branches@.len(),
                    out@.len() == i,
                    forall|j: int|
                        0 <= j < i ==> {
                            &&& (#[trigger] out@[j]).0@ == spec_substitute_meta(branches@[j].0@, *target, arg@)
                            &&& out@[j].1@ == spec_substitute_meta(branches@[j].1@, *target, arg@)
                        },
                decreases branches@.len() - i,
            {
                proof {
                    assert(decreases_to!(*term => (*term)->Match_1));
                    assert(decreases_to!(*branches => branches@));
                    assert(decreases_to!(branches@ => branches@[i as int]));
                }
                let p = substitute_meta(&branches[i].0, target, arg);
                let b = substitute_meta(&branches[i].1, target, arg);
                out.push((p, b));
                i = i + 1;
            }
            proof {
                lemma_match_view(new_matched, out);
                assert(view_branches(out@) =~= (spec_substitute_meta(term@, *target, arg@))->Match_1);
            }
            CicTerm::Match(Box::new(new_matched), out)
        },
    }
}

/// The binder names a match pattern introduces, depth first left to right:
/// every variable in an argument position of the pattern's constructor
/// spine, at any nesting depth.
pub fn pattern_binder_names(pattern: &CicTerm) -> (r: Vec<String>)
    ensures
        view_strings(r@) == spec_pattern_binder_names(pattern@),
    decreases pattern, 0int,
{
    match pattern {
        CicTerm::Application(left, right) => {
            let mut names = pattern_binder_names(left);
            let mut more = arg_binder_names(right);
            names.append(&mut more);
            assert(view_strings(names@) =~= spec_pattern_binder_names(pattern@));
            names
        },
        _ => {
            assert(view_strings(Seq::<String>::empty()) =~= seq![]);
            Vec::new()
        },
    }
}

fn arg_binder_names(arg: &CicTerm) -> (r: Vec<String>)
    ensures
        view_strings(r@) == spec_arg_binder_names(arg@),
    decreases arg, 1int,
{
    match arg {
        CicTerm::Variable(name, _) => {
            let v = vec![name.clone()];
            assert(view_strings(v@) =~= spec_arg_binder_names(arg@));
            v
        },
        CicTerm::Application(_, _) => pattern_binder_names(arg),
        _ => {
            assert(view_strings(Seq::<String>::empty()) =~= seq![]);
            Vec::new()
        },
    }
}

/// How many binders a match pattern introduces for its branch.
pub fn pattern_binder_count(pattern: &CicTerm) -> (r: i32)
    requires
        spec_binder_count(pattern@) <= i32::MAX,
    ensures
        r == spec_binder_count(pattern@),
{
    let names = pattern_binder_names(pattern);
    names.len() as i32
}



/// Opening of `term` at binder `depth`.
fn open_from(term: &CicTerm, name: &str, depth: i32) -> (r: CicTerm)
    requires
        depth_ok(term@, depth as int, i32::MAX as int),
    ensures
        r@ == spec_open(term@, name@, depth as int),
    decreases term,
{
    match term {
        CicTerm::Variable(var_name, NameKind::Bound(dbi)) => {
            if *dbi == depth {
                CicTerm::Variable(String::from_str(name), NameKind::Local())
            } else if *dbi > depth {
                CicTerm::Variable(var_name.clone(), NameKind::Bound(*dbi - 1))
            } else {
                copy_term(term)
            }
        },
        CicTerm::Application(left, right) => CicTerm::Application(
            Box::new(open_from(left, name, depth)),
            Box::new(open_from(right, name, depth)),
        ),
        CicTerm::Abstraction(var_name, domain, codomain) => CicTerm::Abstraction(
            var_name.clone(),
            Box::new(open_from(domain, name, depth)),
            Box::new(open_from(codomain, name, depth + 1)),
        ),
        CicTerm::Product(var_name, domain, codomain) => CicTerm::Product(
            var_name.clone(),
            Box::new(open_from(domain, name, depth)),
            Box::new(open_from(codomain, name, depth + 1)),
        ),
        CicTerm::Let(var_name, var_type, definition, scope) => {
            let new_type = match &**var_type {
                Some(t) => Some(open_from(t, name, depth + 1)),
                None => None,
            };
            CicTerm::Let(
                var_name.clone(),
                Box::new(new_type),
                Box::new(open_from(definition, name, depth)),
                Box::new(open_from(scope, name, depth + 1)),
            )
        },
        CicTerm::Match(matched_term, branches) => {
            proof {
                lemma_match_view(**matched_term, *branches);
            }
            let new_matched = open_from(matched_term, name, depth);
            let mut out: Vec<(CicTerm, CicTerm)> = Vec::new();
            let mut i: usize = 0;
            while i < branches.len()
                invariant
                    *term == CicTerm::Match(*matched_term, *branches),
                    term@ == Term::Match(Box::new(matched_term@), view_branches(branches@)),
                    depth_ok(term@, depth as int, i32::MAX as int),
                    i <= branches@.len(),
                    out@.len() == i,
                    forall|j: int|
                        0 <= j < i ==> {
                            &&& (#[trigger] out@[j]).0@ == spec_open(branches@[j].0@, name@, depth + spec_binder_count(branches@[j].0@))
                            &&& out@[j].1@ == spec_open(branches@[j].1@, name@, depth + spec_binder_count(branches@[j].0@))
                        },
                decreases branches@.len() - i,
            {
                proof {
                    assert(decreases_to!(*term => (*term)->Match_1));
                    assert(decreases_to!(*branches => branches@));
                    assert(decreases_to!(branches@ => branches@[i as int]));
                    assert(view_branches(branches@)[i as int].0 == branches@[i as int].0@);
                    assert(view_branches(branches@)[i as int].1 == branches@[i as int].1@);
                    lemma_depth_ok_branch(matched_term@, view_branches(branches@), i as int, depth as int, i32::MAX as int);
                }
                let count = pattern_binder_count(&branches[i].0);
                let inner = depth + count;
                let p = open_from(&branches[i].0, name, inner);
                let b = open_from(&branches[i].1, name, inner);
                out.push((p, b));
                i = i + 1;
            }
            proof {
                lemma_match_view(new_matched, out);
                assert(view_branches(out@) =~= (spec_open(term@, name@, depth as int))->Match_1);
            }
            CicTerm::Match(Box::new(new_matched), out)
        },
        _ => copy_term(term),
    }
}

/// Closing of `term` at binder `depth`.
fn close_from(term: &CicTerm, name: &str, depth: i32) -> (r: CicTerm)
    requires
        depth_ok(term@, depth as int, i32::MAX as int),
        indices_le(term@, i32::MAX - 1),
    ensures
        r@ == spec_close(term@, name@, depth as int),
    decreases term,
{
    match term {
        CicTerm::Variable(var_name, NameKind::Bound(dbi)) => {
            if *dbi >= depth {
                CicTerm::Variable(var_name.clone(), NameKind::Bound(*dbi + 1))
            } else {
                copy_term(term)
            }
        },
        CicTerm::Variable(var_name, NameKind::Local()) => {
            if crate::text::str_eq(var_name.as_str(), name) {
                CicTerm::Variable(var_name.clone(), NameKind::Bound(depth))
            } else {
                copy_term(term)
            }
        },
        CicTerm::Application(left, right) => CicTerm::Application(
            Box::new(close_from(left, name, depth)),
            Box::new(close_from(right, name, depth)),
        ),
        CicTerm::Abstraction(var_name, domain, codomain) => CicTerm::Abstraction(
            var_name.clone(),
            Box::new(close_from(domain, name, depth)),
            Box::new(close_from(codomain, name, depth + 1)),
        ),
        CicTerm::Product(var_name, domain, codomain) => CicTerm::Product(
            var_name.clone(),
            Box::new(close_from(domain, name, depth)),
            Box::new(close_from(codomain, name, depth + 1)),
        ),
        CicTerm::Let(var_name, var_type, definition, scope) => {
            let new_type = match &**var_type {
                Some(t) => Some(close_from(t, name, depth + 1)),
                None => None,
            };
            CicTerm::Let(
                var_name.clone(),
                Box::new(new_type),
                Box::new(close_from(definition, name, depth)),
                Box::new(close_from(scope, name, depth + 1)),
            )
        },
        CicTerm::Match(matched_term, branches) => {
            proof {
                lemma_match_view(**matched_term, *branches);
            }
            let new_matched = close_from(matched_term, name, depth);
            let mut out: Vec<(CicTerm, CicTerm)> = Vec::new();
            let mut i: usize = 0;
            while i < branches.len()
                invariant
                    *term == CicTerm::Match(*matched_term, *branches),
                    term@ == Term::Match(Box::new(matched_term@), view_branches(branches@)),
                    depth_ok(term@, depth as int, i32::MAX as int),
                    indices_le(term@, i32::MAX - 1),
                    i <= branches@.len(),
                    out@.len() == i,
                    forall|j: int|
                        0 <= j < i ==> {
                            &&& (#[trigger] out@[j]).0@ == spec_close(branches@[j].0@, name@, depth + spec_binder_count(branches@[j].0@))
                            &&& out@[j].1@ == spec_close(branches@[j].1@, name@, depth + spec_binder_count(branches@[j].0@))
                        },
                decreases branches@.len() - i,
            {
                proof {
                    assert(decreases_to!(*term => (*term)->Match_1));
                    assert(decreases_to!(*branches => branches@));
                    assert(decreases_to!(branches@ => branches@[i as int]));
                    assert(view_branches(branches@)[i as int].0 == branches@[i as int].0@);
                    assert(view_branches(branches@)[i as int].1 == branches@[i as int].1@);
                    lemma_depth_ok_branch(matched_term@, view_branches(branches@), i as int, depth as int, i32::MAX as int);
                    lemma_indices_le_branch(matched_term@, view_branches(branches@), i as int, i32::MAX - 1);
                }
                let count = pattern_binder_count(&branches[i].0);
                let inner = depth + count;
                let p = close_from(&branches[i].0, name, inner);
                let b = close_from(&branches[i].1, name, inner);
                out.push((p, b));
                i = i + 1;
            }
            proof {
                lemma_match_view(new_matched, out);
                assert(view_branches(out@) =~= (spec_close(term@, name@, depth as int))->Match_1);
            }
            CicTerm::Match(Box::new(new_matched), out)
        },
        _ => copy_term(term),
    }
}

/// Shifting of the indices of `term` at or past `cutoff`.
fn shift_from(term: &CicTerm, amount: i32, cutoff: i32) -> (r: CicTerm)
    requires
        0 <= amount,
        depth_ok(term@, cutoff as int, i32::MAX as int),
        indices_le(term@, i32::MAX - amount),
    ensures
        r@ == spec_shift_from(term@, amount as int, cutoff as int),
    decreases term,
{
    match term {
        CicTerm::Variable(var_name, NameKind::Bound(dbi)) => {
            if *dbi >= cutoff {
                CicTerm::Variable(var_name.clone(), NameKind::Bound(*dbi + amount))
            } else {
                copy_term(term)
            }
        },
        CicTerm::Application(left, right) => CicTerm::Application(
            Box::new(shift_from(left, amount, cutoff)),
            Box::new(shift_from(right, amount, cutoff)),
        ),
        CicTerm::Abstraction(var_name, domain, codomain) => CicTerm::Abstraction(
            var_name.clone(),
            Box::new(shift_from(domain, amount, cutoff)),
            Box::new(shift_from(codomain, amount, cutoff + 1)),
        ),
        CicTerm::Product(var_name, domain, codomain) => CicTerm::Product(
            var_name.clone(),
            Box::new(shift_from(domain, amount, cutoff)),
            Box::new(shift_from(codomain, amount, cutoff + 1)),
        ),
        CicTerm::Let(var_name, var_type, definition, scope) => {
            let new_type = match &**var_type {
                Some(t) => Some(shift_from(t, amount, cutoff + 1)),
                None => None,
            };
            CicTerm::Let(
                var_name.clone(),
                Box::new(new_type),
                Box::new(shift_from(definition, amount, cutoff)),
                Box::new(shift_from(scope, amount, cutoff + 1)),
            )
        },
        CicTerm::Match(matched_term, branches) => {
            proof {
                lemma_match_view(**matched_term, *branches);
            }
            let new_matched = shift_from(matched_term, amount, cutoff);
            let mut out: Vec<(CicTerm, CicTerm)> = Vec::new();
            let mut i: usize = 0;
            while i < branches.len()
                invariant
                    *term == CicTerm::Match(*matched_term, *branches),
                    term@ == Term::Match(Box::new(matched_term@), view_branches(branches@)),
                    0 <= amount,
                    depth_ok(term@, cutoff as int, i32::MAX as int),
                    indices_le(term@, i32::MAX - amount),
                    i <= branches@.len(),
                    out@.len() == i,
                    forall|j: int|
                        0 <= j < i ==> {
                            &&& (#[trigger] out@[j]).0@ == spec_shift_from(branches@[j].0@, amount as int, cutoff + spec_binder_count(branches@[j].0@))
                            &&& out@[j].1@ == spec_shift_from(branches@[j].1@, amount as int, cutoff + spec_binder_count(branches@[j].0@))
                        },
                decreases branches@.len() - i,
            {
                proof {
                    assert(decreases_to!(*term => (*term)->Match_1));
                    assert(decreases_to!(*branches => branches@));
                    assert(decreases_to!(branches@ => branches@[i as int]));
                    assert(view_branches(branches@)[i as int].0 == branches@[i as int].0@);
                    assert(view_branches(branches@)[i as int].1 == branches@[i as int].1@);
                    lemma_depth_ok_branch(matched_term@, view_branches(branches@), i as int, cutoff as int, i32::MAX as int);
                    lemma_indices_le_branch(matched_term@, view_branches(branches@), i as int, i32::MAX - amount);
                }
                let count = pattern_binder_count(&branches[i].0);
                let inner = cutoff + count;
                let p = shift_from(&branches[i].0, amount, inner);
                let b = shift_from(&branches[i].1, amount, inner);
                out.push((p, b));
                i = i + 1;
            }
            proof {
                lemma_match_view(new_matched, out);
                assert(view_branches(out@) =~= (spec_shift_from(term@, amount as int, cutoff as int))->Match_1);
            }
            CicTerm::Match(Box::new(new_matched), out)
        },
        _ => copy_term(term),
    }
}

/// Substitution into `term` at binder `depth`.
fn substitute_from(term: &CicTerm, target_name: &str, arg: &CicTerm, depth: i32, Ghost(k): Ghost<int>) -> (r: CicTerm)
    requires
        0 <= k,
        depth_ok(term@, depth as int, i32::MAX - k),
        indices_le(arg@, k),
        depth_ok(arg@, 0, i32::MAX as int),
    ensures
        r@ == spec_subst(term@, target_name@, arg@, depth as int),
    decreases term,
{
    match term {
        CicTerm::Variable(var_name, NameKind::Bound(dbi)) => {
            if crate::text::str_eq(var_name.as_str(), target_name) && *dbi == depth {
                proof {
                    lemma_indices_le_mono(arg@, k, i32::MAX - depth);
                }
                shift(arg, depth)
            } else if *dbi > depth {
                CicTerm::Variable(var_name.clone(), NameKind::Bound(*dbi - 1))
            } else {
                copy_term(term)
            }
        },
        CicTerm::Application(left, right) => CicTerm::Application(
            Box::new(substitute_from(left, target_name, arg, depth, Ghost(k))),
            Box::new(substitute_from(right, target_name, arg, depth, Ghost(k))),
        ),
        CicTerm::Abstraction(var_name, domain, codomain) => CicTerm::Abstraction(
            var_name.clone(),
            Box::new(substitute_from(domain, target_name, arg, depth, Ghost(k))),
            Box::new(substitute_from(codomain, target_name, arg, depth + 1, Ghost(k))),
        ),
        CicTerm::Product(var_name, domain, codomain) => CicTerm::Product(
            var_name.clone(),
            Box::new(substitute_from(domain, target_name, arg, depth, Ghost(k))),
            Box::new(substitute_from(codomain, target_name, arg, depth + 1, Ghost(k))),
        ),
        CicTerm::Let(var_name, var_type, definition, scope) => {
            let new_type = match &**var_type {
                Some(t) => Some(substitute_from(t, target_name, arg, depth + 1, Ghost(k))),
                None => None,
            };
            CicTerm::Let(
                var_name.clone(),
                Box::new(new_type),
                Box::new(substitute_from(definition, target_name, arg, depth, Ghost(k))),
                Box::new(substitute_from(scope, target_name, arg, depth + 1, Ghost(k))),
            )
        },
        CicTerm::Match(matched_term, branches) => {
            proof {
                lemma_match_view(**matched_term, *branches);
            }
            let new_matched = substitute_from(matched_term, target_name, arg, depth, Ghost(k));
            let mut out: Vec<(CicTerm, CicTerm)> = Vec::new();
            let mut i: usize = 0;
            while i < branches.len()
                invariant
                    *term == CicTerm::Match(*matched_term, *branches),
                    term@ == Term::Match(Box::new(matched_term@), view_branches(branches@)),
                    0 <= k,
                    depth_ok(term@, depth as int, i32::MAX - k),
                    indices_le(arg@, k),
                    depth_ok(arg@, 0, i32::MAX as int),
                    i <= branches@.len(),
                    out@.len() == i,
                    forall|j: int|
                        0 <= j < i ==> {
                            &&& (#[trigger] out@[j]).0@ == spec_subst(branches@[j].0@, target_name@, arg@, depth + spec_binder_count(branches@[j].0@))
                            &&& out@[j].1@ == spec_subst(branches@[j].1@, target_name@, arg@, depth + spec_binder_count(branches@[j].0@))
                        },
                decreases branches@.len() - i,
            {
                proof {
                    assert(decreases_to!(*term => (*term)->Match_1));
                    assert(decreases_to!(*branches => branches@));
                    assert(decreases_to!(branches@ => branches@[i as int]));
                    assert(view_branches(branches@)[i as int].0 == branches@[i as int].0@);
                    assert(view_branches(branches@)[i as int].1 == branches@[i as int].1@);
                    lemma_depth_ok_branch(matched_term@, view_branches(branches@), i as int, depth as int, i32::MAX - k);
                }
                let count = pattern_binder_count(&branches[i].0);
                let inner = depth + count;
                let p = substitute_from(&branches[i].0, target_name, arg, inner, Ghost(k));
                let b = substitute_from(&branches[i].1, target_name, arg, inner, Ghost(k));
                out.push((p, b));
                i = i + 1;
            }
            proof {
                lemma_match_view(new_matched, out);
                assert(view_branches(out@) =~= (spec_subst(term@, target_name@, arg@, depth as int))->Match_1);
            }
            CicTerm::Match(Box::new(new_matched), out)
        },
        _ => copy_term(term),
    }
}

/// Increases every free index of `term` by `amount`.
fn shift(term: &CicTerm, amount: i32) -> (r: CicTerm)
    requires
        0 <= amount,
        depth_ok(term@, 0, i32::MAX as int),
        indices_le(term@, i32::MAX - amount),
    ensures
        r@ == spec_shift(term@, amount as int),
{
    if amount == 0 {
        copy_term(term)
    } else {
        shift_from(term, amount, 0)
    }
}


//########################### LOCALLY NAMELESS OPERATIONS

/// Replaces every occurrence of the binder `body` is the body of with a
/// locally free reference called `name` (the `open` of a locally nameless
/// representation).
pub fn open_term(body: &CicTerm, name: &str) -> (r: CicTerm)
    requires
        depth_ok(body@, 0, i32::MAX as int),
    ensures
        r@ == spec_open(body@, name@, 0),
{
    open_from(body, name, 0)
}

/// Inverse of `open_term`: turns the locally free `name` back into the De
/// Bruijn index of the binder being rebuilt around `body`.
pub fn close_term(body: &CicTerm, name: &str) -> (r: CicTerm)
    requires
        depth_ok(body@, 0, i32::MAX as int),
        indices_le(body@, i32::MAX - 1),
    ensures
        r@ == spec_close(body@, name@, 0),
{
    close_from(body, name, 0)
}

/// Every use of the name `target_name` in `term`, whatever its kind, replaced
/// by `arg`; other names keep their kind and index.
pub fn substitute(term: &CicTerm, target_name: &str, arg: &CicTerm) -> (r: CicTerm)
    ensures
        r@ == spec_rename(term@, target_name@, arg@),
    decreases term,
{
    match term {
        CicTerm::Variable(var_name, _) => {
            if crate::text::str_eq(var_name.as_str(), target_name) {
                copy_term(arg)
            } else {
                copy_term(term)
            }
        },
        CicTerm::Application(left, right) => CicTerm::Application(
            Box::new(substitute(left, target_name, arg)),
            Box::new(substitute(right, target_name, arg)),
        ),
        CicTerm::Abstraction(var_name, domain, codomain) => CicTerm::Abstraction(
            var_name.clone(),
            Box::new(substitute(domain, target_name, arg)),
            Box::new(substitute(codomain, target_name, arg)),
        ),
        CicTerm::Product(var_name, domain, codomain) => CicTerm::Product(
            var_name.clone(),
            Box::new(substitute(domain, target_name, arg)),
            Box::new(substitute(codomain, target_name, arg)),
        ),
        CicTerm::Let(var_name, var_type, definition, scope) => {
            let new_type = match &**var_type {
                Some(t) => Some(substitute(t, target_name, arg)),
                None => None,
            };
            CicTerm::Let(
                var_name.clone(),
                Box::new(new_type),
                Box::new(substitute(definition, target_name, arg)),
                Box::new(substitute(scope, target_name, arg)),
            )
        },
        CicTerm::Match(matched_term, branches) => {
            proof {
                lemma_match_view(**matched_term, *branches);
            }
            let new_matched = substitute(matched_term, target_name, arg);
            let mut out: Vec<(CicTerm, CicTerm)> = Vec::new();
            let mut i: usize = 0;
            while i < branches.len()
                invariant
                    *term == CicTerm::Match(*matched_term, *branches),
                    term@ == Term::Match(Box::new(matched_term@), view_branches(branches@)),
                    i <= branches@.len(),
                    out@.len() == i,
                    forall|j: int|
                        0 <= j < i ==> {
                            &&& (#[trigger] out@[j]).0@ == spec_rename(branches@[j].0@, target_name@, arg@)
                            &&& out@[j].1@ == spec_rename(branches@[j].1@, target_name@, arg@)
                        },
                decreases branches@.len() - i,
            {
                proof {
                    assert(decreases_to!(*term => (*term)->Match_1));
                    assert(decreases_to!(*branches => branches@));
                    assert(decreases_to!(branches@ => branches@[i as int]));
                }
                let p = substitute(&branches[i].0, target_name, arg);
                let b = substitute(&branches[i].1, target_name, arg);
                out.push((p, b));
                i = i + 1;
            }
            proof {
                lemma_match_view(new_matched, out);
                assert(view_branches(out@) =~= (spec_rename(term@, target_name@, arg@))->Match_1);
            }
            CicTerm::Match(Box::new(new_matched), out)
        },
        _ => copy_term(term),
    }
}

/// Substitutes `arg` for the bound variable `target_name` of the binder
/// `term` is the body of, and lowers the indices past the removed binder.
pub fn substitute_and_lift(term: &CicTerm, target_name: &str, arg: &CicTerm) -> (r: CicTerm)
    requires
        fits_substitution(term@, arg@),
    ensures
        r@ == spec_subst(term@, target_name@, arg@, 0),
{
    let ghost k = choose|k: int| 0 <= k && depth_ok(term@, 0, i32::MAX - k) && indices_le(arg@, k) && depth_ok(arg@, 0, i32::MAX as int);
    substitute_from(term, target_name, arg, 0, Ghost(k))
}

/// Returns `term` where every occurrence of `var_name` as a variable, of
/// whatever kind, becomes the constant symbol of that name.
pub fn mark_as_constant(term: CicTerm, var_name: &str) -> (r: CicTerm)
    ensures
        r@ == spec_rename(term@, var_name@, Term::Var(var_name@, NameKind::Const())),
{
    let constant = CicTerm::Variable(String::from_str(var_name), NameKind::Const());
    substitute(&term, var_name, &constant)
}

} // verus!
