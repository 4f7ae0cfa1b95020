use vstd::prelude::*;
use std::collections::VecDeque;
use vstd::string::*;
use crate::cic::model::{spec_application_args, spec_applied_function, spec_subst, spec_substitute_meta};
use crate::cic::term::{copy_term, lemma_match_view, view_branches, CicTerm, NameKind, Term};
use crate::cic::bounds::{subst_fits, try_substitute};
use crate::cic::render::{render_term, spec_render};
use crate::cic::utils::substitute_meta;
use crate::commons::unification::{subst_lookup, view_entries, Substitution};
use crate::error::LofError;
use crate::text::{
    concat, decimal_i64, law_parse_decimal_roundtrip, parse_i32, spec_int_decimal, spec_parse_i32,
    spec_starts_with, starts_with, str_eq,
};

verus! {

broadcast use vstd::std_specs::vecdeque::group_vec_dequeue_axioms;

//########################### COMPONENTS

/// The key naming a substitutable term: `metavariable_<index>` for a
/// metavariable, `variable_<name>` for a variable that is not a constant.
pub open spec fn spec_key(t: Term) -> Option<Seq<char>> {
    match t {
        Term::Meta(i) => Some("metavariable_"@ + spec_int_decimal(i as int)),
        Term::Var(n, k) => if k != NameKind::Const() {
            Some("variable_"@ + n)
        } else {
            None
        },
        _ => None,
    }
}

/// The key of `term` if unification may solve it: a metavariable or a
/// variable that is not a constant.
pub fn is_substitutable(term: &CicTerm) -> (r: Option<String>)
    ensures
        match spec_key(term@) {
            Some(k) => r matches Some(s) && s@ == k,
            None => r is None,
        },
{
    match term {
        CicTerm::Meta(idx) => {
            let digits = decimal_i64(*idx as i64);
            Some(concat("metavariable_", digits.as_str()))
        },
        CicTerm::Variable(var_name, kind) => {
            if *kind != NameKind::Const() {
                Some(concat("variable_", var_name.as_str()))
            } else {
                None
            }
        },
        _ => None,
    }
}

/// Whether two terms have the same outer shape, up to what unification
/// solves later: binder names are ignored, bound variables compare by
/// position (a name flagged constant on one side only is the same
/// variable), applications compare their heads and argument counts,
/// `match`es their number of branches.
pub open spec fn spec_structurally_equal(t1: Term, t2: Term) -> bool
    decreases t1, 1int,
{
    match (t1, t2) {
        (Term::Sort(_), Term::Sort(_)) => true,
        (Term::Meta(_), Term::Meta(_)) => true,
        (Term::Meta(_), Term::Var(_, k)) => k == NameKind::Const(),
        (Term::Var(_, k), Term::Meta(_)) => k == NameKind::Const(),
        (Term::Var(n1, k1), Term::Var(n2, k2)) => {
            ||| (k1 == k2 && (k1 != NameKind::Const() || n1 == n2))
            ||| (n1 == n2 && ((k1 == NameKind::Const()) != (k2 == NameKind::Const())))
        },
        (Term::Abs(_, a1, b1), Term::Abs(_, a2, b2)) => spec_structurally_equal(*a1, *a2)
            && spec_structurally_equal(*b1, *b2),
        (Term::Prod(_, a1, b1), Term::Prod(_, a2, b2)) => spec_structurally_equal(*a1, *a2)
            && spec_structurally_equal(*b1, *b2),
        (Term::App(_, _), Term::App(_, _)) => spec_spine_equal(t1, t2),
        (Term::Let(_, _, b1, s1), Term::Let(_, _, b2, s2)) => spec_structurally_equal(*b1, *b2)
            && spec_structurally_equal(*s1, *s2),
        (Term::Match(_, bs1), Term::Match(_, bs2)) => bs1.len() == bs2.len(),
        _ => false,
    }
}

/// Two application spines have as many arguments and structurally equal heads.
pub open spec fn spec_spine_equal(t1: Term, t2: Term) -> bool
    decreases t1, 0int,
{
    match (t1, t2) {
        (Term::App(l1, _), Term::App(l2, _)) => match (*l1, *l2) {
            (Term::App(_, _), Term::App(_, _)) => spec_spine_equal(*l1, *l2),
            (Term::App(_, _), _) => false,
            (_, Term::App(_, _)) => false,
            _ => spec_structurally_equal(*l1, *l2),
        },
        _ => false,
    }
}

/// An application spine has at least one argument.
proof fn lemma_app_args_nonempty(t: Term)
    requires
        t is App,
    ensures
        spec_application_args(t).len() >= 1,
{
}

/// Two applications are spine-equal exactly when their heads are
/// structurally equal and they have as many arguments.
pub proof fn lemma_spine_equal_heads(t1: Term, t2: Term)
    requires
        t1 is App,
        t2 is App,
    ensures
        spec_spine_equal(t1, t2) == (spec_structurally_equal(spec_applied_function(t1), spec_applied_function(t2))
            && spec_application_args(t1).len() == spec_application_args(t2).len()),
    decreases t1,
{
    match (t1, t2) {
        (Term::App(l1, _), Term::App(l2, _)) => {
            match (*l1, *l2) {
                (Term::App(_, _), Term::App(_, _)) => {
                    lemma_spine_equal_heads(*l1, *l2);
                    assert(spec_applied_function(t1) == spec_applied_function(*l1));
                    assert(spec_applied_function(t2) == spec_applied_function(*l2));
                    assert(spec_application_args(t1).len() == spec_application_args(*l1).len() + 1);
                    assert(spec_application_args(t2).len() == spec_application_args(*l2).len() + 1);
                },
                (Term::App(_, _), _) => {
                    lemma_app_args_nonempty(*l1);
                    assert(spec_application_args(t1).len() == spec_application_args(*l1).len() + 1);
                    assert(spec_application_args(*l2).len() == 0);
                    assert(spec_application_args(t2).len() == 1);
                },
                (_, Term::App(_, _)) => {
                    lemma_app_args_nonempty(*l2);
                    assert(spec_application_args(t2).len() == spec_application_args(*l2).len() + 1);
                    assert(spec_application_args(*l1).len() == 0);
                    assert(spec_application_args(t1).len() == 1);
                },
                _ => {
                    assert(spec_applied_function(t1) == *l1);
                    assert(spec_applied_function(t2) == *l2);
                    assert(spec_application_args(*l1).len() == 0);
                    assert(spec_application_args(*l2).len() == 0);
                    assert(spec_application_args(t1).len() == 1);
                    assert(spec_application_args(t2).len() == 1);
                },
            }
        },
        _ => {},
    }
}

/// Whether `term1` and `term2` have the same outer shape (see
/// [`spec_structurally_equal`]).
pub fn structurally_equal(term1: &CicTerm, term2: &CicTerm) -> (r: bool)
    ensures
        r == spec_structurally_equal(term1@, term2@),
    decreases term1, 1int,
{
    match (term1, term2) {
        (CicTerm::Sort(_), CicTerm::Sort(_)) => true,
        (CicTerm::Meta(_), CicTerm::Meta(_)) => true,
        (CicTerm::Meta(_), CicTerm::Variable(_, k)) => *k == NameKind::Const(),
        (CicTerm::Variable(_, k), CicTerm::Meta(_)) => *k == NameKind::Const(),
        (CicTerm::Variable(name1, k1), CicTerm::Variable(name2, k2)) => {
            let same_name = *name1 == *name2;
            let same_position = *k1 == *k2 && (*k1 != NameKind::Const() || same_name);
            let same_name_one_side_global = same_name && ((*k1 == NameKind::Const()) != (*k2 == NameKind::Const()));
            same_position || same_name_one_side_global
        },
        (CicTerm::Abstraction(_, type1, body1), CicTerm::Abstraction(_, type2, body2)) => {
            structurally_equal(type1, type2) && structurally_equal(body1, body2)
        },
        (CicTerm::Product(_, type1, body1), CicTerm::Product(_, type2, body2)) => {
            structurally_equal(type1, type2) && structurally_equal(body1, body2)
        },
        (CicTerm::Application(_, _), CicTerm::Application(_, _)) => spine_equal(term1, term2),
        (CicTerm::Let(_, _, body1, scope1), CicTerm::Let(_, _, body2, scope2)) => {
            structurally_equal(body1, body2) && structurally_equal(scope1, scope2)
        },
        (CicTerm::Match(m1, branches1), CicTerm::Match(m2, branches2)) => {
            proof {
                lemma_match_view(**m1, *branches1);
                lemma_match_view(**m2, *branches2);
            }
            branches1.len() == branches2.len()
        },
        _ => false,
    }
}

/// Whether two applications have structurally equal heads and as many arguments.
fn spine_equal(term1: &CicTerm, term2: &CicTerm) -> (r: bool)
    ensures
        r == spec_spine_equal(term1@, term2@),
    decreases term1, 0int,
{
    match (term1, term2) {
        (CicTerm::Application(l1, _), CicTerm::Application(l2, _)) => match (&**l1, &**l2) {
            (CicTerm::Application(_, _), CicTerm::Application(_, _)) => spine_equal(l1, l2),
            (CicTerm::Application(_, _), _) => false,
            (_, CicTerm::Application(_, _)) => false,
            _ => structurally_equal(l1, l2),
        },
        _ => false,
    }
}

/// The subterms unification compares next, in order: the type and body of
/// a binder, the function and argument of an application, the scrutinee
/// then each pattern and body of a `match`, the body and scope of a `let`.
pub open spec fn spec_explode(t: Term) -> Seq<Term> {
    match t {
        Term::Abs(_, a, b) => seq![*a, *b],
        Term::Prod(_, a, b) => seq![*a, *b],
        Term::App(l, r) => seq![*l, *r],
        Term::Match(m, bs) => seq![*m] + spec_flatten_branches(bs),
        Term::Let(_, _, b, s) => seq![*b, *s],
        _ => Seq::empty(),
    }
}

/// Patterns and bodies of a list of branches, interleaved.
pub open spec fn spec_flatten_branches(bs: Seq<(Term, Term)>) -> Seq<Term>
    decreases bs.len(),
{
    if bs.len() == 0 {
        Seq::empty()
    } else {
        spec_flatten_branches(bs.drop_last()) + seq![bs.last().0, bs.last().1]
    }
}

/// The subterms of `term` that unification compares next (see [`spec_explode`]).
pub fn explode(term: &CicTerm) -> (r: Vec<CicTerm>)
    ensures
        r@.map_values(|t: CicTerm| t@) == spec_explode(term@),
{
    let r = match term {
        CicTerm::Abstraction(_, var_type, body) => vec![copy_term(var_type), copy_term(body)],
        CicTerm::Product(_, var_type, body) => vec![copy_term(var_type), copy_term(body)],
        CicTerm::Application(left, right) => vec![copy_term(left), copy_term(right)],
        CicTerm::Match(matched_term, branches) => {
            proof {
                lemma_match_view(**matched_term, *branches);
            }
            let ghost vbs = view_branches(branches@);
            let mut subexpressions = vec![copy_term(matched_term)];
            let mut i: usize = 0;
            while i < branches.len()
                invariant
                    vbs == view_branches(branches@),
                    i <= branches@.len(),
                    subexpressions@.map_values(|t: CicTerm| t@) == seq![matched_term@] + spec_flatten_branches(
                        vbs.subrange(0, i as int),
                    ),
                decreases branches@.len() - i,
            {
                let ghost before = subexpressions@;
                let p = copy_term(&branches[i].0);
                let b = copy_term(&branches[i].1);
                subexpressions.push(p);
                subexpressions.push(b);
                proof {
                    let pre = vbs.subrange(0, i + 1);
                    assert(pre.drop_last() =~= vbs.subrange(0, i as int));
                    assert(pre.last() == (branches@[i as int].0@, branches@[i as int].1@));
                    assert(subexpressions@.map_values(|t: CicTerm| t@) =~= before.map_values(|t: CicTerm| t@) + seq![
                        p@,
                        b@,
                    ]);
                }
                i = i + 1;
            }
            proof {
                assert(vbs.subrange(0, branches@.len() as int) =~= vbs);
            }
            subexpressions
        },
        CicTerm::Let(_, _, body, scope) => vec![copy_term(body), copy_term(scope)],
        _ => Vec::new(),
    };
    proof {
        assert(r@.map_values(|t: CicTerm| t@) =~= spec_explode(term@));
    }
    r
}

/// The metavariable `meta_index` occurs in `t`.
pub open spec fn spec_meta_occurs(t: Term, meta_index: i32) -> bool
    decreases t,
{
    match t {
        Term::Meta(i) => i == meta_index,
        Term::Abs(_, a, b) => spec_meta_occurs(*a, meta_index) || spec_meta_occurs(*b, meta_index),
        Term::Prod(_, a, b) => spec_meta_occurs(*a, meta_index) || spec_meta_occurs(*b, meta_index),
        Term::App(l, r) => spec_meta_occurs(*l, meta_index) || spec_meta_occurs(*r, meta_index),
        Term::Match(m, bs) => spec_meta_occurs(*m, meta_index) || spec_meta_occurs_branches(bs, meta_index),
        Term::Let(_, ty, b, s) => {
            ||| match ty {
                Some(x) => spec_meta_occurs(*x, meta_index),
                None => false,
            }
            ||| spec_meta_occurs(*b, meta_index)
            ||| spec_meta_occurs(*s, meta_index)
        },
        _ => false,
    }
}

/// The metavariable `meta_index` occurs in a pattern or body of `bs`.
pub open spec fn spec_meta_occurs_branches(bs: Seq<(Term, Term)>, meta_index: i32) -> bool
    decreases bs,
{
    if bs.len() == 0 {
        false
    } else {
        let last = bs[bs.len() - 1];
        spec_meta_occurs_branches(bs.subrange(0, bs.len() - 1), meta_index) || spec_meta_occurs(last.0, meta_index)
            || spec_meta_occurs(last.1, meta_index)
    }
}

/// Fails with a cyclic occurs-check error exactly when the metavariable
/// `meta_index` occurs in `term`.
pub fn occurs_meta_check(meta_index: i32, term: &CicTerm) -> (r: Result<(), LofError>)
    ensures
        r is Ok <==> !spec_meta_occurs(term@, meta_index),
        r matches Err(e) ==> (e matches LofError::OccursCheckCyclic { subject }
            && subject@ == "metavariable_"@ + spec_int_decimal(meta_index as int)),
    decreases term,
{
    match term {
        CicTerm::Meta(index) => {
            if meta_index == *index {
                let digits = decimal_i64(meta_index as i64);
                let subject = concat("metavariable_", digits.as_str());
                Err(LofError::occurs_check_cyclic(subject.as_str()))
            } else {
                Ok(())
            }
        },
        CicTerm::Abstraction(_, arg_type, body) => {
            occurs_meta_check(meta_index, arg_type)?;
            occurs_meta_check(meta_index, body)
        },
        CicTerm::Product(_, arg_type, body) => {
            occurs_meta_check(meta_index, arg_type)?;
            occurs_meta_check(meta_index, body)
        },
        CicTerm::Application(left, right) => {
            occurs_meta_check(meta_index, left)?;
            occurs_meta_check(meta_index, right)
        },
        CicTerm::Match(matched, branches) => {
            proof {
                lemma_match_view(**matched, *branches);
            }
            let ghost vbs = view_branches(branches@);
            let mut i: usize = 0;
            while i < branches.len()
                invariant
                    *term == CicTerm::Match(*matched, *branches),
                    vbs == view_branches(branches@),
                    term@ == Term::Match(Box::new(matched@), vbs),
                    i <= branches@.len(),
                    !spec_meta_occurs_branches(vbs.subrange(0, i as int), meta_index),
                decreases branches@.len() - i,
            {
                proof {
                    assert(decreases_to!(*term => (*term)->Match_1));
                    assert(decreases_to!(*branches => branches@));
                    assert(decreases_to!(branches@ => branches@[i as int]));
                    assert(vbs[i as int] == (branches@[i as int].0@, branches@[i as int].1@));
                }
                let ghost pre = vbs.subrange(0, i + 1);
                proof {
                    assert(pre.subrange(0, pre.len() - 1) =~= vbs.subrange(0, i as int));
                    assert(pre[pre.len() - 1] == vbs[i as int]);
                }
                let in_pattern = occurs_meta_check(meta_index, &branches[i].0);
                if in_pattern.is_err() {
                    proof {
                        lemma_meta_occurs_branches_prefix(vbs, i + 1, meta_index);
                    }
                    return in_pattern;
                }
                let in_body = occurs_meta_check(meta_index, &branches[i].1);
                if in_body.is_err() {
                    proof {
                        lemma_meta_occurs_branches_prefix(vbs, i + 1, meta_index);
                    }
                    return in_body;
                }
                i = i + 1;
            }
            proof {
                assert(vbs.subrange(0, branches@.len() as int) =~= vbs);
            }
            occurs_meta_check(meta_index, matched)
        },
        CicTerm::Let(_, opt_type, body, scope) => {
            if let Some(typ) = &**opt_type {
                occurs_meta_check(meta_index, typ)?;
            }
            occurs_meta_check(meta_index, body)?;
            occurs_meta_check(meta_index, scope)
        },
        _ => Ok(()),
    }
}

/// The variable `name` occurs in `t`, where a binder of the same name hides
/// the parts of the term it scopes over.
pub open spec fn spec_var_occurs(t: Term, name: Seq<char>) -> bool
    decreases t,
{
    match t {
        Term::Var(n, _) => n == name,
        Term::Abs(n, a, b) => (n != name && spec_var_occurs(*a, name)) || (n != name && spec_var_occurs(*b, name)),
        Term::Prod(n, a, b) => (n != name && spec_var_occurs(*a, name)) || (n != name && spec_var_occurs(*b, name)),
        Term::App(l, r) => spec_var_occurs(*l, name) || spec_var_occurs(*r, name),
        Term::Match(m, bs) => spec_var_occurs(*m, name) || spec_var_occurs_branches(bs, name),
        Term::Let(n, ty, v, b) => {
            let type_occurs = match ty {
                Some(x) => spec_var_occurs(*x, name),
                None => false,
            };
            ||| (n != name && type_occurs)
            ||| (n != name && spec_var_occurs(*v, name))
            ||| (n != name && spec_var_occurs(*b, name))
        },
        _ => false,
    }
}

/// The variable `name` occurs in a pattern or body of `bs`.
pub open spec fn spec_var_occurs_branches(bs: Seq<(Term, Term)>, name: Seq<char>) -> bool
    decreases bs,
{
    if bs.len() == 0 {
        false
    } else {
        let last = bs[bs.len() - 1];
        spec_var_occurs_branches(bs.subrange(0, bs.len() - 1), name) || spec_var_occurs(last.0, name)
            || spec_var_occurs(last.1, name)
    }
}

/// Whether the variable `name` occurs in `term` (see [`spec_var_occurs`]).
pub fn occurs_var_check(term: &CicTerm, name: &str) -> (r: bool)
    ensures
        r == spec_var_occurs(term@, name@),
    decreases term,
{
    match term {
        CicTerm::Sort(_) => false,
        CicTerm::Variable(var_name, _) => str_eq(var_name.as_str(), name),
        CicTerm::Abstraction(var_name, var_type, body) => {
            let shadowed = str_eq(var_name.as_str(), name);
            (!shadowed && occurs_var_check(var_type, name)) || (!shadowed && occurs_var_check(body, name))
        },
        CicTerm::Product(var_name, var_type, body) => {
            let shadowed = str_eq(var_name.as_str(), name);
            (!shadowed && occurs_var_check(var_type, name)) || (!shadowed && occurs_var_check(body, name))
        },
        CicTerm::Application(func, arg) => occurs_var_check(func, name) || occurs_var_check(arg, name),
        CicTerm::Match(scrutinee, branches) => {
            proof {
                lemma_match_view(**scrutinee, *branches);
            }
            if occurs_var_check(scrutinee, name) {
                return true;
            }
            let ghost vbs = view_branches(branches@);
            let mut i: usize = 0;
            while i < branches.len()
                invariant
                    *term == CicTerm::Match(*scrutinee, *branches),
                    vbs == view_branches(branches@),
                    term@ == Term::Match(Box::new(scrutinee@), vbs),
                    i <= branches@.len(),
                    !spec_var_occurs_branches(vbs.subrange(0, i as int), name@),
                decreases branches@.len() - i,
            {
                proof {
                    assert(decreases_to!(*term => (*term)->Match_1));
                    assert(decreases_to!(*branches => branches@));
                    assert(decreases_to!(branches@ => branches@[i as int]));
                    assert(vbs[i as int] == (branches@[i as int].0@, branches@[i as int].1@));
                }
                let ghost pre = vbs.subrange(0, i + 1);
                proof {
                    assert(pre.subrange(0, pre.len() - 1) =~= vbs.subrange(0, i as int));
                    assert(pre[pre.len() - 1] == vbs[i as int]);
                }
                let in_pattern = occurs_var_check(&branches[i].0, name);
                let in_body = occurs_var_check(&branches[i].1, name);
                if in_pattern || in_body {
                    proof {
                        lemma_var_occurs_branches_prefix(vbs, i + 1, name@);
                    }
                    return true;
                }
                i = i + 1;
            }
            proof {
                assert(vbs.subrange(0, branches@.len() as int) =~= vbs);
            }
            false
        },
        CicTerm::Let(var_name, var_type, value, body) => {
            let type_occurs = match &**var_type {
                Some(ty) => occurs_var_check(ty, name),
                None => false,
            };
            let shadowed = str_eq(var_name.as_str(), name);
            (!shadowed && type_occurs) || (!shadowed && occurs_var_check(value, name)) || (!shadowed
                && occurs_var_check(body, name))
        },
        CicTerm::Meta(_) => false,
    }
}

/// An occurrence in a prefix of the branches is an occurrence in all of them.
proof fn lemma_meta_occurs_branches_prefix(bs: Seq<(Term, Term)>, k: int, meta_index: i32)
    requires
        0 <= k <= bs.len(),
        spec_meta_occurs_branches(bs.subrange(0, k), meta_index),
    ensures
        spec_meta_occurs_branches(bs, meta_index),
    decreases bs.len() - k,
{
    if k == bs.len() {
        assert(bs.subrange(0, k) =~= bs);
    } else {
        let init = bs.subrange(0, bs.len() - 1);
        assert(init.subrange(0, k) =~= bs.subrange(0, k));
        lemma_meta_occurs_branches_prefix(init, k, meta_index);
    }
}

/// An occurrence in a prefix of the branches is an occurrence in all of them.
proof fn lemma_var_occurs_branches_prefix(bs: Seq<(Term, Term)>, k: int, name: Seq<char>)
    requires
        0 <= k <= bs.len(),
        spec_var_occurs_branches(bs.subrange(0, k), name),
    ensures
        spec_var_occurs_branches(bs, name),
    decreases bs.len() - k,
{
    if k == bs.len() {
        assert(bs.subrange(0, k) =~= bs);
    } else {
        let init = bs.subrange(0, bs.len() - 1);
        assert(init.subrange(0, k) =~= bs.subrange(0, k));
        lemma_var_occurs_branches_prefix(init, k, name);
    }
}

/// `s` with its first `n` characters removed.
pub open spec fn spec_suffix(s: Seq<char>, n: int) -> Seq<char> {
    s.subrange(n, s.len() as int)
}

/// A key as unification makes them: `metavariable_` followed by an `i32`, or
/// `variable_` followed by a name.
pub open spec fn valid_key(key: Seq<char>) -> bool {
    if spec_starts_with(key, "metavariable_"@) {
        spec_parse_i32(spec_suffix(key, 13)) is Some
    } else {
        spec_starts_with(key, "variable_"@)
    }
}

/// The solution of `key` would contain `key` itself: the metavariable
/// occurs in `t`, or the variable occurs in `t` other than as a constant of
/// the same name standing alone.
pub open spec fn spec_occurs_key(t: Term, key: Seq<char>) -> bool {
    if spec_starts_with(key, "metavariable_"@) {
        match spec_parse_i32(spec_suffix(key, 13)) {
            Some(i) => spec_meta_occurs(t, i),
            None => false,
        }
    } else {
        let name = spec_suffix(key, 9);
        if t matches Term::Var(n, NameKind::Const()) && n == name {
            false
        } else {
            spec_var_occurs(t, name)
        }
    }
}

/// The keys that unification makes are valid.
pub proof fn lemma_spec_key_valid(t: Term)
    requires
        spec_key(t) is Some,
    ensures
        valid_key(spec_key(t)->Some_0),
{
    reveal_strlit("metavariable_");
    reveal_strlit("variable_");
    let k = spec_key(t)->Some_0;
    match t {
        Term::Meta(i) => {
            assert(k.subrange(0, 13) =~= "metavariable_"@);
            assert(spec_suffix(k, 13) =~= spec_int_decimal(i as int));
            law_parse_decimal_roundtrip(i);
        },
        Term::Var(n, _) => {
            assert(k[0] == 'v');
            assert(k.subrange(0, 9) =~= "variable_"@);
        },
        _ => {},
    }
}

/// Whether the solution of `name` would contain `name` itself (see
/// [`spec_occurs_key`]).
pub fn occurs(term: &CicTerm, name: &str) -> (r: bool)
    requires
        valid_key(name@),
    ensures
        r == spec_occurs_key(term@, name@),
{
    proof {
        reveal_strlit("metavariable_");
        reveal_strlit("variable_");
    }
    if starts_with(name, "metavariable_") {
        let n = name.unicode_len();
        let index = parse_i32(name.substring_char(13, n));
        match index {
            Some(i) => occurs_meta_check(i, term).is_err(),
            None => false,
        }
    } else {
        let n = name.unicode_len();
        let var_name = name.substring_char(9, n);
        if let CicTerm::Variable(term_name, kind) = term {
            if str_eq(term_name.as_str(), var_name) && *kind == NameKind::Const() {
                return false;
            }
        }
        occurs_var_check(term, var_name)
    }
}

//########################### CONSTRAINT SOLVING

/// The terms of a list of pairs of terms.
pub open spec fn view_pairs(q: Seq<(CicTerm, CicTerm)>) -> Seq<(Term, Term)> {
    q.map_values(|p: (CicTerm, CicTerm)| (p.0@, p.1@))
}

/// Pairs of the elements at the same positions.
pub open spec fn spec_zip(a: Seq<Term>, b: Seq<Term>) -> Seq<(Term, Term)> {
    Seq::new(if a.len() <= b.len() { a.len() } else { b.len() }, |i: int| (a[i], b[i]))
}

/// What one step of the solver does with the first pending constraint.
pub enum UcsStep {
    /// go on with this solution and these pending constraints
    Next(Seq<(Seq<char>, Term)>, Seq<(Term, Term)>),
    /// the key would be solved by a term that contains it
    Occurs(Seq<char>, Term),
    /// the two terms cannot be made equal
    Mismatch(Term, Term),
}

/// How solving a list of constraints ends.
pub enum UcsOutcome {
    Solved(Seq<(Seq<char>, Term)>),
    Occurs(Seq<char>, Term),
    Mismatch(Term, Term),
    /// the step bound ran out
    Exhausted,
}

/// One step on the first pending pair `l ≐ r` of `q`: a pair of the same
/// unification variable is dropped; a solved variable is replaced by its
/// solution and the pair is looked at again; an unsolved one, the left side
/// first, is solved by the other side unless it occurs in it; two terms of
/// the same shape queue their subterms pairwise at the end; anything else
/// fails.
pub open spec fn ucs_step(s: Seq<(Seq<char>, Term)>, q: Seq<(Term, Term)>) -> UcsStep {
    let l = q[0].0;
    let r = q[0].1;
    let rest = q.subrange(1, q.len() as int);
    let lk = spec_key(l);
    let rk = spec_key(r);
    if lk is Some && rk is Some && lk->Some_0 == rk->Some_0 {
        UcsStep::Next(s, rest)
    } else if lk is Some {
        let k = lk->Some_0;
        match subst_lookup(s, k) {
            Some(v) => UcsStep::Next(s, seq![(v, r)] + rest),
            None => if spec_occurs_key(r, k) {
                UcsStep::Occurs(k, r)
            } else {
                UcsStep::Next(s.push((k, r)), rest)
            },
        }
    } else if rk is Some {
        let k = rk->Some_0;
        match subst_lookup(s, k) {
            Some(v) => UcsStep::Next(s, seq![(l, v)] + rest),
            None => if spec_occurs_key(l, k) {
                UcsStep::Occurs(k, l)
            } else {
                UcsStep::Next(s.push((k, l)), rest)
            },
        }
    } else if spec_structurally_equal(l, r) {
        UcsStep::Next(s, rest + spec_zip(spec_explode(l), spec_explode(r)))
    } else {
        UcsStep::Mismatch(l, r)
    }
}

/// Solving the pending constraints `q` from the partial solution `s`, in at
/// most `fuel` steps.
pub open spec fn ucs_run(s: Seq<(Seq<char>, Term)>, q: Seq<(Term, Term)>, fuel: nat) -> UcsOutcome
    decreases fuel,
{
    if q.len() == 0 {
        UcsOutcome::Solved(s)
    } else if fuel == 0 {
        UcsOutcome::Exhausted
    } else {
        match ucs_step(s, q) {
            UcsStep::Next(s2, q2) => ucs_run(s2, q2, (fuel - 1) as nat),
            UcsStep::Occurs(k, t) => UcsOutcome::Occurs(k, t),
            UcsStep::Mismatch(l, r) => UcsOutcome::Mismatch(l, r),
        }
    }
}

/// Bound on the number of solver steps; no terminating run comes near it.
pub const UNIFICATION_FUEL: u64 = 18446744073709551615;

/// `t` with the solution `v` of `key` put in: a metavariable by index, a
/// variable by name (the innermost binder of that name); `None` when the
/// index is not an `i32` or the indices would leave `i32`.
pub open spec fn apply_key(t: Term, key: Seq<char>, v: Term) -> Option<Term> {
    if spec_starts_with(key, "metavariable_"@) {
        match spec_parse_i32(spec_suffix(key, 13)) {
            Some(i) => Some(spec_substitute_meta(t, i, v)),
            None => None,
        }
    } else if spec_starts_with(key, "variable_"@) {
        if subst_fits(t, v) {
            Some(spec_subst(t, spec_suffix(key, 9), v, 0))
        } else {
            None
        }
    } else {
        Some(t)
    }
}

/// Puts the solution `value` of `key` into `term` (see [`apply_key`]).
pub(crate) fn apply_key_to(term: &CicTerm, key: &str, value: &CicTerm) -> (r: Option<CicTerm>)
    ensures
        match apply_key(term@, key@, value@) {
            Some(t) => r matches Some(x) && x@ == t,
            None => r is None,
        },
{
    proof {
        reveal_strlit("metavariable_");
        reveal_strlit("variable_");
    }
    if starts_with(key, "metavariable_") {
        let n = key.unicode_len();
        match parse_i32(key.substring_char(13, n)) {
            Some(index) => Some(substitute_meta(term, &index, value)),
            None => None,
        }
    } else if starts_with(key, "variable_") {
        let n = key.unicode_len();
        try_substitute(term, key.substring_char(9, n), value)
    } else {
        Some(copy_term(term))
    }
}

/// Solution `i` of `cur` put into every other solution.
pub open spec fn reduce_entry(cur: Seq<(Seq<char>, Term)>, i: int) -> Option<Seq<(Seq<char>, Term)>> {
    if forall|j: int| 0 <= j < cur.len() && j != i ==> (#[trigger] apply_key(cur[j].1, cur[i].0, cur[i].1)) is Some {
        Some(
            Seq::new(
                cur.len(),
                |j: int|
                    if j == i {
                        cur[j]
                    } else {
                        (cur[j].0, apply_key(cur[j].1, cur[i].0, cur[i].1)->Some_0)
                    },
            ),
        )
    } else {
        None
    }
}

/// The solutions after putting each of the first `n`, in order, into all the others.
pub open spec fn reduce_upto(s: Seq<(Seq<char>, Term)>, n: nat) -> Option<Seq<(Seq<char>, Term)>>
    decreases n,
{
    if n == 0 {
        Some(s)
    } else {
        match reduce_upto(s, (n - 1) as nat) {
            Some(cur) => reduce_entry(cur, n - 1),
            None => None,
        }
    }
}

/// Every solution put, in order, into all the others.
pub open spec fn spec_reduce(s: Seq<(Seq<char>, Term)>) -> Option<Seq<(Seq<char>, Term)>> {
    reduce_upto(s, s.len())
}

proof fn lemma_reduce_upto_keys(s: Seq<(Seq<char>, Term)>, n: nat)
    ensures
        reduce_upto(s, n) matches Some(cur) ==> cur.len() == s.len() && forall|j: int|
            0 <= j < s.len() ==> (#[trigger] cur[j]).0 == s[j].0,
    decreases n,
{
    if n > 0 {
        lemma_reduce_upto_keys(s, (n - 1) as nat);
    }
}

proof fn lemma_reduce_upto_none(s: Seq<(Seq<char>, Term)>, k: nat, n: nat)
    requires
        k <= n,
        reduce_upto(s, k) is None,
    ensures
        reduce_upto(s, n) is None,
    decreases n - k,
{
    if k < n {
        lemma_reduce_upto_none(s, k, (n - 1) as nat);
    }
}

/// Puts every solution, in order, into all the others; fails when an index
/// would leave `i32`.
fn reduce_solution(substitution: &Substitution) -> (r: Result<Substitution, LofError>)
    ensures
        match spec_reduce(substitution@) {
            Some(s) => r matches Ok(x) && x@ == s,
            None => r matches Err(LofError::Other(_)),
        },
{
    let n = substitution.len();
    let ghost s0 = substitution@;
    let mut cur: Vec<(String, CicTerm)> = Vec::new();
    let mut k: usize = 0;
    while k < n
        invariant
            n == s0.len(),
            s0 == substitution@,
            k <= n,
            cur@.len() == k,
            forall|j: int| 0 <= j < k ==> (#[trigger] view_entries(cur@)[j]) == s0[j],
        decreases n - k,
    {
        let name = substitution.name_at(k).clone();
        let value = copy_term(substitution.value_at(k));
        let ghost before = cur@;
        cur.push((name, value));
        proof {
            assert(view_entries(cur@) =~= view_entries(before).push((name@, value@)));
        }
        k = k + 1;
    }
    proof {
        assert(view_entries(cur@) =~= s0);
    }
    let mut i: usize = 0;
    while i < n
        invariant
            n == s0.len(),
            s0 == substitution@,
            i <= n,
            cur@.len() == n,
            reduce_upto(s0, i as nat) == Some(view_entries(cur@)),
        decreases n - i,
    {
        let ghost vc = view_entries(cur@);
        let mut next: Vec<(String, CicTerm)> = Vec::new();
        let mut j: usize = 0;
        while j < n
            invariant
                n == s0.len(),
                s0 == substitution@,
                i < n,
                cur@.len() == n,
                vc == view_entries(cur@),
                reduce_upto(s0, i as nat) == Some(vc),
                j <= n,
                next@.len() == j,
                forall|jj: int| 0 <= jj < j && jj != i ==> (#[trigger] apply_key(vc[jj].1, vc[i as int].0, vc[i as int].1)) is Some,
                forall|jj: int|
                    0 <= jj < j ==> (#[trigger] view_entries(next@)[jj]) == (if jj == i {
                        vc[jj]
                    } else {
                        (vc[jj].0, apply_key(vc[jj].1, vc[i as int].0, vc[i as int].1)->Some_0)
                    }),
            decreases n - j,
        {
            let ghost before = next@;
            proof {
                assert(vc[j as int] == (cur@[j as int].0@, cur@[j as int].1@));
                assert(vc[i as int] == (cur@[i as int].0@, cur@[i as int].1@));
            }
            if j == i {
                let name = cur[j].0.clone();
                let value = copy_term(&cur[j].1);
                next.push((name, value));
                proof {
                    assert(view_entries(next@) =~= view_entries(before).push((name@, value@)));
                }
            } else {
                match apply_key_to(&cur[j].1, cur[i].0.as_str(), &cur[i].1) {
                    Some(t) => {
                        let name = cur[j].0.clone();
                        next.push((name, t));
                        proof {
                            assert(view_entries(next@) =~= view_entries(before).push((name@, t@)));
                        }
                    },
                    None => {
                        proof {
                            assert(apply_key(vc[j as int].1, vc[i as int].0, vc[i as int].1) is None);
                            assert(reduce_entry(vc, i as int) is None);
                            assert(reduce_upto(s0, (i + 1) as nat) is None);
                            lemma_reduce_upto_none(s0, (i + 1) as nat, n as nat);
                        }
                        return Err(LofError::custom("unification: a De Bruijn index would overflow"));
                    },
                }
            }
            j = j + 1;
        }
        proof {
            assert(reduce_entry(vc, i as int) is Some);
            assert(view_entries(next@) =~= reduce_entry(vc, i as int)->Some_0);
        }
        cur = next;
        i = i + 1;
    }
    Ok(Substitution::from_entries(cur))
}

/// `t` with the solutions of `s` put in, in order; `None` when one of them cannot be.
pub open spec fn spec_apply_all(t: Term, s: Seq<(Seq<char>, Term)>) -> Option<Term>
    decreases s.len(),
{
    if s.len() == 0 {
        Some(t)
    } else {
        match spec_apply_all(t, s.drop_last()) {
            Some(t2) => apply_key(t2, s.last().0, s.last().1),
            None => None,
        }
    }
}

proof fn lemma_apply_all_prefix(t: Term, s: Seq<(Seq<char>, Term)>, k: int)
    requires
        0 <= k <= s.len(),
        spec_apply_all(t, s) is Some,
    ensures
        spec_apply_all(t, s.subrange(0, k)) is Some,
    decreases s.len() - k,
{
    if k == s.len() {
        assert(s.subrange(0, k) =~= s);
    } else {
        lemma_apply_all_prefix(t, s.drop_last(), k);
        assert(s.drop_last().subrange(0, k) =~= s.subrange(0, k));
    }
}

/// Puts the solutions of `substitution`, in order, into `exp`: metavariable
/// keys by index, variable keys by name.
pub fn cic_apply_unifier(exp: &CicTerm, substitution: &Substitution) -> (r: CicTerm)
    requires
        spec_apply_all(exp@, substitution@) is Some,
    ensures
        r@ == spec_apply_all(exp@, substitution@)->Some_0,
{
    let mut solved_exp = copy_term(exp);
    let n = substitution.len();
    let mut i: usize = 0;
    while i < n
        invariant
            n == substitution@.len(),
            i <= n,
            spec_apply_all(exp@, substitution@) is Some,
            spec_apply_all(exp@, substitution@.subrange(0, i as int)) == Some(solved_exp@),
        decreases n - i,
    {
        proof {
            lemma_apply_all_prefix(exp@, substitution@, i + 1);
            let pre = substitution@.subrange(0, i + 1);
            assert(pre.drop_last() =~= substitution@.subrange(0, i as int));
        }
        let next = apply_key_to(&solved_exp, substitution.name_at(i).as_str(), substitution.value_at(i));
        match next {
            Some(t) => {
                solved_exp = t;
            },
            None => {
                proof {
                    assert(false);
                }
            },
        }
        i = i + 1;
    }
    proof {
        assert(substitution@.subrange(0, n as int) =~= substitution@);
    }
    solved_exp
}

/// How solving a list of constraints and reducing the solution ends.
pub enum UnifyOutcome {
    Unified(Seq<(Seq<char>, Term)>),
    Occurs(Seq<char>, Term),
    Mismatch(Term, Term),
    Exhausted,
    Overflow,
}

/// Solving the constraints `q` from nothing, then reducing the solution.
pub open spec fn spec_unify(q: Seq<(Term, Term)>) -> UnifyOutcome {
    match ucs_run(Seq::empty(), q, UNIFICATION_FUEL as nat) {
        UcsOutcome::Solved(s) => match spec_reduce(s) {
            Some(s2) => UnifyOutcome::Unified(s2),
            None => UnifyOutcome::Overflow,
        },
        UcsOutcome::Occurs(k, t) => UnifyOutcome::Occurs(k, t),
        UcsOutcome::Mismatch(l, r) => UnifyOutcome::Mismatch(l, r),
        UcsOutcome::Exhausted => UnifyOutcome::Exhausted,
    }
}

/// The result `r` reports the outcome `o`: the solution, or the error for it.
pub open spec fn reports(r: Result<Substitution, LofError>, o: UnifyOutcome) -> bool {
    match o {
        UnifyOutcome::Unified(s) => r matches Ok(sub) && sub@ == s,
        UnifyOutcome::Occurs(k, t) => r matches Err(LofError::OccursCheckInTerm { variable, term })
            && variable@ == k && term@ == spec_render(t),
        UnifyOutcome::Mismatch(a, b) => r matches Err(LofError::UnificationFailure { term1, term2 })
            && term1@ == spec_render(a) && term2@ == spec_render(b),
        UnifyOutcome::Exhausted => r matches Err(LofError::Other(_)),
        UnifyOutcome::Overflow => r matches Err(LofError::Other(_)),
    }
}

/// Whether two optional keys are the same key.
fn same_key(a: &Option<String>, b: &Option<String>) -> (r: bool)
    ensures
        r == (a is Some && b is Some && a->Some_0@ == b->Some_0@),
{
    match (a, b) {
        (Some(x), Some(y)) => str_eq(x.as_str(), y.as_str()),
        _ => false,
    }
}

/// Solves the constraints in order (see [`ucs_step`]).
fn ucs(constraints: VecDeque<(CicTerm, CicTerm)>) -> (r: Result<Substitution, LofError>)
    ensures
        match ucs_run(Seq::empty(), view_pairs(constraints@), UNIFICATION_FUEL as nat) {
            UcsOutcome::Solved(s) => r matches Ok(sub) && sub@ == s,
            UcsOutcome::Occurs(k, t) => r matches Err(LofError::OccursCheckInTerm { variable, term })
                && variable@ == k && term@ == spec_render(t),
            UcsOutcome::Mismatch(a, b) => r matches Err(LofError::UnificationFailure { term1, term2 })
                && term1@ == spec_render(a) && term2@ == spec_render(b),
            UcsOutcome::Exhausted => r matches Err(LofError::Other(_)),
        },
{
    let ghost goal = ucs_run(Seq::empty(), view_pairs(constraints@), UNIFICATION_FUEL as nat);
    let mut substitution = Substitution::empty();
    let mut queue = constraints;
    let mut fuel: u64 = UNIFICATION_FUEL;
    while queue.len() > 0
        invariant
            goal == ucs_run(Seq::empty(), view_pairs(constraints@), UNIFICATION_FUEL as nat),
            ucs_run(substitution@, view_pairs(queue@), fuel as nat) == goal,
        decreases fuel,
    {
        if fuel == 0 {
            proof {
                assert(view_pairs(queue@).len() > 0);
                assert(ucs_run(substitution@, view_pairs(queue@), 0) == UcsOutcome::Exhausted);
            }
            return Err(LofError::custom("unification did not finish within its step bound"));
        }
        let ghost q = view_pairs(queue@);
        let ghost s = substitution@;
        let popped = queue.pop_front();
        let (left, right) = match popped {
            Some(pair) => pair,
            None => {
                proof {
                    assert(false);
                }
                return Err(LofError::custom("unification did not finish within its step bound"));
            },
        };
        proof {
            assert(q[0] == (left@, right@));
            assert(view_pairs(queue@) =~= q.subrange(1, q.len() as int));
        }
        fuel = fuel - 1;
        let left_key = is_substitutable(&left);
        let right_key = is_substitutable(&right);
        if same_key(&left_key, &right_key) {
            // a unification variable against itself: nothing to solve
        } else if let Some(key) = left_key {
            let solution = match substitution.get(key.as_str()) {
                Some(v) => Some(copy_term(v)),
                None => None,
            };
            match solution {
                Some(v) => {
                    let ghost rest = view_pairs(queue@);
                    queue.push_front((v, right));
                    proof {
                        assert(view_pairs(queue@) =~= seq![(v@, right@)] + rest);
                    }
                },
                None => {
                    proof {
                        lemma_spec_key_valid(left@);
                    }
                    if occurs(&right, key.as_str()) {
                        let shown = render_term(&right);
                        return Err(LofError::occurs_check_in_term(key.as_str(), shown.as_str()));
                    }
                    substitution.push_new(key, right);
                },
            }
        } else if let Some(key) = right_key {
            let solution = match substitution.get(key.as_str()) {
                Some(v) => Some(copy_term(v)),
                None => None,
            };
            match solution {
                Some(v) => {
                    let ghost rest = view_pairs(queue@);
                    queue.push_front((left, v));
                    proof {
                        assert(view_pairs(queue@) =~= seq![(left@, v@)] + rest);
                    }
                },
                None => {
                    proof {
                        lemma_spec_key_valid(right@);
                    }
                    if occurs(&left, key.as_str()) {
                        let shown = render_term(&left);
                        return Err(LofError::occurs_check_in_term(key.as_str(), shown.as_str()));
                    }
                    substitution.push_new(key, left);
                },
            }
        } else if structurally_equal(&left, &right) {
            let parts1 = explode(&left);
            let parts2 = explode(&right);
            let ghost rest = view_pairs(queue@);
            let ghost z = spec_zip(spec_explode(left@), spec_explode(right@));
            let m = if parts1.len() <= parts2.len() { parts1.len() } else { parts2.len() };
            let mut k: usize = 0;
            proof {
                assert(parts1@.map_values(|t: CicTerm| t@).len() == parts1@.len());
                assert(parts2@.map_values(|t: CicTerm| t@).len() == parts2@.len());
            }
            while k < m
                invariant
                    parts1@.map_values(|t: CicTerm| t@) == spec_explode(left@),
                    parts2@.map_values(|t: CicTerm| t@) == spec_explode(right@),
                    z == spec_zip(spec_explode(left@), spec_explode(right@)),
                    m == z.len(),
                    m <= parts1@.len() && m <= parts2@.len(),
                    k <= m,
                    view_pairs(queue@) == rest + z.subrange(0, k as int),
                decreases m - k,
            {
                let a = copy_term(&parts1[k]);
                let b = copy_term(&parts2[k]);
                proof {
                    assert(parts1@.map_values(|t: CicTerm| t@)[k as int] == parts1@[k as int]@);
                    assert(parts2@.map_values(|t: CicTerm| t@)[k as int] == parts2@[k as int]@);
                }
                let ghost before = view_pairs(queue@);
                queue.push_back((a, b));
                proof {
                    assert(view_pairs(queue@) =~= before.push((a@, b@)));
                    assert(z[k as int] == (a@, b@));
                    assert(z.subrange(0, k + 1) =~= z.subrange(0, k as int).push(z[k as int]));
                }
                k = k + 1;
            }
            proof {
                assert(z.subrange(0, m as int) =~= z);
            }
        } else {
            proof {
                assert(spec_key(left@) is None);
                assert(spec_key(right@) is None);
                assert(!spec_structurally_equal(left@, right@));
                assert(ucs_step(s, q) == UcsStep::Mismatch(left@, right@));
            }
            let shown_left = render_term(&left);
            let shown_right = render_term(&right);
            return Err(LofError::unification_failure(shown_left.as_str(), shown_right.as_str()));
        }
    }
    Ok(substitution)
}

/// Solves the constraints as they are, then puts every solution into the others.
pub fn solve_unifications_unnormalized(constraints: VecDeque<(CicTerm, CicTerm)>) -> (r: Result<Substitution, LofError>)
    ensures
        reports(r, spec_unify(view_pairs(constraints@))),
{
    let solved = ucs(constraints);
    match solved {
        Ok(substitution) => reduce_solution(&substitution),
        Err(e) => Err(e),
    }
}

/// Second order unification of `term1` and `term2`: the metavariables and
/// non-constant variables that make them equal, without normalizing them.
pub fn cic_so_unification(term1: &CicTerm, term2: &CicTerm) -> (r: Result<Substitution, LofError>)
    ensures
        reports(r, spec_unify(seq![(term1@, term2@)])),
{
    let mut constraints: VecDeque<(CicTerm, CicTerm)> = VecDeque::new();
    constraints.push_back((copy_term(term1), copy_term(term2)));
    proof {
        assert(view_pairs(constraints@) =~= seq![(term1@, term2@)]);
    }
    solve_unifications_unnormalized(constraints)
}

} // verus!
