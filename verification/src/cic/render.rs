use vstd::prelude::*;
use vstd::string::*;
use crate::cic::term::{lemma_match_view, view_branches, CicTerm, NameKind, Term, PLACEHOLDER_DBI};
use crate::text::{decimal_i64, spec_int_decimal};

verus! {

/// How a term is written in messages: sorts by name, variables with their
/// binding (`|G` constant, `|L` local, `|n` index, `|P` not yet indexed),
/// binders as `λx:A. b` and `Πx:A. B`, applications in parentheses.
pub open spec fn spec_render(t: Term) -> Seq<char>
    decreases t,
{
    match t {
        Term::Sort(n) => n,
        Term::Var(n, k) => match k {
            NameKind::Const() => n + "|G"@,
            NameKind::Local() => n + "|L"@,
            NameKind::Bound(d) => n + "|"@ + (if d == PLACEHOLDER_DBI { "P"@ } else { spec_int_decimal(d as int) }),
        },
        Term::Abs(n, a, b) => "λ"@ + n + ":"@ + spec_render(*a) + ". "@ + spec_render(*b),
        Term::Prod(n, a, b) => "Π"@ + n + ":"@ + spec_render(*a) + ". "@ + spec_render(*b),
        Term::App(f, a) => "("@ + spec_render(*f) + " "@ + spec_render(*a) + ")"@,
        Term::Match(m, bs) => "match "@ + spec_render(*m) + " { "@ + spec_render_branches(bs) + "}"@,
        Term::Let(n, _, b, s) => "let "@ + n + " := "@ + spec_render(*b) + " in\n"@ + spec_render(*s),
        Term::Meta(i) => "?["@ + spec_int_decimal(i as int) + "]"@,
    }
}

/// How the branches of a `match` are written, one per line.
pub open spec fn spec_render_branches(bs: Seq<(Term, Term)>) -> Seq<char>
    decreases bs,
{
    if bs.len() == 0 {
        Seq::empty()
    } else {
        let last = bs[bs.len() - 1];
        spec_render_branches(bs.subrange(0, bs.len() - 1)) + "\t["@ + spec_render(last.0) + "] => "@
            + spec_render(last.1) + ",\n"@
    }
}

/// The text of `term`, as messages show it.
pub fn render_term(term: &CicTerm) -> (r: String)
    ensures
        r@ == spec_render(term@),
    decreases term,
{
    match term {
        CicTerm::Sort(name) => name.clone(),
        CicTerm::Variable(name, kind) => {
            let mut s = name.clone();
            match kind {
                NameKind::Const() => {
                    s.append("|G");
                },
                NameKind::Local() => {
                    s.append("|L");
                },
                NameKind::Bound(dbi) => {
                    s.append("|");
                    if *dbi == PLACEHOLDER_DBI {
                        s.append("P");
                    } else {
                        let d = decimal_i64(*dbi as i64);
                        s.append(d.as_str());
                    }
                },
            }
            s
        },
        CicTerm::Abstraction(var_name, var_type, body) => {
            let mut s = String::from_str("λ");
            s.append(var_name.as_str());
            s.append(":");
            let a = render_term(var_type);
            s.append(a.as_str());
            s.append(". ");
            let b = render_term(body);
            s.append(b.as_str());
            s
        },
        CicTerm::Product(var_name, domain, codomain) => {
            let mut s = String::from_str("Π");
            s.append(var_name.as_str());
            s.append(":");
            let a = render_term(domain);
            s.append(a.as_str());
            s.append(". ");
            let b = render_term(codomain);
            s.append(b.as_str());
            s
        },
        CicTerm::Application(func, arg) => {
            let mut s = String::from_str("(");
            let f = render_term(func);
            s.append(f.as_str());
            s.append(" ");
            let a = render_term(arg);
            s.append(a.as_str());
            s.append(")");
            s
        },
        CicTerm::Match(matched_term, branches) => {
            proof {
                lemma_match_view(**matched_term, *branches);
            }
            let ghost vbs = view_branches(branches@);
            let mut s = String::from_str("match ");
            let m = render_term(matched_term);
            s.append(m.as_str());
            s.append(" { ");
            let ghost head = s@;
            let mut i: usize = 0;
            while i < branches.len()
                invariant
                    *term == CicTerm::Match(*matched_term, *branches),
                    vbs == view_branches(branches@),
                    i <= branches@.len(),
                    s@ == head + spec_render_branches(vbs.subrange(0, i as int)),
                decreases branches@.len() - i,
            {
                proof {
                    assert(decreases_to!(*term => (*term)->Match_1));
                    assert(decreases_to!(*branches => branches@));
                    assert(decreases_to!(branches@ => branches@[i as int]));
                    let pre = vbs.subrange(0, i + 1);
                    assert(pre.subrange(0, pre.len() - 1) =~= vbs.subrange(0, i as int));
                    assert(pre[pre.len() - 1] == (branches@[i as int].0@, branches@[i as int].1@));
                }
                s.append("\t[");
                let p = render_term(&branches[i].0);
                s.append(p.as_str());
                s.append("] => ");
                let b = render_term(&branches[i].1);
                s.append(b.as_str());
                s.append(",\n");
                proof {
                    assert(s@ =~= head + spec_render_branches(vbs.subrange(0, i + 1)));
                }
                i = i + 1;
            }
            proof {
                assert(vbs.subrange(0, branches@.len() as int) =~= vbs);
            }
            s.append("}");
            s
        },
        CicTerm::Let(var_name, _, body, scope) => {
            let mut s = String::from_str("let ");
            s.append(var_name.as_str());
            s.append(" := ");
            let b = render_term(body);
            s.append(b.as_str());
            s.append(" in\n");
            let c = render_term(scope);
            s.append(c.as_str());
            s
        },
        CicTerm::Meta(index) => {
            let mut s = String::from_str("?[");
            let d = decimal_i64(*index as i64);
            s.append(d.as_str());
            s.append("]");
            s
        },
    }
}

} // verus!
