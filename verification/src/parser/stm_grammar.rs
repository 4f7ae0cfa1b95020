use vstd::prelude::*;
use vstd::string::*;
use crate::config::{spec_map_type_system, Config};
use crate::parser::api::{Expr, Tac};
use crate::parser::grammar::{
    fwd, or_else, spec_expression, spec_local, spec_opt_typed, spec_parens, spec_type_expression,
};
use crate::parser::lexer::{has_tag, keyword, lit, litc, skip_spaces, skip_ws, spec_identifier, ws1_lit};
use crate::parser::model::{Ast, ProofModel, Stm};
use crate::parser::statements::{spec_notation_syntax, with_notation};

verus! {

// The statement grammar, in the manner of the expression grammar: each
// function reads from `pos` on and gives the position after what it read
// and the statement built. Statements that define notations also give the
// notations after them.

/// Blank characters (no comments), then `t`: the position after `t`.
pub open spec fn tac_lit(s: Seq<char>, pos: int, t: Seq<char>) -> Option<int> {
    let p = skip_spaces(s, pos);
    if has_tag(s, p, t) {
        Some(p + t.len())
    } else {
        None
    }
}

/// The keyword `t` (after optional blanks), then at least one blank: the
/// position after the blanks.
pub open spec fn tac_keyword(s: Seq<char>, pos: int, t: Seq<char>) -> Option<int> {
    match tac_lit(s, pos, t) {
        Some(q) => if skip_spaces(s, q) > q {
            Some(skip_spaces(s, q))
        } else {
            None
        },
        None => None,
    }
}

/// At least one blank, then an identifier.
pub open spec fn ws1_identifier(s: Seq<char>, pos: int) -> Option<(int, Seq<char>)> {
    if skip_ws(s, pos) > pos {
        spec_identifier(s, skip_ws(s, pos))
    } else {
        None
    }
}

/// One step of an interactive proof.
pub open spec fn spec_tactic(n: Seq<(Seq<Seq<char>>, Expr)>, s: Seq<char>, pos: int) -> Option<(int, Tac<Expr>)> {
    match tac_lit(s, pos, "begin"@) {
        Some(q) => Some((q, Tac::Begin)),
        None => match tac_lit(s, pos, "qed."@) {
            Some(q) => Some((q, Tac::Qed)),
            None => match tac_keyword(s, pos, "intro"@) {
                Some(p1) => match spec_opt_typed(n, s, p1) {
                    Some((q, x, t)) => Some((
                        q,
                        Tac::Intro(
                            x,
                            match t {
                                Some(tt) => tt,
                                None => Expr::Infer,
                            },
                        ),
                    )),
                    None => spec_tactic_term(n, s, pos),
                },
                None => spec_tactic_term(n, s, pos),
            },
        },
    }
}

/// `apply term`, `exact term` or `induction name`.
pub open spec fn spec_tactic_term(n: Seq<(Seq<Seq<char>>, Expr)>, s: Seq<char>, pos: int) -> Option<(int, Tac<Expr>)> {
    match tac_keyword(s, pos, "apply"@) {
        Some(p1) => match spec_expression(n, s, p1) {
            Some((q, e)) => Some((q, Tac::Apply(e))),
            None => spec_tactic_tail(n, s, pos),
        },
        None => spec_tactic_tail(n, s, pos),
    }
}

/// `exact term` or `induction name`.
pub open spec fn spec_tactic_tail(n: Seq<(Seq<Seq<char>>, Expr)>, s: Seq<char>, pos: int) -> Option<(int, Tac<Expr>)> {
    match tac_keyword(s, pos, "exact"@) {
        Some(p1) => match spec_expression(n, s, p1) {
            Some((q, e)) => Some((q, Tac::Exact(e))),
            None => spec_induction(s, pos),
        },
        None => spec_induction(s, pos),
    }
}

/// `induction name`.
pub open spec fn spec_induction(s: Seq<char>, pos: int) -> Option<(int, Tac<Expr>)> {
    match tac_keyword(s, pos, "induction"@) {
        Some(p1) => match spec_identifier(s, p1) {
            Some((q, x)) => Some((q, Tac::Induction(x))),
            None => None,
        },
        None => None,
    }
}

/// The tactics from `pos` on, as many as there are.
pub open spec fn spec_tactics(n: Seq<(Seq<Seq<char>>, Expr)>, s: Seq<char>, pos: int) -> (int, Seq<Tac<Expr>>)
    decreases s.len() - pos,
{
    if !(0 <= pos <= s.len()) {
        (pos, Seq::empty())
    } else {
        match spec_tactic(n, s, pos) {
            Some((q, t)) => if fwd(s, pos, q) {
                let (q2, rest) = spec_tactics(n, s, q);
                (q2, seq![t] + rest)
            } else {
                (pos, Seq::empty())
            },
            None => (pos, Seq::empty()),
        }
    }
}

/// A step that is neither `begin` nor `qed.`.
pub open spec fn is_proof_step(t: Tac<Expr>) -> bool {
    !(t is Begin) && !(t is Qed)
}

/// The steps of `ts` without the `begin` and `qed.` markers.
pub open spec fn drop_markers(ts: Seq<Tac<Expr>>) -> Seq<Tac<Expr>>
    decreases ts.len(),
{
    if ts.len() == 0 {
        Seq::empty()
    } else if is_proof_step(ts.last()) {
        drop_markers(ts.drop_last()).push(ts.last())
    } else {
        drop_markers(ts.drop_last())
    }
}

/// An interactive proof: `begin`, then tactics; the `begin` and `qed.`
/// markers among them are dropped.
pub open spec fn spec_interactive(n: Seq<(Seq<Seq<char>>, Expr)>, s: Seq<char>, pos: int) -> Option<(int, Seq<Tac<Expr>>)> {
    match tac_lit(s, pos, "begin"@) {
        Some(p1) => if pos <= p1 <= s.len() {
            let (q, ts) = spec_tactics(n, s, p1);
            Some((q, drop_markers(ts)))
        } else {
            None
        },
        None => None,
    }
}

/// A comment statement: blanks, `#`, the rest of the line and its line feed.
pub open spec fn spec_comment(s: Seq<char>, pos: int) -> Option<(int, Stm)> {
    let p = skip_spaces(s, pos);
    if 0 <= p < s.len() && s[p] == '#' {
        let e = line_end(s, p + 1);
        Some((
            if e < s.len() {
                e + 1
            } else {
                e
            },
            Stm::Comment,
        ))
    } else {
        None
    }
}

/// The first line feed at or after `pos` (or the end of the input).
pub open spec fn line_end(s: Seq<char>, pos: int) -> int
    decreases s.len() - pos,
{
    if 0 <= pos < s.len() && s[pos] != '\n' {
        line_end(s, pos + 1)
    } else {
        pos
    }
}

/// `global x [: T] := body;`.
pub open spec fn spec_global(n: Seq<(Seq<Seq<char>>, Expr)>, s: Seq<char>, pos: int) -> Option<(int, Stm)> {
    match keyword(s, pos, "global"@) {
        Some(p1) => match spec_opt_typed(n, s, p1) {
            Some((p2, x, t)) => match lit(s, p2, ":="@) {
                Some(p3) => match spec_expression(n, s, p3) {
                    Some((p4, b)) => match litc(s, p4, ';') {
                        Some(p5) => Some((p5, Stm::Global(x, t, b))),
                        None => None,
                    },
                    None => None,
                },
                None => None,
            },
            None => None,
        },
        None => None,
    }
}

/// `axiom name : formula;`.
pub open spec fn spec_axiom(n: Seq<(Seq<Seq<char>>, Expr)>, s: Seq<char>, pos: int) -> Option<(int, Stm)> {
    match keyword(s, pos, "axiom"@) {
        Some(p1) => match spec_identifier(s, p1) {
            Some((p2, x)) => match lit(s, p2, ":"@) {
                Some(p3) => match spec_expression(n, s, p3) {
                    Some((p4, f)) => match litc(s, p4, ';') {
                        Some(p5) => Some((p5, Stm::Axiom(x, f))),
                        None => None,
                    },
                    None => None,
                },
                None => None,
            },
            None => None,
        },
        None => None,
    }
}

/// `name : type`.
pub open spec fn spec_typed_param(n: Seq<(Seq<Seq<char>>, Expr)>, s: Seq<char>, pos: int) -> Option<(int, (Seq<char>, Expr))> {
    match spec_identifier(s, pos) {
        Some((p1, x)) => match lit(s, p1, ":"@) {
            Some(p2) => match spec_type_expression(n, s, p2) {
                Some((p3, t)) => Some((p3, (x, t))),
                None => None,
            },
            None => None,
        },
        None => None,
    }
}

/// The typed parameters after the first, each after a comma.
pub open spec fn spec_params_rest(n: Seq<(Seq<Seq<char>>, Expr)>, s: Seq<char>, pos: int) -> (int, Seq<(Seq<char>, Expr)>)
    decreases s.len() - pos,
{
    if !(0 <= pos <= s.len()) {
        (pos, Seq::empty())
    } else {
        match litc(s, pos, ',') {
            Some(q) => match spec_typed_param(n, s, q) {
                Some((q2, p)) => if fwd(s, pos, q2) {
                    let (q3, rest) = spec_params_rest(n, s, q2);
                    (q3, seq![p] + rest)
                } else {
                    (pos, Seq::empty())
                },
                None => (pos, Seq::empty()),
            },
            None => (pos, Seq::empty()),
        }
    }
}

/// An optional parenthesised, comma separated list of typed parameters
/// (with an optional trailing comma); none when it is missing.
pub open spec fn spec_params(n: Seq<(Seq<Seq<char>>, Expr)>, s: Seq<char>, pos: int) -> (int, Seq<(Seq<char>, Expr)>) {
    match litc(s, pos, '(') {
        Some(p1) => match spec_typed_param(n, s, p1) {
            Some((p2, first)) => {
                let (p3, rest) = spec_params_rest(n, s, p2);
                let p4 = match litc(s, p3, ',') {
                    Some(q) => q,
                    None => p3,
                };
                match litc(s, p4, ')') {
                    Some(p5) => (p5, seq![first] + rest),
                    None => (pos, Seq::empty()),
                }
            },
            None => (pos, Seq::empty()),
        },
        None => (pos, Seq::empty()),
    }
}

/// `fun [rec] name (params) : type { body }`.
pub open spec fn spec_function(n: Seq<(Seq<Seq<char>>, Expr)>, s: Seq<char>, pos: int) -> Option<(int, Stm)> {
    match lit(s, pos, "fun"@) {
        Some(p1) => {
            let (p2, is_rec) = match ws1_lit(s, p1, "rec"@) {
                Some(q) => (q, true),
                None => (p1, false),
            };
            match ws1_identifier(s, p2) {
                Some((p3, x)) => {
                    let (p4, params) = spec_params(n, s, p3);
                    match lit(s, p4, ":"@) {
                        Some(p5) => match spec_type_expression(n, s, p5) {
                            Some((p6, out)) => match lit(s, p6, "{"@) {
                                Some(p7) => match spec_local(n, s, p7) {
                                    Some((p8, body)) => match lit(s, p8, "}"@) {
                                        Some(p9) => Some((p9, Stm::Fun(x, params, out, body, is_rec))),
                                        None => None,
                                    },
                                    None => None,
                                },
                                None => None,
                            },
                            None => None,
                        },
                        None => None,
                    }
                },
                None => None,
            }
        },
        None => None,
    }
}

/// A constructor `| name : type` of an inductive definition.
pub open spec fn spec_constructor(n: Seq<(Seq<Seq<char>>, Expr)>, s: Seq<char>, pos: int) -> Option<(int, (Seq<char>, Expr))> {
    match litc(s, pos, '|') {
        Some(p1) => spec_typed_param(n, s, p1),
        None => None,
    }
}

/// The constructors from `pos` on, as many as there are.
pub open spec fn spec_constructors(n: Seq<(Seq<Seq<char>>, Expr)>, s: Seq<char>, pos: int) -> (int, Seq<(Seq<char>, Expr)>)
    decreases s.len() - pos,
{
    if !(0 <= pos <= s.len()) {
        (pos, Seq::empty())
    } else {
        match spec_constructor(n, s, pos) {
            Some((q, c)) => if fwd(s, pos, q) {
                let (q2, rest) = spec_constructors(n, s, q);
                (q2, seq![c] + rest)
            } else {
                (pos, Seq::empty())
            },
            None => (pos, Seq::empty()),
        }
    }
}

/// `inductive name (params) : arity { | constructor : type ... }`.
pub open spec fn spec_inductive(n: Seq<(Seq<Seq<char>>, Expr)>, s: Seq<char>, pos: int) -> Option<(int, Stm)> {
    match keyword(s, pos, "inductive"@) {
        Some(p1) => match spec_identifier(s, p1) {
            Some((p2, x)) => {
                let (p3, params) = spec_params(n, s, p2);
                match lit(s, p3, ":"@) {
                    Some(p4) => match spec_type_expression(n, s, p4) {
                        Some((p5, arity)) => match lit(s, p5, "{"@) {
                            Some(p6) => {
                                let (p7, cs) = spec_constructors(n, s, p6);
                                match litc(s, p7, '}') {
                                    Some(p8) => Some((p8, Stm::Inductive(x, params, arity, cs))),
                                    None => None,
                                }
                            },
                            None => None,
                        },
                        None => None,
                    },
                    None => None,
                }
            },
            None => None,
        },
        None => None,
    }
}

/// `theorem name : formula := proof` (also `lemma`, `proposition`); the proof
/// is a parenthesised term or an interactive proof.
pub open spec fn spec_theorem(n: Seq<(Seq<Seq<char>>, Expr)>, s: Seq<char>, pos: int) -> Option<(int, Stm)> {
    match or_else(keyword(s, pos, "theorem"@), or_else(keyword(s, pos, "lemma"@), keyword(s, pos, "proposition"@))) {
        Some(p1) => match spec_identifier(s, p1) {
            Some((p2, x)) => match lit(s, p2, ":"@) {
                Some(p3) => match spec_expression(n, s, p3) {
                    Some((p4, f)) => match lit(s, p4, ":="@) {
                        Some(p5) => {
                            let p6 = skip_ws(s, p5);
                            match spec_parens(n, s, p6) {
                                Some((q, t)) => Some((q, Stm::Theorem(x, f, ProofModel::Term(t)))),
                                None => match spec_interactive(n, s, p6) {
                                    Some((q, ts)) => Some((q, Stm::Theorem(x, f, ProofModel::Tactics(ts)))),
                                    None => None,
                                },
                            }
                        },
                        None => None,
                    },
                    None => None,
                },
                None => None,
            },
            None => None,
        },
        None => None,
    }
}

/// `auto formula;`.
pub open spec fn spec_auto(n: Seq<(Seq<Seq<char>>, Expr)>, s: Seq<char>, pos: int) -> Option<(int, Stm)> {
    match keyword(s, pos, "auto"@) {
        Some(p1) => match spec_expression(n, s, p1) {
            Some((p2, f)) => match lit(s, p2, ";"@) {
                Some(p3) => Some((p3, Stm::Auto(f))),
                None => None,
            },
            None => None,
        },
        None => None,
    }
}

/// The types after the first of a comma separated list.
pub open spec fn spec_types_rest(n: Seq<(Seq<Seq<char>>, Expr)>, s: Seq<char>, pos: int) -> (int, Seq<Expr>)
    decreases s.len() - pos,
{
    if !(0 <= pos <= s.len()) {
        (pos, Seq::empty())
    } else {
        match lit(s, pos, ","@) {
            Some(q) => match spec_type_expression(n, s, q) {
                Some((q2, t)) => if fwd(s, pos, q2) {
                    let (q3, rest) = spec_types_rest(n, s, q2);
                    (q3, seq![t] + rest)
                } else {
                    (pos, Seq::empty())
                },
                None => (pos, Seq::empty()),
            },
            None => (pos, Seq::empty()),
        }
    }
}

/// A non-empty comma separated list of types.
pub open spec fn spec_types(n: Seq<(Seq<Seq<char>>, Expr)>, s: Seq<char>, pos: int) -> Option<(int, Seq<Expr>)> {
    match spec_type_expression(n, s, pos) {
        Some((p1, t)) => {
            let (p2, rest) = spec_types_rest(n, s, p1);
            Some((p2, seq![t] + rest))
        },
        None => None,
    }
}

/// `solve goal, ...`.
pub open spec fn spec_solve(n: Seq<(Seq<Seq<char>>, Expr)>, s: Seq<char>, pos: int) -> Option<(int, Stm)> {
    match lit(s, pos, "solve"@) {
        Some(p1) => if skip_ws(s, p1) > p1 {
            match spec_types(n, s, skip_ws(s, p1)) {
                Some((q, gs)) => Some((q, Stm::Solve(gs))),
                None => None,
            }
        } else {
            None
        },
        None => None,
    }
}

/// `hclause head [<- subgoal, ...];`.
pub open spec fn spec_hclause(n: Seq<(Seq<Seq<char>>, Expr)>, s: Seq<char>, pos: int) -> Option<(int, Stm)> {
    match lit(s, pos, "hclause"@) {
        Some(p1) => match spec_type_expression(n, s, p1) {
            Some((p2, h)) => {
                let (p3, gs) = match lit(s, p2, "<-"@) {
                    Some(q) => match spec_types(n, s, q) {
                        Some((q2, gs)) => (q2, gs),
                        None => (p2, Seq::empty()),
                    },
                    None => (p2, Seq::empty()),
                };
                match lit(s, p3, ";"@) {
                    Some(p4) => Some((p4, Stm::HClause(h, gs))),
                    None => None,
                }
            },
            None => None,
        },
        None => None,
    }
}

/// `key := expression;`.
pub open spec fn spec_field(n: Seq<(Seq<Seq<char>>, Expr)>, s: Seq<char>, pos: int, key: Seq<char>) -> Option<(int, Expr)> {
    match lit(s, pos, key) {
        Some(p1) => match lit(s, p1, ":="@) {
            Some(p2) => match spec_expression(n, s, p2) {
                Some((p3, e)) => match litc(s, p3, ';') {
                    Some(p4) => Some((p4, e)),
                    None => None,
                },
                None => None,
            },
            None => None,
        },
        None => None,
    }
}

/// `| name => type`.
pub open spec fn spec_entry(n: Seq<(Seq<Seq<char>>, Expr)>, s: Seq<char>, pos: int) -> Option<(int, (Seq<char>, Expr))> {
    match litc(s, pos, '|') {
        Some(p1) => match spec_identifier(s, p1) {
            Some((p2, x)) => match lit(s, p2, "=>"@) {
                Some(p3) => match spec_type_expression(n, s, p3) {
                    Some((p4, t)) => Some((p4, (x, t))),
                    None => None,
                },
                None => None,
            },
            None => None,
        },
        None => None,
    }
}

/// The entries from `pos` on, as many as there are.
pub open spec fn spec_entries(n: Seq<(Seq<Seq<char>>, Expr)>, s: Seq<char>, pos: int) -> (int, Seq<(Seq<char>, Expr)>)
    decreases s.len() - pos,
{
    if !(0 <= pos <= s.len()) {
        (pos, Seq::empty())
    } else {
        match spec_entry(n, s, pos) {
            Some((q, x)) => if fwd(s, pos, q) {
                let (q2, rest) = spec_entries(n, s, q);
                (q2, seq![x] + rest)
            } else {
                (pos, Seq::empty())
            },
            None => (pos, Seq::empty()),
        }
    }
}

/// `name { | entry => type ... }`.
pub open spec fn spec_block(n: Seq<(Seq<Seq<char>>, Expr)>, s: Seq<char>, pos: int, name: Seq<char>) -> Option<(int, Seq<(Seq<char>, Expr)>)> {
    match lit(s, pos, name) {
        Some(p1) => match lit(s, p1, "{"@) {
            Some(p2) => {
                let (p3, es) = spec_entries(n, s, p2);
                match litc(s, p3, '}') {
                    Some(p4) => Some((p4, es)),
                    None => None,
                }
            },
            None => None,
        },
        None => None,
    }
}

/// The heading of an equivalence: `equivalence name : A <-> B {`.
pub open spec fn spec_equiv_head(n: Seq<(Seq<Seq<char>>, Expr)>, s: Seq<char>, pos: int) -> Option<(int, Seq<char>, Expr, Expr)> {
    match keyword(s, pos, "equivalence"@) {
        Some(p1) => match spec_identifier(s, p1) {
            Some((p2, x)) => match lit(s, p2, ":"@) {
                Some(p3) => match spec_type_expression(n, s, p3) {
                    Some((p4, a)) => match lit(s, p4, "<->"@) {
                        Some(p5) => match spec_type_expression(n, s, p5) {
                            Some((p6, b)) => match lit(s, p6, "{"@) {
                                Some(p7) => Some((p7, x, a, b)),
                                None => None,
                            },
                            None => None,
                        },
                        None => None,
                    },
                    None => None,
                },
                None => None,
            },
            None => None,
        },
        None => None,
    }
}

/// The functions and proofs of an equivalence: forward, backward, section,
/// retraction, dep_elim and an optional eta.
pub open spec fn spec_equiv_fields(n: Seq<(Seq<Seq<char>>, Expr)>, s: Seq<char>, pos: int) -> Option<(int, Seq<Expr>, Option<Expr>)> {
    match spec_field(n, s, pos, "forward"@) {
        Some((p1, f)) => match spec_field(n, s, p1, "backward"@) {
            Some((p2, g)) => match spec_field(n, s, p2, "section"@) {
                Some((p3, sec)) => match spec_field(n, s, p3, "retraction"@) {
                    Some((p4, ret)) => match spec_field(n, s, p4, "dep_elim"@) {
                        Some((p5, de)) => match spec_field(n, s, p5, "eta"@) {
                            Some((p6, eta)) => Some((p6, seq![f, g, sec, ret, de], Some(eta))),
                            None => Some((p5, seq![f, g, sec, ret, de], None)),
                        },
                        None => None,
                    },
                    None => None,
                },
                None => None,
            },
            None => None,
        },
        None => None,
    }
}

/// `equivalence name : A <-> B { fields dep_constr { ... } iota { ... } }`.
pub open spec fn spec_equivalence(n: Seq<(Seq<Seq<char>>, Expr)>, s: Seq<char>, pos: int) -> Option<(int, Stm)> {
    match spec_equiv_head(n, s, pos) {
        Some((p1, x, a, b)) => match spec_equiv_fields(n, s, p1) {
            Some((p2, fs, eta)) => match spec_block(n, s, p2, "dep_constr"@) {
                Some((p3, dc)) => match spec_block(n, s, p3, "iota"@) {
                    Some((p4, io)) => match lit(s, p4, "}"@) {
                        Some(p5) => Some((p5, Stm::Equivalence(x, a, b, fs[0], fs[1], fs[2], fs[3], fs[4], eta, dc, io))),
                        None => None,
                    },
                    None => None,
                },
                None => None,
            },
            None => None,
        },
        None => None,
    }
}

/// `transport new : type from old using equivalence;`.
pub open spec fn spec_transport(n: Seq<(Seq<Seq<char>>, Expr)>, s: Seq<char>, pos: int) -> Option<(int, Stm)> {
    match keyword(s, pos, "transport"@) {
        Some(p1) => match spec_identifier(s, p1) {
            Some((p2, x)) => match lit(s, p2, ":"@) {
                Some(p3) => match spec_expression(n, s, p3) {
                    Some((p4, t)) => match lit(s, p4, "from"@) {
                        Some(p5) => match ws1_identifier(s, p5) {
                            Some((p6, old)) => match lit(s, p6, "using"@) {
                                Some(p7) => match ws1_identifier(s, p7) {
                                    Some((p8, eq)) => match litc(s, p8, ';') {
                                        Some(p9) => Some((p9, Stm::Transport(x, t, old, eq))),
                                        None => None,
                                    },
                                    None => None,
                                },
                                None => None,
                            },
                            None => None,
                        },
                        None => None,
                    },
                    None => None,
                },
                None => None,
            },
            None => None,
        },
        None => None,
    }
}

/// A statement that defines no notation and holds no nodes.
pub open spec fn spec_plain_statement(n: Seq<(Seq<Seq<char>>, Expr)>, s: Seq<char>, pos: int) -> Option<(int, Stm)> {
    or_else(spec_comment(s, pos),
    or_else(spec_global(n, s, pos),
    or_else(spec_axiom(n, s, pos),
    or_else(spec_inductive(n, s, pos),
    or_else(spec_theorem(n, s, pos),
    spec_function(n, s, pos))))))
}

/// The statements tried after a notation definition.
pub open spec fn spec_late_statement(n: Seq<(Seq<Seq<char>>, Expr)>, s: Seq<char>, pos: int) -> Option<(int, Stm)> {
    or_else(spec_auto(n, s, pos),
    or_else(spec_solve(n, s, pos),
    or_else(spec_hclause(n, s, pos),
    or_else(spec_equivalence(n, s, pos),
    spec_transport(n, s, pos)))))
}

/// A notation definition, with the notations after it.
pub open spec fn spec_notation_stm(n: Seq<(Seq<Seq<char>>, Expr)>, s: Seq<char>, pos: int) -> Option<(int, Stm, Seq<(Seq<Seq<char>>, Expr)>)> {
    match spec_notation_syntax(s, pos) {
        Some((q, pattern, body)) => match spec_expression(n, body, 0) {
            Some((_, e)) => Some((q, Stm::Comment, with_notation(n, pattern, e))),
            None => None,
        },
        None => None,
    }
}

/// Any statement, and the notations after the attempt (a notation that a
/// failed attempt defined stays defined).
pub open spec fn spec_statement(cfg: Config, n: Seq<(Seq<Seq<char>>, Expr)>, s: Seq<char>, pos: int) -> (Option<(int, Stm)>, Seq<(Seq<Seq<char>>, Expr)>)
    decreases s.len() - pos, 2int,
{
    if !(0 <= pos <= s.len()) {
        (None, n)
    } else {
        match spec_plain_statement(n, s, pos) {
            Some(x) => (Some(x), n),
            None => {
                let (tb, n2) = spec_theory_block(cfg, n, s, pos);
                match tb {
                    Some(x) => (Some(x), n2),
                    None => match spec_notation_stm(n2, s, pos) {
                        Some((q, st, n3)) => (Some((q, st)), n3),
                        None => (spec_late_statement(n2, s, pos), n2),
                    },
                }
            },
        }
    }
}

/// `!theory_block system nodes !end_block`: the nodes when `system` is the
/// configured one, none for another known system, a failure otherwise; and
/// the notations after the attempt.
pub open spec fn spec_theory_block(cfg: Config, n: Seq<(Seq<Seq<char>>, Expr)>, s: Seq<char>, pos: int) -> (Option<(int, Stm)>, Seq<(Seq<Seq<char>>, Expr)>)
    decreases s.len() - pos, 1int,
{
    if !(0 <= pos <= s.len()) {
        (None, n)
    } else {
        match lit(s, pos, "!theory_block"@) {
            Some(p1) => match ws1_identifier(s, p1) {
                Some((p2, system)) => if fwd(s, pos, p2) {
                    let (p3, nodes, n2) = spec_nodes(cfg, n, s, p2);
                    match lit(s, p3, "!end_block"@) {
                        Some(p4) => match spec_map_type_system(system) {
                            Some(ts) => if ts == cfg.system {
                                (Some((p4, Stm::EmptyRoot(nodes))), n2)
                            } else {
                                (Some((p4, Stm::EmptyRoot(Seq::empty()))), n2)
                            },
                            None => (None, n2),
                        },
                        None => (None, n2),
                    }
                } else {
                    (None, n)
                },
                None => (None, n),
            },
            None => (None, n),
        }
    }
}

/// A node: an expression, or else a statement; and the notations after it.
pub open spec fn spec_node(cfg: Config, n: Seq<(Seq<Seq<char>>, Expr)>, s: Seq<char>, pos: int) -> (Option<(int, Ast)>, Seq<(Seq<Seq<char>>, Expr)>)
    decreases s.len() - pos, 3int,
{
    if !(0 <= pos <= s.len()) {
        (None, n)
    } else {
        match spec_expression(n, s, pos) {
            Some((q, e)) => (Some((q, Ast::Exp(e))), n),
            None => {
                let (st, n2) = spec_statement(cfg, n, s, pos);
                match st {
                    Some((q, x)) => (Some((q, Ast::Stm(x))), n2),
                    None => (None, n2),
                }
            },
        }
    }
}

/// The nodes from `pos` on, as many as there are, with the notations after them.
pub open spec fn spec_nodes(cfg: Config, n: Seq<(Seq<Seq<char>>, Expr)>, s: Seq<char>, pos: int) -> (int, Seq<Ast>, Seq<(Seq<Seq<char>>, Expr)>)
    decreases s.len() - pos, 4int,
{
    if !(0 <= pos <= s.len()) {
        (pos, Seq::empty(), n)
    } else {
        let (nd, n2) = spec_node(cfg, n, s, pos);
        match nd {
            Some((q, a)) => if fwd(s, pos, q) {
                let (q2, rest, n3) = spec_nodes(cfg, n2, s, q);
                (q2, seq![a] + rest, n3)
            } else {
                (pos, Seq::empty(), n2)
            },
            None => (pos, Seq::empty(), n2),
        }
    }
}

} // verus!
