use vstd::prelude::*;
use vstd::string::*;
use crate::parser::api::Expr;
use crate::parser::lexer::{keyword, lit, litc, skip_ws, spec_identifier, ws1_lit};
use crate::parser::notation::expand;

verus! {

// The expression grammar, as a parsing expression grammar over the
// characters of the input. Each function reads the input from `pos` on and
// gives the position after what it read and what it built, or `None`.
// Alternatives are tried in order and the first that succeeds wins.
// `n` holds the notations defined so far, each as its pattern tokens and
// its body, in the order they were defined.

/// The first of two alternatives that succeeds.
pub open spec fn or_else<A>(a: Option<A>, b: Option<A>) -> Option<A> {
    match a {
        Some(x) => Some(x),
        None => b,
    }
}

/// `q` lies after `p`, within the input.
pub open spec fn fwd(s: Seq<char>, p: int, q: int) -> bool {
    p < q && q <= s.len()
}

/// The infer operator `?`.
pub open spec fn spec_meta(s: Seq<char>, pos: int) -> Option<(int, Expr)> {
    match litc(s, pos, '?') {
        Some(q) => Some((q, Expr::Infer)),
        None => None,
    }
}

/// A variable: an identifier.
pub open spec fn spec_var(s: Seq<char>, pos: int) -> Option<(int, Expr)> {
    match spec_identifier(s, pos) {
        Some((q, w)) => Some((q, Expr::VarUse(w))),
        None => None,
    }
}

/// Any expression.
pub open spec fn spec_expression(n: Seq<(Seq<Seq<char>>, Expr)>, s: Seq<char>, pos: int) -> Option<(int, Expr)>
    decreases s.len() - pos, 10int, 0int,
{
    if !(0 <= pos <= s.len()) {
        None
    } else {
        or_else(spec_meta(s, pos),
        or_else(spec_abs(n, s, pos),
        or_else(spec_type_abs(n, s, pos),
        or_else(spec_arrow(n, s, pos),
        or_else(spec_let(n, s, pos),
        or_else(spec_match(n, s, pos),
        or_else(spec_custom_from(n, 0, s, pos),
        or_else(spec_app(n, s, pos),
        or_else(spec_parens(n, s, pos),
        or_else(spec_tuple(n, s, pos),
        or_else(spec_pipe(n, s, pos),
        spec_var(s, pos))))))))))))
    }
}

/// An expression that may be a `let` definition.
pub open spec fn spec_local(n: Seq<(Seq<Seq<char>>, Expr)>, s: Seq<char>, pos: int) -> Option<(int, Expr)>
    decreases s.len() - pos, 11int, 0int,
{
    if !(0 <= pos <= s.len()) {
        None
    } else {
        or_else(spec_let(n, s, pos), spec_expression(n, s, pos))
    }
}

/// A type: an arrow, a parenthesised expression, an application, a variable
/// or a dependent product.
pub open spec fn spec_type_expression(n: Seq<(Seq<Seq<char>>, Expr)>, s: Seq<char>, pos: int) -> Option<(int, Expr)>
    decreases s.len() - pos, 5int, 0int,
{
    if !(0 <= pos <= s.len()) {
        None
    } else {
        or_else(spec_arrow(n, s, pos),
        or_else(spec_parens(n, s, pos),
        or_else(spec_app(n, s, pos),
        or_else(spec_var(s, pos),
        spec_type_abs(n, s, pos)))))
    }
}

/// An expression that is not itself a use of a notation (a notation's operand).
pub open spec fn spec_non_custom(n: Seq<(Seq<Seq<char>>, Expr)>, s: Seq<char>, pos: int) -> Option<(int, Expr)>
    decreases s.len() - pos, 7int, 0int,
{
    if !(0 <= pos <= s.len()) {
        None
    } else {
        or_else(spec_meta(s, pos),
        or_else(spec_abs(n, s, pos),
        or_else(spec_type_abs(n, s, pos),
        or_else(spec_arrow(n, s, pos),
        or_else(spec_app(n, s, pos),
        or_else(spec_pipe(n, s, pos),
        or_else(spec_var(s, pos),
        or_else(spec_parens(n, s, pos),
        or_else(spec_tuple(n, s, pos),
        spec_match(n, s, pos))))))))))
    }
}

/// A use of the first notation, from the `k`-th on, whose pattern matches:
/// its body with the placeholders bound to the operands.
pub open spec fn spec_custom_from(n: Seq<(Seq<Seq<char>>, Expr)>, k: int, s: Seq<char>, pos: int) -> Option<(int, Expr)>
    decreases s.len() - pos, 9int, n.len() - k,
{
    if !(0 <= pos <= s.len()) || !(0 <= k < n.len()) {
        None
    } else {
        match spec_tokens(n, n[k].0, 0, s, pos) {
            Some((q, args)) => Some((q, expand(n[k].1, args))),
            None => spec_custom_from(n, k + 1, s, pos),
        }
    }
}

/// The pattern tokens of a notation from the `i`-th on: a token that starts
/// with `_` is a placeholder and reads an operand, any other token is read
/// as it stands. Gives the placeholders with their operands, in order.
pub open spec fn spec_tokens(
    n: Seq<(Seq<Seq<char>>, Expr)>,
    toks: Seq<Seq<char>>,
    i: int,
    s: Seq<char>,
    pos: int,
) -> Option<(int, Seq<(Seq<char>, Expr)>)>
    decreases s.len() - pos, 8int, toks.len() - i,
{
    if !(0 <= pos <= s.len()) || !(0 <= i <= toks.len()) {
        None
    } else if i == toks.len() {
        Some((pos, Seq::empty()))
    } else if toks[i].len() > 0 && toks[i][0] == '_' {
        match spec_non_custom(n, s, pos) {
            Some((q, e)) => if fwd(s, pos, q) {
                match spec_tokens(n, toks, i + 1, s, q) {
                    Some((r, args)) => Some((r, seq![(toks[i], e)] + args)),
                    None => None,
                }
            } else {
                None
            },
            None => None,
        }
    } else {
        match lit(s, pos, toks[i]) {
            Some(q) => if pos <= q <= s.len() {
                spec_tokens(n, toks, i + 1, s, q)
            } else {
                None
            },
            None => None,
        }
    }
}

/// An argument inside the parentheses of an application.
pub open spec fn spec_argument(n: Seq<(Seq<Seq<char>>, Expr)>, s: Seq<char>, pos: int) -> Option<(int, Expr)>
    decreases s.len() - pos, 10int, 0int,
{
    if !(0 <= pos <= s.len()) {
        None
    } else {
        or_else(spec_custom_from(n, 0, s, pos),
        or_else(spec_app(n, s, pos),
        or_else(spec_var(s, pos),
        or_else(spec_meta(s, pos),
        spec_parens(n, s, pos)))))
    }
}

/// What an application applies: a variable, an abstraction, a product or a
/// parenthesised expression.
pub open spec fn spec_applicable(n: Seq<(Seq<Seq<char>>, Expr)>, s: Seq<char>, pos: int) -> Option<(int, Expr)>
    decreases s.len() - pos, 2int, 0int,
{
    if !(0 <= pos <= s.len()) {
        None
    } else {
        or_else(spec_var(s, pos),
        or_else(spec_abs(n, s, pos),
        or_else(spec_type_abs(n, s, pos),
        spec_parens(n, s, pos))))
    }
}

/// An application: its function, then one or more groups of arguments.
pub open spec fn spec_app(n: Seq<(Seq<Seq<char>>, Expr)>, s: Seq<char>, pos: int) -> Option<(int, Expr)>
    decreases s.len() - pos, 3int, 0int,
{
    if !(0 <= pos <= s.len()) {
        None
    } else {
        match spec_applicable(n, s, pos) {
            Some((p1, f)) => if fwd(s, pos, p1) {
                let (p2, args) = spec_args(n, s, p1);
                if args.len() > 0 {
                    Some((p2, Expr::App(Box::new(f), args)))
                } else {
                    None
                }
            } else {
                None
            },
            None => None,
        }
    }
}

/// The argument groups from `pos` on, as many as there are, flattened.
pub open spec fn spec_args(n: Seq<(Seq<Seq<char>>, Expr)>, s: Seq<char>, pos: int) -> (int, Seq<Expr>)
    decreases s.len() - pos, 1int, 0int,
{
    if !(0 <= pos <= s.len()) {
        (pos, Seq::empty())
    } else {
        match spec_arg_group(n, s, pos) {
            Some((p1, g)) => if fwd(s, pos, p1) {
                let (p2, more) = spec_args(n, s, p1);
                (p2, g + more)
            } else {
                (pos, Seq::empty())
            },
            None => (pos, Seq::empty()),
        }
    }
}

/// A group of arguments: a parenthesised, comma separated list (with an
/// optional trailing comma), or a variable or `?` after a blank.
pub open spec fn spec_arg_group(n: Seq<(Seq<Seq<char>>, Expr)>, s: Seq<char>, pos: int) -> Option<(int, Seq<Expr>)>
    decreases s.len() - pos, 0int, 0int,
{
    if !(0 <= pos <= s.len()) {
        None
    } else {
        match litc(s, pos, '(') {
            Some(p1) => if fwd(s, pos, p1) {
                match spec_argument(n, s, p1) {
                    Some((p2, a)) => if fwd(s, pos, p2) {
                        let (p3, rest) = spec_arg_rest(n, s, p2);
                        let p4 = match litc(s, p3, ',') {
                            Some(q) => q,
                            None => p3,
                        };
                        match litc(s, p4, ')') {
                            Some(p5) => Some((p5, seq![a] + rest)),
                            None => None,
                        }
                    } else {
                        None
                    },
                    None => None,
                }
            } else {
                None
            },
            None => {
                let p = skip_ws(s, pos);
                if p > pos {
                    match or_else(spec_var(s, p), spec_meta(s, p)) {
                        Some((q, a)) => Some((q, seq![a])),
                        None => None,
                    }
                } else {
                    None
                }
            },
        }
    }
}

/// The arguments after the first in a parenthesised group, each after a comma.
pub open spec fn spec_arg_rest(n: Seq<(Seq<Seq<char>>, Expr)>, s: Seq<char>, pos: int) -> (int, Seq<Expr>)
    decreases s.len() - pos, 0int, 0int,
{
    if !(0 <= pos <= s.len()) {
        (pos, Seq::empty())
    } else {
        match litc(s, pos, ',') {
            Some(q) => if fwd(s, pos, q) {
                match spec_argument(n, s, q) {
                    Some((q2, a)) => if fwd(s, pos, q2) {
                        let (q3, rest) = spec_arg_rest(n, s, q2);
                        (q3, seq![a] + rest)
                    } else {
                        (pos, Seq::empty())
                    },
                    None => (pos, Seq::empty()),
                }
            } else {
                (pos, Seq::empty())
            },
            None => (pos, Seq::empty()),
        }
    }
}

/// A parenthesised expression.
pub open spec fn spec_parens(n: Seq<(Seq<Seq<char>>, Expr)>, s: Seq<char>, pos: int) -> Option<(int, Expr)>
    decreases s.len() - pos, 1int, 0int,
{
    if !(0 <= pos <= s.len()) {
        None
    } else {
        match litc(s, pos, '(') {
            Some(p1) => if fwd(s, pos, p1) {
                match spec_expression(n, s, p1) {
                    Some((p2, e)) => match litc(s, p2, ')') {
                        Some(p3) => Some((p3, e)),
                        None => None,
                    },
                    None => None,
                }
            } else {
                None
            },
            None => None,
        }
    }
}

/// A tuple: parenthesised, comma separated expressions, with an optional
/// trailing comma.
pub open spec fn spec_tuple(n: Seq<(Seq<Seq<char>>, Expr)>, s: Seq<char>, pos: int) -> Option<(int, Expr)>
    decreases s.len() - pos, 1int, 0int,
{
    if !(0 <= pos <= s.len()) {
        None
    } else {
        match litc(s, pos, '(') {
            Some(p1) => if fwd(s, pos, p1) {
                match spec_expression(n, s, p1) {
                    Some((p2, e0)) => if fwd(s, pos, p2) {
                        let (p3, rest) = spec_tuple_rest(n, s, p2);
                        let p4 = match litc(s, p3, ',') {
                            Some(q) => q,
                            None => p3,
                        };
                        match litc(s, p4, ')') {
                            Some(p5) => Some((p5, Expr::Tuple(seq![e0] + rest))),
                            None => None,
                        }
                    } else {
                        None
                    },
                    None => None,
                }
            } else {
                None
            },
            None => None,
        }
    }
}

/// The elements of a tuple after the first, each after a comma.
pub open spec fn spec_tuple_rest(n: Seq<(Seq<Seq<char>>, Expr)>, s: Seq<char>, pos: int) -> (int, Seq<Expr>)
    decreases s.len() - pos, 0int, 0int,
{
    if !(0 <= pos <= s.len()) {
        (pos, Seq::empty())
    } else {
        match litc(s, pos, ',') {
            Some(q) => if fwd(s, pos, q) {
                match spec_expression(n, s, q) {
                    Some((q2, e)) => if fwd(s, pos, q2) {
                        let (q3, rest) = spec_tuple_rest(n, s, q2);
                        (q3, seq![e] + rest)
                    } else {
                        (pos, Seq::empty())
                    },
                    None => (pos, Seq::empty()),
                }
            } else {
                (pos, Seq::empty())
            },
            None => (pos, Seq::empty()),
        }
    }
}

/// The binder of an abstraction: a name, `:` and its type.
pub open spec fn spec_binder(n: Seq<(Seq<Seq<char>>, Expr)>, s: Seq<char>, pos: int) -> Option<(int, Seq<char>, Expr)>
    decreases s.len() - pos, 0int, 0int,
{
    if !(0 <= pos <= s.len()) {
        None
    } else {
        match spec_identifier(s, pos) {
            Some((p1, name)) => match litc(s, p1, ':') {
                Some(p2) => if fwd(s, pos, p2) {
                    match spec_type_expression(n, s, p2) {
                        Some((p3, ty)) => Some((p3, name, ty)),
                        None => None,
                    }
                } else {
                    None
                },
                None => None,
            },
            None => None,
        }
    }
}

/// An abstraction `λx:T. body` (or `\lambda x:T. body`); without a binder it
/// binds `it` of type `Unit`.
pub open spec fn spec_abs(n: Seq<(Seq<Seq<char>>, Expr)>, s: Seq<char>, pos: int) -> Option<(int, Expr)>
    decreases s.len() - pos, 1int, 0int,
{
    if !(0 <= pos <= s.len()) {
        None
    } else {
        match or_else(lit(s, pos, "λ"@), lit(s, pos, "\\lambda "@)) {
            Some(p1) => if fwd(s, pos, p1) {
                let (p2, name, ty) = match spec_binder(n, s, p1) {
                    Some((q, x, t)) => (q, x, t),
                    None => (p1, "it"@, Expr::VarUse("Unit"@)),
                };
                match litc(s, p2, '.') {
                    Some(p3) => if fwd(s, pos, p3) {
                        match spec_expression(n, s, p3) {
                            Some((p4, body)) => Some((p4, Expr::Abs(name, Box::new(ty), Box::new(body)))),
                            None => None,
                        }
                    } else {
                        None
                    },
                    None => None,
                }
            } else {
                None
            },
            None => None,
        }
    }
}

/// A dependent product `Πx:T. body` (or `∀x:T. body`, `\forall x:T. body`).
pub open spec fn spec_type_abs(n: Seq<(Seq<Seq<char>>, Expr)>, s: Seq<char>, pos: int) -> Option<(int, Expr)>
    decreases s.len() - pos, 1int, 0int,
{
    if !(0 <= pos <= s.len()) {
        None
    } else {
        match or_else(lit(s, pos, "Π"@), or_else(lit(s, pos, "∀"@), lit(s, pos, "\\forall"@))) {
            Some(p1) => if fwd(s, pos, p1) {
                match spec_binder(n, s, p1) {
                    Some((p2, name, ty)) => match litc(s, p2, '.') {
                        Some(p3) => if fwd(s, pos, p3) {
                            match spec_expression(n, s, p3) {
                                Some((p4, body)) => Some((p4, Expr::Prod(name, Box::new(ty), Box::new(body)))),
                                None => None,
                            }
                        } else {
                            None
                        },
                        None => None,
                    },
                    None => None,
                }
            } else {
                None
            },
            None => None,
        }
    }
}

/// An arrow type `A -> B`, associating to the right.
pub open spec fn spec_arrow(n: Seq<(Seq<Seq<char>>, Expr)>, s: Seq<char>, pos: int) -> Option<(int, Expr)>
    decreases s.len() - pos, 4int, 0int,
{
    if !(0 <= pos <= s.len()) {
        None
    } else {
        match or_else(spec_parens(n, s, pos), or_else(spec_app(n, s, pos), spec_var(s, pos))) {
            Some((p1, d)) => match lit(s, p1, "->"@) {
                Some(p2) => if fwd(s, pos, p2) {
                    match spec_type_expression(n, s, p2) {
                        Some((p3, c)) => Some((p3, Expr::Arrow(Box::new(d), Box::new(c)))),
                        None => None,
                    }
                } else {
                    None
                },
                None => None,
            },
            None => None,
        }
    }
}

/// A name with an optional `: type`.
pub open spec fn spec_opt_typed(n: Seq<(Seq<Seq<char>>, Expr)>, s: Seq<char>, pos: int) -> Option<(int, Seq<char>, Option<Expr>)>
    decreases s.len() - pos, 0int, 0int,
{
    if !(0 <= pos <= s.len()) {
        None
    } else {
        match spec_identifier(s, pos) {
            Some((p1, name)) => match litc(s, p1, ':') {
                Some(p2) => if fwd(s, pos, p2) {
                    match spec_type_expression(n, s, p2) {
                        Some((p3, ty)) => Some((p3, name, Some(ty))),
                        None => Some((p1, name, None)),
                    }
                } else {
                    Some((p1, name, None))
                },
                None => Some((p1, name, None)),
            },
            None => None,
        }
    }
}

/// A local definition `let x [: T] := body; scope`.
pub open spec fn spec_let(n: Seq<(Seq<Seq<char>>, Expr)>, s: Seq<char>, pos: int) -> Option<(int, Expr)>
    decreases s.len() - pos, 1int, 0int,
{
    if !(0 <= pos <= s.len()) {
        None
    } else {
        match keyword(s, pos, "let"@) {
            Some(p1) => if fwd(s, pos, p1) {
                match spec_opt_typed(n, s, p1) {
                    Some((p2, name, oty)) => match lit(s, p2, ":="@) {
                        Some(p3) => if fwd(s, pos, p3) {
                            match spec_expression(n, s, p3) {
                                Some((p4, body)) => match litc(s, p4, ';') {
                                    Some(p5) => {
                                        let p6 = skip_ws(s, p5);
                                        if p6 > p5 && fwd(s, pos, p6) {
                                            match spec_local(n, s, p6) {
                                                Some((p7, scope)) => Some((p7, Expr::Let(
                                                    name,
                                                    match oty {
                                                        Some(t) => Some(Box::new(t)),
                                                        None => None,
                                                    },
                                                    Box::new(body),
                                                    Box::new(scope),
                                                ))),
                                                None => None,
                                            }
                                        } else {
                                            None
                                        }
                                    },
                                    None => None,
                                },
                                None => None,
                            }
                        } else {
                            None
                        },
                        None => None,
                    },
                    None => None,
                }
            } else {
                None
            },
            None => None,
        }
    }
}

/// A pattern of a match branch.
pub open spec fn spec_pattern(n: Seq<(Seq<Seq<char>>, Expr)>, s: Seq<char>, pos: int) -> Option<(int, Expr)>
    decreases s.len() - pos, 10int, 0int,
{
    if !(0 <= pos <= s.len()) {
        None
    } else {
        or_else(spec_custom_from(n, 0, s, pos), or_else(spec_app(n, s, pos), spec_var(s, pos)))
    }
}

/// A branch `| pattern => body,`.
pub open spec fn spec_branch(n: Seq<(Seq<Seq<char>>, Expr)>, s: Seq<char>, pos: int) -> Option<(int, (Expr, Expr))>
    decreases s.len() - pos, 1int, 0int,
{
    if !(0 <= pos <= s.len()) {
        None
    } else {
        match litc(s, pos, '|') {
            Some(p1) => if fwd(s, pos, p1) {
                match spec_pattern(n, s, p1) {
                    Some((p2, pat)) => match lit(s, p2, "=>"@) {
                        Some(p3) => if fwd(s, pos, p3) {
                            match spec_expression(n, s, p3) {
                                Some((p4, body)) => match litc(s, p4, ',') {
                                    Some(p5) => Some((p5, (pat, body))),
                                    None => None,
                                },
                                None => None,
                            }
                        } else {
                            None
                        },
                        None => None,
                    },
                    None => None,
                }
            } else {
                None
            },
            None => None,
        }
    }
}

/// The branches from `pos` on, as many as there are.
pub open spec fn spec_branches(n: Seq<(Seq<Seq<char>>, Expr)>, s: Seq<char>, pos: int) -> (int, Seq<(Expr, Expr)>)
    decreases s.len() - pos, 2int, 0int,
{
    if !(0 <= pos <= s.len()) {
        (pos, Seq::empty())
    } else {
        match spec_branch(n, s, pos) {
            Some((p1, b)) => if fwd(s, pos, p1) {
                let (p2, more) = spec_branches(n, s, p1);
                (p2, seq![b] + more)
            } else {
                (pos, Seq::empty())
            },
            None => (pos, Seq::empty()),
        }
    }
}

/// A pattern match `match t with | p => b, ...` with at least one branch.
pub open spec fn spec_match(n: Seq<(Seq<Seq<char>>, Expr)>, s: Seq<char>, pos: int) -> Option<(int, Expr)>
    decreases s.len() - pos, 1int, 0int,
{
    if !(0 <= pos <= s.len()) {
        None
    } else {
        match keyword(s, pos, "match"@) {
            Some(p1) => if fwd(s, pos, p1) {
                match spec_expression(n, s, p1) {
                    Some((p2, t)) => match ws1_lit(s, p2, "with"@) {
                        Some(p3) => if fwd(s, pos, p3) {
                            let (p4, bs) = spec_branches(n, s, p3);
                            if bs.len() > 0 {
                                Some((p4, Expr::Match(Box::new(t), bs)))
                            } else {
                                None
                            }
                        } else {
                            None
                        },
                        None => None,
                    },
                    None => None,
                }
            } else {
                None
            },
            None => None,
        }
    }
}

/// A union of types `A | B | ...` with at least two members.
pub open spec fn spec_pipe(n: Seq<(Seq<Seq<char>>, Expr)>, s: Seq<char>, pos: int) -> Option<(int, Expr)>
    decreases s.len() - pos, 6int, 0int,
{
    if !(0 <= pos <= s.len()) {
        None
    } else {
        match spec_type_expression(n, s, pos) {
            Some((p1, t0)) => if fwd(s, pos, p1) {
                let (p2, rest) = spec_pipe_tail(n, s, p1);
                if rest.len() > 0 {
                    Some((p2, Expr::Pipe(seq![t0] + rest)))
                } else {
                    None
                }
            } else {
                None
            },
            None => None,
        }
    }
}

/// The members of a union after the first, each after a blank and `|`.
pub open spec fn spec_pipe_tail(n: Seq<(Seq<Seq<char>>, Expr)>, s: Seq<char>, pos: int) -> (int, Seq<Expr>)
    decreases s.len() - pos, 0int, 0int,
{
    if !(0 <= pos <= s.len()) {
        (pos, Seq::empty())
    } else {
        let p = skip_ws(s, pos);
        if p > pos && p < s.len() && s[p] == '|' && p + 1 <= s.len() {
            match spec_type_expression(n, s, p + 1) {
                Some((q, t)) => if fwd(s, pos, q) {
                    let (q2, rest) = spec_pipe_tail(n, s, q);
                    (q2, seq![t] + rest)
                } else {
                    (pos, Seq::empty())
                },
                None => (pos, Seq::empty()),
            }
        } else {
            (pos, Seq::empty())
        }
    }
}

} // verus!
