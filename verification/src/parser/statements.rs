use vstd::prelude::*;
use vstd::string::*;
use crate::error::LofError;
use crate::parser::api::{Expr, Expression, LofParser, Notation, Statement};
use crate::parser::expressions::res;
use crate::parser::grammar::spec_expression;
use crate::parser::lexer::{
    is_space, keyword, keyword_at, lemma_skip_spaces_bounds, lemma_skip_ws_bounds, lit, lit_at, skip_spaces,
    skip_spaces_at, skip_ws, skip_ws_at, string_of,
};
use crate::text::str_chars;

verus! {

/// The end of the run of non-space characters that starts at `pos`.
pub open spec fn word_end(t: Seq<char>, pos: int) -> int
    decreases t.len() - pos,
{
    if 0 <= pos < t.len() && !is_space(t[pos]) {
        word_end(t, pos + 1)
    } else {
        pos
    }
}

/// The words of `t` from `pos` on: its runs of non-space characters, in order.
pub open spec fn words_from(t: Seq<char>, pos: int) -> Seq<Seq<char>>
    decreases t.len() - pos,
{
    let a = skip_spaces(t, pos);
    if !(0 <= pos <= t.len()) || !(0 <= a < t.len()) {
        Seq::empty()
    } else {
        let e = word_end(t, a);
        if pos < e <= t.len() {
            seq![t.subrange(a, e)] + words_from(t, e)
        } else {
            Seq::empty()
        }
    }
}

/// A double-quoted, non-empty text at `pos`: where its content starts and
/// ends, and the position after the closing quote.
pub open spec fn quoted(s: Seq<char>, pos: int) -> Option<(int, int, int)> {
    if 0 <= pos < s.len() && s[pos] == '"' {
        let e = quote_end(s, pos + 1);
        if pos + 1 < e < s.len() {
            Some((pos + 1, e, e + 1))
        } else {
            None
        }
    } else {
        None
    }
}

/// The first double quote at or after `pos` (or the end of the input).
pub open spec fn quote_end(s: Seq<char>, pos: int) -> int
    decreases s.len() - pos,
{
    if 0 <= pos < s.len() && s[pos] != '"' {
        quote_end(s, pos + 1)
    } else {
        pos
    }
}

/// `sugar "pattern" := "body"`: the position after it, the pattern and the body.
pub open spec fn spec_notation_syntax(s: Seq<char>, pos: int) -> Option<(int, Seq<char>, Seq<char>)> {
    match keyword(s, pos, "sugar"@) {
        Some(p1) => match quoted(s, p1) {
            Some((a, b, p2)) => match lit(s, p2, ":="@) {
                Some(p3) => {
                    let p4 = skip_ws(s, p3);
                    if p4 > p3 {
                        match quoted(s, p4) {
                            Some((c, d, p5)) => Some((p5, s.subrange(a, b), s.subrange(c, d))),
                            None => None,
                        }
                    } else {
                        None
                    }
                },
                None => None,
            },
            None => None,
        },
        None => None,
    }
}

/// [`words_from`], computed.
pub(crate) fn words_at(t: &Vec<char>, pos: usize) -> (r: Vec<String>)
    requires
        pos <= t.len(),
    ensures
        r@.map_values(|w: String| w@) == words_from(t@, pos as int),
    decreases t@.len() - pos,
{
    let a = skip_spaces_at(t, pos);
    proof {
        lemma_skip_spaces_bounds(t@, pos as int);
    }
    if a >= t.len() {
        let r: Vec<String> = Vec::new();
        assert(r@.map_values(|w: String| w@) =~= Seq::<Seq<char>>::empty());
        return r;
    }
    let mut e = a;
    while e < t.len() && !(t[e] == ' ' || t[e] == '\t' || t[e] == '\n' || t[e] == '\r')
        invariant
            a <= e <= t.len(),
            word_end(t@, a as int) == word_end(t@, e as int),
        decreases t.len() - e,
    {
        e = e + 1;
    }
    if !(pos < e) {
        let r: Vec<String> = Vec::new();
        assert(r@.map_values(|w: String| w@) =~= Seq::<Seq<char>>::empty());
        return r;
    }
    let w = string_of(t, a, e);
    let rest = words_at(t, e);
    let ghost rest0 = rest@;
    let mut out: Vec<String> = Vec::new();
    out.push(w);
    let mut rest = rest;
    out.append(&mut rest);
    assert(out@.map_values(|w: String| w@) =~= seq![t@.subrange(a as int, e as int)] + rest0.map_values(
        |w: String| w@,
    ));
    out
}

/// [`quoted`], computed.
fn quoted_at(s: &Vec<char>, pos: usize) -> (r: Option<(usize, usize, usize)>)
    requires
        pos <= s.len(),
    ensures
        match r {
            Some((a, b, q)) => quoted(s@, pos as int) == Some((a as int, b as int, q as int)) && q <= s.len(),
            None => quoted(s@, pos as int) is None,
        },
{
    if pos < s.len() && s[pos] == '"' {
        let mut e = pos + 1;
        while e < s.len() && s[e] != '"'
            invariant
                pos + 1 <= e <= s.len(),
                quote_end(s@, pos + 1) == quote_end(s@, e as int),
            decreases s.len() - e,
        {
            e = e + 1;
        }
        if pos + 1 < e && e < s.len() {
            Some((pos + 1, e, e + 1))
        } else {
            None
        }
    } else {
        None
    }
}

/// [`spec_notation_syntax`], computed: the positions of the pattern and of the body.
pub(crate) fn notation_syntax_at(s: &Vec<char>, pos: usize) -> (r: Option<(usize, usize, usize, usize, usize)>)
    requires
        pos <= s.len(),
    ensures
        match r {
            Some((q, a, b, c, d)) => spec_notation_syntax(s@, pos as int) == Some((
                q as int,
                s@.subrange(a as int, b as int),
                s@.subrange(c as int, d as int),
            )) && a <= b <= s.len() && c <= d <= s.len() && pos <= q <= s.len(),
            None => spec_notation_syntax(s@, pos as int) is None,
        },
{
    let p1 = match keyword_at(s, pos, "sugar") {
        Some(q) => q,
        None => {
            return None;
        },
    };
    let (a, b, p2) = match quoted_at(s, p1) {
        Some(x) => x,
        None => {
            return None;
        },
    };
    let p3 = match lit_at(s, p2, ":=") {
        Some(q) => q,
        None => {
            return None;
        },
    };
    let p4 = skip_ws_at(s, p3);
    proof {
        lemma_skip_ws_bounds(s@, p3 as int);
    }
    if !(p4 > p3) {
        return None;
    }
    match quoted_at(s, p4) {
        Some((c, d, p5)) => Some((p5, a, b, c, d)),
        None => None,
    }
}

/// The notations after defining one with the given pattern and body.
pub open spec fn with_notation(n: Seq<(Seq<Seq<char>>, Expr)>, pattern: Seq<char>, body: Expr) -> Seq<(Seq<Seq<char>>, Expr)> {
    n.push((words_from(pattern, 0), body))
}

impl LofParser {
    /// Parses a notation definition `sugar "pattern" := "body"` at the start
    /// of `input` and adds the notation after those defined so far. The
    /// pattern's words are its tokens; the body must parse as an expression.
    pub fn parse_notation<'a>(&mut self, input: &'a str) -> (r: Result<(&'a str, Statement), LofError>)
        ensures
            match spec_notation_syntax(input@, 0) {
                Some((q, pattern, body)) => match spec_expression(old(self).notations(), body, 0) {
                    Some((_, e)) => r matches Ok((rest, stm)) && rest@ == input@.subrange(q, input@.len() as int)
                        && stm == Statement::Comment() && final(self).notations() == with_notation(
                        old(self).notations(),
                        pattern,
                        e,
                    ),
                    None => r is Err && final(self).notations() == old(self).notations(),
                },
                None => r is Err && final(self).notations() == old(self).notations(),
            },
            final(self).config == old(self).config,
    {
        let s = str_chars(input);
        match self.notation_at(&s, 0) {
            Some((q, st)) => Ok((input.substring_char(q, s.len()), st)),
            None => Err(LofError::parse_error(input, "Tag")),
        }
    }

    /// A notation definition from `pos` on: defines the notation, gives the
    /// position after the definition.
    pub(crate) fn notation_at(&mut self, s: &Vec<char>, pos: usize) -> (r: Option<(usize, Statement)>)
        requires
            pos <= s.len(),
        ensures
            match spec_notation_syntax(s@, pos as int) {
                Some((q, pattern, body)) => match spec_expression(old(self).notations(), body, 0) {
                    Some((_, e)) => r == Some((q as usize, Statement::Comment())) && final(self).notations()
                        == with_notation(old(self).notations(), pattern, e) && pos <= q <= s.len(),
                    None => r is None && final(self).notations() == old(self).notations(),
                },
                None => r is None && final(self).notations() == old(self).notations(),
            },
            final(self).config == old(self).config,
    {
        let (q, a, b, c, d) = match notation_syntax_at(s, pos) {
            Some(x) => x,
            None => {
                return None;
            },
        };
        let pattern: Vec<char> = {
            let mut v: Vec<char> = Vec::new();
            let mut i = a;
            while i < b
                invariant
                    a <= i <= b <= s.len(),
                    v@ == s@.subrange(a as int, i as int),
                decreases b - i,
            {
                v.push(s[i]);
                assert(v@ =~= s@.subrange(a as int, i + 1));
                i = i + 1;
            }
            v
        };
        let body_chars: Vec<char> = {
            let mut v: Vec<char> = Vec::new();
            let mut i = c;
            while i < d
                invariant
                    c <= i <= d <= s.len(),
                    v@ == s@.subrange(c as int, i as int),
                decreases d - i,
            {
                v.push(s[i]);
                assert(v@ =~= s@.subrange(c as int, i + 1));
                i = i + 1;
            }
            v
        };
        let body = match self.expression_from(&body_chars, 0) {
            Some((_, e)) => e,
            None => {
                return None;
            },
        };
        let tokens = words_at(&pattern, 0);
        let n = self.custom_notations.len();
        let key: i32 = if n < 2147483647 {
            n as i32
        } else {
            2147483647
        };
        let ghost old_n = self.notations();
        self.custom_notations.push((key, Notation { pattern_tokens: tokens, body }));
        assert(self.notations() =~= with_notation(old_n, pattern@, body@));
        Some((q, Statement::Comment()))
    }
}

} // verus!
