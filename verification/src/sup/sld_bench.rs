//! The syntax of Horn-clause problems: terms and atoms are `name` or
//! `name(arg, arg, ...)`, arguments nesting arbitrarily; an assumption is
//! a fact atom or a rule `head :- body1, ..., bodyN`; a goal is a list of
//! atoms to prove together.

use vstd::prelude::*;
use crate::fol::fol::{view_fol_formulas, view_fol_terms, FForm, FTerm, FolFormula, FolTerm, lemma_junction_view};
use crate::fol::fol_utils::make_multiarg_app;
use crate::cic::model::view_strings;
use crate::error::LofError;
use crate::text::{char_is_alphanumeric, char_is_whitespace, is_alphanumeric, is_whitespace, str_eq};

verus! {

//########################### GRAMMAR

/// A character that may stand in a name.
pub open spec fn is_ident_char(c: char) -> bool {
    char_is_alphanumeric(c) || c == '_'
}

/// The first position from `pos` on that holds no whitespace.
pub open spec fn spec_skip_ws(s: Seq<char>, pos: nat) -> nat
    decreases s.len() - pos,
{
    if pos < s.len() && char_is_whitespace(s[pos as int]) {
        spec_skip_ws(s, pos + 1)
    } else {
        pos
    }
}

/// The first position from `pos` on that holds no name character.
pub open spec fn spec_ident_end(s: Seq<char>, pos: nat) -> nat
    decreases s.len() - pos,
{
    if pos < s.len() && is_ident_char(s[pos as int]) {
        spec_ident_end(s, pos + 1)
    } else {
        pos
    }
}

pub proof fn lemma_skip_ws_bounds(s: Seq<char>, pos: nat)
    requires
        pos <= s.len(),
    ensures
        pos <= spec_skip_ws(s, pos) <= s.len(),
    decreases s.len() - pos,
{
    if pos < s.len() && char_is_whitespace(s[pos as int]) {
        lemma_skip_ws_bounds(s, pos + 1);
    }
}

pub proof fn lemma_ident_end_bounds(s: Seq<char>, pos: nat)
    requires
        pos <= s.len(),
    ensures
        pos <= spec_ident_end(s, pos) <= s.len(),
    decreases s.len() - pos,
{
    if pos < s.len() && is_ident_char(s[pos as int]) {
        lemma_ident_end_bounds(s, pos + 1);
    }
}

/// The name after the whitespace at `pos`, and the position after it.
pub open spec fn spec_ident(s: Seq<char>, pos: nat) -> Option<(Seq<char>, nat)> {
    let start = spec_skip_ws(s, pos);
    let end = spec_ident_end(s, start);
    if start < end {
        Some((s.subrange(start as int, end as int), end))
    } else {
        None
    }
}

/// A term at `pos`: `name(args)` is an application, a bare `name` a
/// variable (whether it is a constant is decided by the clausifier); with
/// the position after it.
pub open spec fn spec_parse_term(s: Seq<char>, pos: nat) -> Option<(FTerm, nat)>
    decreases s.len() - pos, 0int,
{
    if pos > s.len() {
        None
    } else {
        match spec_ident(s, pos) {
            None => None,
            Some((name, end)) => {
                let open = spec_skip_ws(s, end);
                if open < s.len() && s[open as int] == '(' {
                    proof {
                        lemma_skip_ws_bounds(s, pos);
                        lemma_ident_end_bounds(s, spec_skip_ws(s, pos));
                        lemma_skip_ws_bounds(s, end);
                    }
                    match spec_parse_args(s, open + 1) {
                        Some((args, after)) => {
                            let close = spec_skip_ws(s, after);
                            if close < s.len() && s[close as int] == ')' {
                                Some((FTerm::App(name, args), close + 1))
                            } else {
                                None
                            }
                        },
                        None => None,
                    }
                } else {
                    Some((FTerm::Var(name), open))
                }
            },
        }
    }
}

/// A comma-separated list of terms at `pos`, and the position after it.
pub open spec fn spec_parse_args(s: Seq<char>, pos: nat) -> Option<(Seq<FTerm>, nat)>
    decreases s.len() - pos, 1int,
{
    match spec_parse_term(s, pos) {
        None => None,
        Some((t, after)) => {
            let sep = spec_skip_ws(s, after);
            if pos < sep < s.len() && s[sep as int] == ',' {
                match spec_parse_args(s, sep + 1) {
                    Some((ts, end)) => Some((seq![t] + ts, end)),
                    None => None,
                }
            } else {
                Some((seq![t], sep))
            }
        },
    }
}

/// An atom at `pos`: `name` or `name(args)`, and the position after it.
pub open spec fn spec_parse_atom(s: Seq<char>, pos: nat) -> Option<(FForm, nat)> {
    match spec_ident(s, pos) {
        None => None,
        Some((name, end)) => {
            let open = spec_skip_ws(s, end);
            if open < s.len() && s[open as int] == '(' {
                match spec_parse_args(s, open + 1) {
                    Some((args, after)) => {
                        let close = spec_skip_ws(s, after);
                        if close < s.len() && s[close as int] == ')' {
                            Some((FForm::Pred(name, args), close + 1))
                        } else {
                            None
                        }
                    },
                    None => None,
                }
            } else {
                Some((FForm::Pred(name, Seq::empty()), open))
            }
        },
    }
}

/// A comma-separated list of atoms at `pos`, and the position after it.
pub open spec fn spec_parse_atoms(s: Seq<char>, pos: nat) -> Option<(Seq<FForm>, nat)>
    decreases s.len() - pos,
{
    match spec_parse_atom(s, pos) {
        None => None,
        Some((a, after)) => {
            let sep = spec_skip_ws(s, after);
            if pos < sep < s.len() && s[sep as int] == ',' {
                match spec_parse_atoms(s, sep + 1) {
                    Some((rest, end)) => Some((seq![a] + rest, end)),
                    None => None,
                }
            } else {
                Some((seq![a], sep))
            }
        },
    }
}

/// Only whitespace is left from `pos` on.
pub open spec fn spec_at_end(s: Seq<char>, pos: nat) -> bool {
    spec_skip_ws(s, pos) == s.len()
}

/// `s` as a single atom.
pub open spec fn spec_parse_fact(s: Seq<char>) -> Option<FForm> {
    match spec_parse_atom(s, 0) {
        Some((a, end)) => if spec_at_end(s, end) {
            Some(a)
        } else {
            None
        },
        None => None,
    }
}

/// `s` as a list of atoms.
pub open spec fn spec_parse_atom_list(s: Seq<char>) -> Option<Seq<FForm>> {
    match spec_parse_atoms(s, 0) {
        Some((atoms, end)) => if spec_at_end(s, end) {
            Some(atoms)
        } else {
            None
        },
        None => None,
    }
}

/// The position of the first `:-` in `s` from `pos` on.
pub open spec fn spec_find_neck(s: Seq<char>, pos: nat) -> Option<nat>
    decreases s.len() - pos,
{
    if pos + 1 >= s.len() {
        None
    } else if s[pos as int] == ':' && s[pos + 1int] == '-' {
        Some(pos)
    } else {
        spec_find_neck(s, pos + 1)
    }
}

/// An assumption: a fact atom, or `head :- body1, ..., bodyN` split on the
/// first `:-`, which means the body implies the head.
pub open spec fn spec_parse_assumption(s: Seq<char>) -> Option<FForm> {
    match spec_find_neck(s, 0) {
        Some(k) => match spec_parse_fact(s.subrange(0, k as int)) {
            Some(head) => match spec_parse_atom_list(s.subrange(k + 2int, s.len() as int)) {
                Some(body) => Some(FForm::Imp(Box::new(FForm::And(body)), Box::new(head))),
                None => None,
            },
            None => None,
        },
        None => spec_parse_fact(s),
    }
}

/// A goal: the conjunction of a list of atoms, or the atom itself when it
/// is alone.
pub open spec fn spec_parse_goal(s: Seq<char>) -> Option<FForm> {
    match spec_parse_atom_list(s) {
        Some(atoms) => if atoms.len() == 1 {
            Some(atoms[0])
        } else {
            Some(FForm::And(atoms))
        },
        None => None,
    }
}

//########################### CURSOR

/// A recursive-descent cursor over the characters of a text.
pub struct CharCursor {
    text: String,
    pos: usize,
}

impl CharCursor {
    /// The characters under the cursor.
    pub closed spec fn chars(&self) -> Seq<char> {
        self.text@
    }

    /// The position of the cursor.
    pub closed spec fn at(&self) -> nat {
        self.pos as nat
    }

    /// The cursor stands within its text.
    pub open spec fn wf(&self) -> bool {
        self.at() <= self.chars().len() <= usize::MAX
    }

    /// A cursor at the start of `s`.
    pub fn new(s: &str) -> (r: Self)
        ensures
            r.chars() == s@,
            r.at() == 0,
            r.wf(),
    {
        let _n = s.unicode_len();
        CharCursor { text: String::from_str(s), pos: 0 }
    }

    /// The character under the cursor, if any.
    pub fn peek(&self) -> (r: Option<char>)
        requires
            self.wf(),
        ensures
            r == (if self.at() < self.chars().len() {
                Some(self.chars()[self.at() as int])
            } else {
                None
            }),
    {
        if self.pos < self.text.as_str().unicode_len() {
            Some(self.text.as_str().get_char(self.pos))
        } else {
            None
        }
    }

    /// Whether `c` is under the cursor.
    fn next_is(&self, c: char) -> (r: bool)
        requires
            self.wf(),
        ensures
            r == (self.at() < self.chars().len() && self.chars()[self.at() as int] == c),
    {
        match self.peek() {
            Some(d) => d == c,
            None => false,
        }
    }

    /// Moves past the character under the cursor; whether it was `c`.
    fn bump_if(&mut self, c: char) -> (r: bool)
        requires
            old(self).wf(),
        ensures
            final(self).wf(),
            final(self).chars() == old(self).chars(),
            r ==> old(self).at() < old(self).chars().len() && old(self).chars()[old(self).at() as int] == c
                && final(self).at() == old(self).at() + 1,
            !r ==> !(old(self).at() < old(self).chars().len() && old(self).chars()[old(self).at() as int] == c),
    {
        match self.bump() {
            Some(d) => d == c,
            None => false,
        }
    }

    /// The character under the cursor, if any, moving past it.
    pub fn bump(&mut self) -> (r: Option<char>)
        requires
            old(self).wf(),
        ensures
            final(self).wf(),
            final(self).chars() == old(self).chars(),
            r == (if old(self).at() < old(self).chars().len() {
                Some(old(self).chars()[old(self).at() as int])
            } else {
                None
            }),
            final(self).at() == (if r is Some {
                old(self).at() + 1
            } else {
                old(self).at()
            }),
    {
        let c = self.peek();
        if c.is_some() {
            self.pos = self.pos + 1;
        }
        c
    }

    /// Moves past the whitespace under the cursor.
    pub fn skip_ws(&mut self)
        requires
            old(self).wf(),
        ensures
            final(self).wf(),
            final(self).chars() == old(self).chars(),
            final(self).at() == spec_skip_ws(old(self).chars(), old(self).at()),
    {
        let n = self.text.as_str().unicode_len();
        proof {
            lemma_skip_ws_bounds(self.chars(), self.at());
        }
        while self.pos < n && is_whitespace(self.text.as_str().get_char(self.pos))
            invariant
                n == self.chars().len(),
                self.chars() == old(self).chars(),
                self.at() <= n,
                spec_skip_ws(self.chars(), self.at()) == spec_skip_ws(old(self).chars(), old(self).at()),
            decreases n - self.pos,
        {
            self.pos = self.pos + 1;
        }
    }

    /// The name after the whitespace under the cursor, moving past it
    /// (see [`spec_ident`]).
    pub fn parse_ident(&mut self) -> (r: Option<String>)
        requires
            old(self).wf(),
        ensures
            final(self).wf(),
            final(self).chars() == old(self).chars(),
            match spec_ident(old(self).chars(), old(self).at()) {
                Some((name, end)) => r matches Some(x) && x@ == name && final(self).at() == end,
                None => r is None,
            },
    {
        self.skip_ws();
        let start = self.pos;
        let n = self.text.as_str().unicode_len();
        proof {
            lemma_ident_end_bounds(self.chars(), self.at());
        }
        while self.pos < n && (is_alphanumeric(self.text.as_str().get_char(self.pos)) || self.text.as_str().get_char(
            self.pos,
        ) == '_')
            invariant
                n == self.chars().len(),
                self.chars() == old(self).chars(),
                start <= self.at() <= n,
                start == spec_skip_ws(old(self).chars(), old(self).at()),
                spec_ident_end(self.chars(), self.at()) == spec_ident_end(self.chars(), start as nat),
            decreases n - self.pos,
        {
            self.pos = self.pos + 1;
        }
        if self.pos == start {
            return None;
        }
        let name = String::from_str(self.text.as_str().substring_char(start, self.pos));
        Some(name)
    }

    /// A term under the cursor, moving past it (see [`spec_parse_term`]).
    pub fn parse_term(&mut self) -> (r: Option<FolTerm>)
        requires
            old(self).wf(),
        ensures
            final(self).wf(),
            final(self).chars() == old(self).chars(),
            match spec_parse_term(old(self).chars(), old(self).at()) {
                Some((t, end)) => r matches Some(x) && x@ == t && final(self).at() == end && end > old(self).at(),
                None => r is None,
            },
        decreases old(self).chars().len() - old(self).at(), 0int,
    {
        let ghost s = self.chars();
        let ghost pos = self.at();
        proof {
            lemma_skip_ws_bounds(s, pos);
            lemma_ident_end_bounds(s, spec_skip_ws(s, pos));
        }
        let name = match self.parse_ident() {
            Some(n) => n,
            None => return None,
        };
        let ghost end = self.at();
        proof {
            lemma_skip_ws_bounds(s, end);
        }
        self.skip_ws();
        if self.next_is('(') {
            self.bump();
            let args = match self.parse_arg_list() {
                Some(a) => a,
                None => return None,
            };
            let ghost after = self.at();
            proof {
                lemma_skip_ws_bounds(s, after);
            }
            self.skip_ws();
            if !self.bump_if(')') {
                return None;
            }
            let sl = args.as_slice();
            let t = make_multiarg_app(name.as_str(), sl);
            proof {
                assert(args@ == sl@);
                assert(spec_ident(s, pos) == Some((name@, end)));
                assert(spec_parse_term(s, pos) == Some((t@, self.at())));
                assert(self.at() > pos);
            }
            Some(t)
        } else {
            let t = FolTerm::Variable(name);
            proof {
                assert(spec_ident(s, pos) == Some((name@, end)));
                assert(spec_parse_term(s, pos) == Some((t@, self.at())));
                assert(self.at() > pos);
            }
            Some(t)
        }
    }

    /// A comma-separated list of terms under the cursor, moving past it
    /// (see [`spec_parse_args`]).
    pub fn parse_arg_list(&mut self) -> (r: Option<Vec<FolTerm>>)
        requires
            old(self).wf(),
        ensures
            final(self).wf(),
            final(self).chars() == old(self).chars(),
            match spec_parse_args(old(self).chars(), old(self).at()) {
                Some((ts, end)) => r matches Some(x) && view_fol_terms(x@) == ts && final(self).at() == end && end > old(self).at(),
                None => r is None,
            },
        decreases old(self).chars().len() - old(self).at(), 1int,
    {
        let ghost s = self.chars();
        let ghost pos = self.at();
        let first = match self.parse_term() {
            Some(t) => t,
            None => return None,
        };
        let ghost after = self.at();
        proof {
            lemma_skip_ws_bounds(s, after);
        }
        self.skip_ws();
        if self.next_is(',') {
            self.bump();
            let rest = match self.parse_arg_list() {
                Some(r) => r,
                None => return None,
            };
            let mut out = vec![first];
            let ghost vf = out@;
            let mut tail = rest;
            let ghost vt = tail@;
            out.append(&mut tail);
            proof {
                assert(out@ == vf + vt);
                assert(view_fol_terms(out@) =~= seq![vf[0]@] + view_fol_terms(vt));
            }
            Some(out)
        } else {
            let out = vec![first];
            proof {
                assert(view_fol_terms(out@) =~= seq![out@[0]@]);
            }
            Some(out)
        }
    }

    /// An atom under the cursor, moving past it (see [`spec_parse_atom`]).
    pub fn parse_atom(&mut self) -> (r: Option<FolFormula>)
        requires
            old(self).wf(),
        ensures
            final(self).wf(),
            final(self).chars() == old(self).chars(),
            match spec_parse_atom(old(self).chars(), old(self).at()) {
                Some((a, end)) => r matches Some(x) && x@ == a && final(self).at() == end && end > old(self).at(),
                None => r is None,
            },
    {
        let ghost s = self.chars();
        let ghost pos = self.at();
        proof {
            lemma_skip_ws_bounds(s, pos);
            lemma_ident_end_bounds(s, spec_skip_ws(s, pos));
        }
        let name = match self.parse_ident() {
            Some(n) => n,
            None => return None,
        };
        let ghost end = self.at();
        proof {
            lemma_skip_ws_bounds(s, end);
        }
        self.skip_ws();
        let args = if self.next_is('(') {
            self.bump();
            let args = match self.parse_arg_list() {
                Some(a) => a,
                None => return None,
            };
            let ghost after = self.at();
            proof {
                lemma_skip_ws_bounds(s, after);
            }
            self.skip_ws();
            if !self.bump_if(')') {
                return None;
            }
            args
        } else {
            let none: Vec<FolTerm> = Vec::new();
            proof {
                assert(view_fol_terms(none@) =~= Seq::<FTerm>::empty());
            }
            none
        };
        Some(FolFormula::Predicate(name, args))
    }

    /// A comma-separated list of atoms under the cursor, moving past it
    /// (see [`spec_parse_atoms`]).
    pub fn parse_atom_list(&mut self) -> (r: Option<Vec<FolFormula>>)
        requires
            old(self).wf(),
        ensures
            final(self).wf(),
            final(self).chars() == old(self).chars(),
            match spec_parse_atoms(old(self).chars(), old(self).at()) {
                Some((atoms, end)) => r matches Some(x) && view_fol_formulas(x@) == atoms && final(self).at() == end && end > old(self).at(),
                None => r is None,
            },
        decreases old(self).chars().len() - old(self).at(),
    {
        let ghost s = self.chars();
        let ghost pos = self.at();
        let first = match self.parse_atom() {
            Some(a) => a,
            None => return None,
        };
        let ghost after = self.at();
        proof {
            lemma_skip_ws_bounds(s, after);
        }
        self.skip_ws();
        if self.next_is(',') {
            self.bump();
            let rest = match self.parse_atom_list() {
                Some(r) => r,
                None => return None,
            };
            let mut out = vec![first];
            let ghost vf = out@;
            let mut tail = rest;
            let ghost vt = tail@;
            out.append(&mut tail);
            proof {
                assert(out@ == vf + vt);
                assert(view_fol_formulas(out@) =~= seq![vf[0]@] + view_fol_formulas(vt));
            }
            Some(out)
        } else {
            let out = vec![first];
            proof {
                assert(view_fol_formulas(out@) =~= seq![out@[0]@]);
            }
            Some(out)
        }
    }

    /// Moves past trailing whitespace; whether the text ends there.
    pub fn expect_end(&mut self) -> (r: bool)
        requires
            old(self).wf(),
        ensures
            final(self).wf(),
            final(self).chars() == old(self).chars(),
            r == spec_at_end(old(self).chars(), old(self).at()),
    {
        self.skip_ws();
        self.peek().is_none()
    }
}

//########################### ASSUMPTIONS AND GOALS

/// The position of the first `:-` in `text`, if any (see [`spec_find_neck`]).
fn find_neck(text: &str) -> (r: Option<usize>)
    ensures
        match spec_find_neck(text@, 0) {
            Some(k) => r == Some(k as usize),
            None => r is None,
        },
{
    let n = text.unicode_len();
    let mut i: usize = 0;
    while i < n
        invariant
            n == text@.len(),
            i <= n,
            spec_find_neck(text@, i as nat) == spec_find_neck(text@, 0),
        decreases n - i,
    {
        if i + 1 < n && text.get_char(i) == ':' && text.get_char(i + 1) == '-' {
            return Some(i);
        }
        i = i + 1;
    }
    None
}

proof fn lemma_find_neck_bounds(s: Seq<char>, pos: nat)
    requires
        spec_find_neck(s, pos) is Some,
    ensures
        pos <= spec_find_neck(s, pos).unwrap(),
        spec_find_neck(s, pos).unwrap() + 1 < s.len(),
    decreases s.len() - pos,
{
    if pos + 1 < s.len() && !(s[pos as int] == ':' && s[pos + 1int] == '-') {
        lemma_find_neck_bounds(s, pos + 1);
    }
}

/// `text` as a single atom (see [`spec_parse_fact`]).
fn parse_fact(text: &str) -> (r: Option<FolFormula>)
    ensures
        match spec_parse_fact(text@) {
            Some(f) => r matches Some(x) && x@ == f,
            None => r is None,
        },
{
    let mut cursor = CharCursor::new(text);
    let atom = cursor.parse_atom();
    match atom {
        Some(a) => if cursor.expect_end() {
            Some(a)
        } else {
            None
        },
        None => None,
    }
}

/// `text` as a list of atoms (see [`spec_parse_atom_list`]).
fn parse_atom_list(text: &str) -> (r: Option<Vec<FolFormula>>)
    ensures
        match spec_parse_atom_list(text@) {
            Some(fs) => r matches Some(x) && view_fol_formulas(x@) == fs,
            None => r is None,
        },
{
    let mut cursor = CharCursor::new(text);
    let atoms = cursor.parse_atom_list();
    match atoms {
        Some(a) => if cursor.expect_end() {
            Some(a)
        } else {
            None
        },
        None => None,
    }
}

/// An assumption, or `None` when `text` is none (see
/// [`spec_parse_assumption`]).
fn parse_assumption_text(text: &str) -> (r: Option<FolFormula>)
    ensures
        match spec_parse_assumption(text@) {
            Some(f) => r matches Some(x) && x@ == f,
            None => r is None,
        },
{
    match find_neck(text) {
        Some(k) => {
            let n = text.unicode_len();
            proof {
                lemma_find_neck_bounds(text@, 0);
            }
            let head = parse_fact(text.substring_char(0, k));
            match head {
                Some(h) => {
                    let body = parse_atom_list(text.substring_char(k + 2, n));
                    match body {
                        Some(b) => {
                            proof {
                                lemma_junction_view(b);
                            }
                            Some(FolFormula::Arrow(Box::new(FolFormula::Conjunction(b)), Box::new(h)))
                        },
                        None => None,
                    }
                },
                None => None,
            }
        },
        None => parse_fact(text),
    }
}

/// Parses an assumption: a fact atom, or `head :- body1, ..., bodyN` split
/// on the first `:-` (see [`spec_parse_assumption`]).
pub fn parse_assumption(text: &str) -> (r: FolFormula)
    requires
        spec_parse_assumption(text@) is Some,
    ensures
        r@ == spec_parse_assumption(text@).unwrap(),
{
    match parse_assumption_text(text) {
        Some(f) => f,
        None => {
            proof {
                assert(false);
            }
            FolFormula::Conjunction(Vec::new())
        },
    }
}

/// The assumption written in `text`, or `None` when `text` is no
/// assumption.
pub fn try_parse_assumption(text: &str) -> (r: Option<FolFormula>)
    ensures
        match spec_parse_assumption(text@) {
            Some(f) => r matches Some(x) && x@ == f,
            None => r is None,
        },
{
    if parse_assumption_text(text).is_some() {
        Some(parse_assumption(text))
    } else {
        None
    }
}

/// A goal, or `None` when `text` is none (see [`spec_parse_goal`]).
fn parse_goal_text(text: &str) -> (r: Option<FolFormula>)
    ensures
        match spec_parse_goal(text@) {
            Some(f) => r matches Some(x) && x@ == f,
            None => r is None,
        },
{
    match parse_atom_list(text) {
        Some(mut atoms) => {
            if atoms.len() == 1 {
                let ghost before = atoms@;
                let a = atoms.pop();
                match a {
                    Some(f) => {
                        proof {
                            assert(f == before[0]);
                            assert(view_fol_formulas(before)[0] == f@);
                        }
                        Some(f)
                    },
                    None => None,
                }
            } else {
                proof {
                    lemma_junction_view(atoms);
                }
                Some(FolFormula::Conjunction(atoms))
            }
        },
        None => None,
    }
}

/// Parses a goal: a comma-separated list of subgoals to prove together,
/// their conjunction (see [`spec_parse_goal`]).
pub fn parse_goal(text: &str) -> (r: FolFormula)
    requires
        spec_parse_goal(text@) is Some,
    ensures
        r@ == spec_parse_goal(text@).unwrap(),
{
    match parse_goal_text(text) {
        Some(f) => f,
        None => {
            proof {
                assert(false);
            }
            FolFormula::Conjunction(Vec::new())
        },
    }
}

/// The goal written in `text`, or `None` when `text` is no goal.
pub fn try_parse_goal(text: &str) -> (r: Option<FolFormula>)
    ensures
        match spec_parse_goal(text@) {
            Some(f) => r matches Some(x) && x@ == f,
            None => r is None,
        },
{
    if parse_goal_text(text).is_some() {
        Some(parse_goal(text))
    } else {
        None
    }
}

/// Reads the value of an `expect:` directive: `proved` or `failed`.
pub fn parse_expect(value: &str) -> (r: bool)
    requires
        value@ == "proved"@ || value@ == "failed"@,
    ensures
        r == (value@ == "proved"@),
{
    str_eq(value, "proved")
}

//########################### PROBLEM FILES

/// The first position from `pos` on that holds `c`, or the length of `s`.
pub open spec fn spec_find_char(s: Seq<char>, pos: nat, c: char) -> nat
    decreases s.len() - pos,
{
    if pos >= s.len() {
        s.len()
    } else if s[pos as int] == c {
        pos
    } else {
        spec_find_char(s, pos + 1, c)
    }
}

pub proof fn lemma_find_char_bounds(s: Seq<char>, pos: nat, c: char)
    requires
        pos <= s.len(),
    ensures
        pos <= spec_find_char(s, pos, c) <= s.len(),
    decreases s.len() - pos,
{
    if pos < s.len() && s[pos as int] != c {
        lemma_find_char_bounds(s, pos + 1, c);
    }
}

/// The lines of `s` from `pos` on: the text between line feeds, the last
/// line feed being optional.
pub open spec fn spec_lines(s: Seq<char>, pos: nat) -> Seq<Seq<char>>
    decreases s.len() - pos,
{
    if pos >= s.len() {
        Seq::empty()
    } else {
        let end = spec_find_char(s, pos, '\n');
        proof {
            lemma_find_char_bounds(s, pos, '\n');
        }
        if end >= s.len() {
            seq![s.subrange(pos as int, end as int)]
        } else {
            seq![s.subrange(pos as int, end as int)] + spec_lines(s, end + 1)
        }
    }
}

/// The last position at most `end` after which only whitespace is left
/// before `end`.
pub open spec fn spec_rtrim(s: Seq<char>, end: nat) -> nat
    decreases end,
{
    if 0 < end <= s.len() && char_is_whitespace(s[end - 1]) {
        spec_rtrim(s, (end - 1) as nat)
    } else {
        end
    }
}

/// `s` without its leading and trailing whitespace.
pub open spec fn spec_trim(s: Seq<char>) -> Seq<char> {
    let start = spec_skip_ws(s, 0);
    let end = spec_rtrim(s, s.len());
    if start < end {
        s.subrange(start as int, end as int)
    } else {
        Seq::empty()
    }
}

/// The first position from `pos` on that holds whitespace, or the length.
pub open spec fn spec_token_end(s: Seq<char>, pos: nat) -> nat
    decreases s.len() - pos,
{
    if pos < s.len() && !char_is_whitespace(s[pos as int]) {
        spec_token_end(s, pos + 1)
    } else {
        pos
    }
}

pub proof fn lemma_token_end_bounds(s: Seq<char>, pos: nat)
    requires
        pos <= s.len(),
    ensures
        pos <= spec_token_end(s, pos) <= s.len(),
    decreases s.len() - pos,
{
    if pos < s.len() && !char_is_whitespace(s[pos as int]) {
        lemma_token_end_bounds(s, pos + 1);
    }
}

/// The whitespace-separated words of `s` from `pos` on.
pub open spec fn spec_words(s: Seq<char>, pos: nat) -> Seq<Seq<char>>
    decreases s.len() - pos,
{
    let start = spec_skip_ws(s, pos);
    if pos > s.len() || start >= s.len() {
        Seq::empty()
    } else {
        let end = spec_token_end(s, start);
        proof {
            lemma_skip_ws_bounds(s, pos);
            lemma_token_end_bounds(s, start);
        }
        if end > pos {
            seq![s.subrange(start as int, end as int)] + spec_words(s, end)
        } else {
            Seq::empty()
        }
    }
}

/// `names` added in turn to the set `set`, kept in order of first addition.
pub open spec fn spec_add_names(set: Seq<Seq<char>>, names: Seq<Seq<char>>) -> Seq<Seq<char>>
    decreases names.len(),
{
    if names.len() == 0 {
        set
    } else {
        let before = spec_add_names(set, names.drop_last());
        if before.contains(names.last()) {
            before
        } else {
            before.push(names.last())
        }
    }
}

/// Model of a benchmark problem.
pub struct ProblemModel {
    pub name: Seq<char>,
    pub constants: Seq<Seq<char>>,
    pub assumptions: Seq<FForm>,
    pub goals: Seq<FForm>,
    pub expect_proved: bool,
}

/// The problems done so far, with the one being read added if any.
pub open spec fn spec_flush(done: Seq<ProblemModel>, current: Option<ProblemModel>) -> Seq<ProblemModel> {
    match current {
        Some(p) => done.push(p),
        None => done,
    }
}

/// Reading the line `raw` of a problem file, with the problems `done` and
/// the one `current` being read: blank and `#` lines are skipped, `---`
/// ends a problem, and `key: value` lines give a new problem's `name`, and
/// the current problem's `const` names, `assume` and `goal` formulas and
/// `expect`ed outcome; `None` for any other line.
pub open spec fn spec_problem_step(done: Seq<ProblemModel>, current: Option<ProblemModel>, raw: Seq<char>) -> Option<
    (Seq<ProblemModel>, Option<ProblemModel>),
> {
    let line = spec_trim(raw);
    if line.len() == 0 || line[0] == '#' {
        Some((done, current))
    } else if line == "---"@ {
        Some((spec_flush(done, current), None))
    } else {
        let k = spec_find_char(line, 0, ':');
        if k >= line.len() {
            None
        } else {
            let key = spec_trim(line.subrange(0, k as int));
            let value = spec_trim(line.subrange(k + 1int, line.len() as int));
            if key == "name"@ {
                Some(
                    (
                        spec_flush(done, current),
                        Some(
                            ProblemModel {
                                name: value,
                                constants: Seq::empty(),
                                assumptions: Seq::empty(),
                                goals: Seq::empty(),
                                expect_proved: true,
                            },
                        ),
                    ),
                )
            } else if key == "const"@ {
                match current {
                    Some(p) => Some(
                        (
                            done,
                            Some(
                                ProblemModel {
                                    name: p.name,
                                    constants: spec_add_names(p.constants, spec_words(value, 0)),
                                    assumptions: p.assumptions,
                                    goals: p.goals,
                                    expect_proved: p.expect_proved,
                                },
                            ),
                        ),
                    ),
                    None => None,
                }
            } else if key == "assume"@ {
                match current {
                    Some(p) => match spec_parse_assumption(value) {
                        Some(f) => Some(
                            (
                                done,
                                Some(
                                    ProblemModel {
                                        name: p.name,
                                        constants: p.constants,
                                        assumptions: p.assumptions.push(f),
                                        goals: p.goals,
                                        expect_proved: p.expect_proved,
                                    },
                                ),
                            ),
                        ),
                        None => None,
                    },
                    None => None,
                }
            } else if key == "goal"@ {
                match current {
                    Some(p) => match spec_parse_goal(value) {
                        Some(f) => Some(
                            (
                                done,
                                Some(
                                    ProblemModel {
                                        name: p.name,
                                        constants: p.constants,
                                        assumptions: p.assumptions,
                                        goals: p.goals.push(f),
                                        expect_proved: p.expect_proved,
                                    },
                                ),
                            ),
                        ),
                        None => None,
                    },
                    None => None,
                }
            } else if key == "expect"@ {
                match current {
                    Some(p) => if value == "proved"@ || value == "failed"@ {
                        Some(
                            (
                                done,
                                Some(
                                    ProblemModel {
                                        name: p.name,
                                        constants: p.constants,
                                        assumptions: p.assumptions,
                                        goals: p.goals,
                                        expect_proved: value == "proved"@,
                                    },
                                ),
                            ),
                        )
                    } else {
                        None
                    },
                    None => None,
                }
            } else {
                None
            }
        }
    }
}

/// Reading `lines` in turn from the start.
pub open spec fn spec_problem_lines(lines: Seq<Seq<char>>) -> Option<(Seq<ProblemModel>, Option<ProblemModel>)>
    decreases lines.len(),
{
    if lines.len() == 0 {
        Some((Seq::empty(), None))
    } else {
        match spec_problem_lines(lines.drop_last()) {
            Some((done, current)) => spec_problem_step(done, current, lines.last()),
            None => None,
        }
    }
}

/// The problems of a problem file, or `None` when a line is malformed.
pub open spec fn spec_parse_problems(content: Seq<char>) -> Option<Seq<ProblemModel>> {
    match spec_problem_lines(spec_lines(content, 0)) {
        Some((done, current)) => Some(spec_flush(done, current)),
        None => None,
    }
}

/// A benchmark problem: Horn assumptions, goals to prove from them, the
/// names that stand for constants, and whether the goals are expected to
/// follow from the assumptions.
#[derive(Debug, PartialEq)]
pub struct Problem {
    pub name: String,
    pub constants: Vec<String>,
    pub assumptions: Vec<FolFormula>,
    pub goals: Vec<FolFormula>,
    pub expect_proved: bool,
}

impl View for Problem {
    type V = ProblemModel;

    open spec fn view(&self) -> ProblemModel {
        ProblemModel {
            name: self.name@,
            constants: view_strings(self.constants@),
            assumptions: view_fol_formulas(self.assumptions@),
            goals: view_fol_formulas(self.goals@),
            expect_proved: self.expect_proved,
        }
    }
}

/// The model of a list of problems.
pub open spec fn view_problems(ps: Seq<Problem>) -> Seq<ProblemModel> {
    Seq::new(ps.len(), |i: int| ps[i]@)
}

/// The model of an optional problem.
pub open spec fn view_opt_problem(p: Option<Problem>) -> Option<ProblemModel> {
    match p {
        Some(q) => Some(q@),
        None => None,
    }
}

/// `s` without its leading and trailing whitespace (see [`spec_trim`]).
fn trim<'a>(s: &'a str) -> (r: &'a str)
    ensures
        r@ == spec_trim(s@),
{
    let n = s.unicode_len();
    let mut a: usize = 0;
    while a < n && is_whitespace(s.get_char(a))
        invariant
            a <= n,
            n == s@.len(),
            spec_skip_ws(s@, a as nat) == spec_skip_ws(s@, 0),
        decreases n - a,
    {
        a = a + 1;
    }
    let mut b: usize = n;
    while b > 0 && is_whitespace(s.get_char(b - 1))
        invariant
            b <= n,
            n == s@.len(),
            spec_rtrim(s@, b as nat) == spec_rtrim(s@, n as nat),
        decreases b,
    {
        b = b - 1;
    }
    if a < b {
        s.substring_char(a, b)
    } else {
        proof {
            reveal_strlit("");
        }
        ""
    }
}

/// The first position from `from` on that holds `c` in `s`, or its length.
fn find_char(s: &str, from: usize, c: char) -> (r: usize)
    requires
        from <= s@.len(),
    ensures
        r == spec_find_char(s@, from as nat, c),
{
    let n = s.unicode_len();
    let mut i: usize = from;
    while i < n && s.get_char(i) != c
        invariant
            from <= i <= n,
            n == s@.len(),
            spec_find_char(s@, i as nat, c) == spec_find_char(s@, from as nat, c),
        decreases n - i,
    {
        i = i + 1;
    }
    i
}

/// The whitespace-separated words of `s` (see [`spec_words`]).
fn words(s: &str) -> (r: Vec<String>)
    ensures
        view_strings(r@) == spec_words(s@, 0),
{
    let n = s.unicode_len();
    let mut out: Vec<String> = Vec::new();
    let mut pos: usize = 0;
    assert(view_strings(out@) + spec_words(s@, 0) =~= spec_words(s@, 0));
    while pos < n
        invariant
            pos <= n,
            n == s@.len(),
            view_strings(out@) + spec_words(s@, pos as nat) == spec_words(s@, 0),
        decreases n - pos,
    {
        let mut a: usize = pos;
        while a < n && is_whitespace(s.get_char(a))
            invariant
                pos <= a <= n,
                n == s@.len(),
                spec_skip_ws(s@, a as nat) == spec_skip_ws(s@, pos as nat),
            decreases n - a,
        {
            a = a + 1;
        }
        if a >= n {
            proof {
                assert(spec_words(s@, pos as nat) =~= Seq::<Seq<char>>::empty());
                assert(spec_words(s@, n as nat) =~= Seq::<Seq<char>>::empty());
                assert(view_strings(out@) + spec_words(s@, n as nat) =~= view_strings(out@));
                assert(view_strings(out@) + spec_words(s@, pos as nat) =~= view_strings(out@));
            }
            pos = n;
        } else {
            let mut e: usize = a;
            while e < n && !is_whitespace(s.get_char(e))
                invariant
                    a <= e <= n,
                    n == s@.len(),
                    spec_token_end(s@, e as nat) == spec_token_end(s@, a as nat),
                decreases n - e,
            {
                e = e + 1;
            }
            let word = String::from_str(s.substring_char(a, e));
            let ghost before = view_strings(out@);
            out.push(word);
            proof {
                assert(spec_token_end(s@, a as nat) == e);
                assert(e > a);
                assert(spec_words(s@, pos as nat) == seq![s@.subrange(a as int, e as int)] + spec_words(s@, e as nat));
                assert(view_strings(out@) =~= before.push(s@.subrange(a as int, e as int)));
                assert(view_strings(out@) + spec_words(s@, e as nat) =~= before + spec_words(s@, pos as nat));
            }
            pos = e;
        }
    }
    proof {
        assert(spec_words(s@, pos as nat) =~= Seq::<Seq<char>>::empty());
        assert(view_strings(out@) + spec_words(s@, pos as nat) =~= view_strings(out@));
    }
    out
}

/// Adds each of `names` to the set `set` (see [`spec_add_names`]).
fn add_names(set: &mut Vec<String>, names: &Vec<String>)
    ensures
        view_strings(final(set)@) == spec_add_names(view_strings(old(set)@), view_strings(names@)),
{
    let ghost start = view_strings(set@);
    let ghost vn = view_strings(names@);
    let mut i: usize = 0;
    assert(vn.subrange(0, 0) =~= Seq::<Seq<char>>::empty());
    while i < names.len()
        invariant
            i <= names@.len(),
            vn == view_strings(names@),
            start == view_strings(old(set)@),
            view_strings(set@) == spec_add_names(start, vn.subrange(0, i as int)),
        decreases names@.len() - i,
    {
        let ghost pre = vn.subrange(0, i + 1);
        proof {
            assert(pre.drop_last() =~= vn.subrange(0, i as int));
            assert(pre.last() == names@[i as int]@);
        }
        if !crate::fol::fol_utils::contains_name(set, names[i].as_str()) {
            let ghost before = view_strings(set@);
            set.push(names[i].clone());
            proof {
                assert(view_strings(set@) =~= before.push(names@[i as int]@));
            }
        }
        i = i + 1;
    }
    proof {
        assert(vn.subrange(0, names@.len() as int) =~= vn);
    }
}

/// The problems done so far, with `current` added if any (see
/// [`spec_flush`]).
fn flush(done: Vec<Problem>, current: Option<Problem>) -> (r: Vec<Problem>)
    ensures
        view_problems(r@) == spec_flush(view_problems(done@), view_opt_problem(current)),
{
    let mut out = done;
    match current {
        Some(p) => {
            let ghost before = view_problems(out@);
            let ghost vp = p@;
            out.push(p);
            proof {
                assert(view_problems(out@) =~= before.push(vp));
            }
        },
        None => {},
    }
    out
}

/// Reads the line `raw` of a problem file (see [`spec_problem_step`]).
fn problem_step(done: Vec<Problem>, current: Option<Problem>, raw: &str) -> (r: Option<(Vec<Problem>, Option<Problem>)>)
    ensures
        match spec_problem_step(view_problems(done@), view_opt_problem(current), raw@) {
            Some((d, c)) => r matches Some((x, y)) && view_problems(x@) == d && view_opt_problem(y) == c,
            None => r is None,
        },
{
    proof {
        reveal_strlit("---");
        reveal_strlit("name");
        reveal_strlit("const");
        reveal_strlit("assume");
        reveal_strlit("goal");
        reveal_strlit("expect");
        reveal_strlit("proved");
        reveal_strlit("failed");
    }
    let line = trim(raw);
    let n = line.unicode_len();
    if n == 0 || line.get_char(0) == '#' {
        return Some((done, current));
    }
    if str_eq(line, "---") {
        return Some((flush(done, current), None));
    }
    let k = find_char(line, 0, ':');
    if k >= n {
        return None;
    }
    let key = trim(line.substring_char(0, k));
    let value = trim(line.substring_char(k + 1, n));
    if str_eq(key, "name") {
        let problem = Problem {
            name: String::from_str(value),
            constants: Vec::new(),
            assumptions: Vec::new(),
            goals: Vec::new(),
            expect_proved: true,
        };
        proof {
            assert(view_strings(problem.constants@) =~= Seq::<Seq<char>>::empty());
            assert(view_fol_formulas(problem.assumptions@) =~= Seq::<FForm>::empty());
            assert(view_fol_formulas(problem.goals@) =~= Seq::<FForm>::empty());
        }
        return Some((flush(done, current), Some(problem)));
    }
    if str_eq(key, "const") {
        return match current {
            Some(mut p) => {
                let names = words(value);
                add_names(&mut p.constants, &names);
                Some((done, Some(p)))
            },
            None => None,
        };
    }
    if str_eq(key, "assume") {
        return match current {
            Some(mut p) => match try_parse_assumption(value) {
                Some(f) => {
                    let ghost before = view_fol_formulas(p.assumptions@);
                    let ghost vf = f@;
                    p.assumptions.push(f);
                    proof {
                        assert(view_fol_formulas(p.assumptions@) =~= before.push(vf));
                    }
                    Some((done, Some(p)))
                },
                None => None,
            },
            None => None,
        };
    }
    if str_eq(key, "goal") {
        return match current {
            Some(mut p) => match try_parse_goal(value) {
                Some(f) => {
                    let ghost before = view_fol_formulas(p.goals@);
                    let ghost vf = f@;
                    p.goals.push(f);
                    proof {
                        assert(view_fol_formulas(p.goals@) =~= before.push(vf));
                    }
                    Some((done, Some(p)))
                },
                None => None,
            },
            None => None,
        };
    }
    if str_eq(key, "expect") {
        return match current {
            Some(mut p) => {
                if str_eq(value, "proved") || str_eq(value, "failed") {
                    p.expect_proved = parse_expect(value);
                    Some((done, Some(p)))
                } else {
                    None
                }
            },
            None => None,
        };
    }
    None
}

/// The problems of a problem file, or `None` when a line is malformed
/// (see [`spec_parse_problems`]).
fn parse_problems_text(content: &str) -> (r: Option<Vec<Problem>>)
    ensures
        match spec_parse_problems(content@) {
            Some(ps) => r matches Some(v) && view_problems(v@) == ps,
            None => r is None,
        },
{
    let n = content.unicode_len();
    let mut done: Vec<Problem> = Vec::new();
    let mut current: Option<Problem> = None;
    let mut pos: usize = 0;
    let ghost mut read: Seq<Seq<char>> = Seq::empty();
    proof {
        assert(view_problems(done@) =~= Seq::<ProblemModel>::empty());
        assert(read + spec_lines(content@, 0) =~= spec_lines(content@, 0));
    }
    while pos < n
        invariant
            pos <= n,
            n == content@.len(),
            read + spec_lines(content@, pos as nat) == spec_lines(content@, 0),
            spec_problem_lines(read) == Some((view_problems(done@), view_opt_problem(current))),
        decreases n - pos,
    {
        let end = find_char(content, pos, '\n');
        proof {
            lemma_find_char_bounds(content@, pos as nat, '\n');
        }
        let line = content.substring_char(pos, end);
        let ghost next = read.push(line@);
        proof {
            if end >= n {
                assert(spec_lines(content@, pos as nat) == seq![line@]);
                assert(spec_lines(content@, n as nat) =~= Seq::<Seq<char>>::empty());
                assert(next + spec_lines(content@, n as nat) =~= read + spec_lines(content@, pos as nat));
            } else {
                assert(spec_lines(content@, pos as nat) == seq![line@] + spec_lines(content@, (end + 1) as nat));
                assert(next + spec_lines(content@, (end + 1) as nat) =~= read + spec_lines(content@, pos as nat));
            }
            assert(next.drop_last() =~= read);
        }
        match problem_step(done, current, line) {
            Some((d, c)) => {
                done = d;
                current = c;
            },
            None => {
                proof {
                    let rest = if end >= n { spec_lines(content@, n as nat) } else { spec_lines(content@, (end + 1) as nat) };
                    assert(spec_lines(content@, 0) == next + rest);
                    assert(spec_lines(content@, 0).subrange(0, next.len() as int) =~= next);
                    assert(next.drop_last() =~= read);
                    assert(next.last() == line@);
                    assert(spec_problem_lines(next) is None);
                    lemma_problem_lines_failed(spec_lines(content@, 0), next.len());
                }
                return None;
            },
        }
        proof {
            read = next;
        }
        pos = if end >= n { n } else { end + 1 };
    }
    proof {
        assert(spec_lines(content@, pos as nat) =~= Seq::<Seq<char>>::empty());
        assert(read =~= spec_lines(content@, 0));
    }
    Some(flush(done, current))
}

proof fn lemma_problem_lines_failed(lines: Seq<Seq<char>>, k: nat)
    requires
        k <= lines.len(),
        spec_problem_lines(lines.subrange(0, k as int)) is None,
    ensures
        spec_problem_lines(lines) is None,
    decreases lines.len() - k,
{
    if k == lines.len() {
        assert(lines.subrange(0, k as int) =~= lines);
    } else {
        let init = lines.drop_last();
        assert(init.subrange(0, k as int) =~= lines.subrange(0, k as int));
        lemma_problem_lines_failed(init, k);
    }
}

/// Parses a problem file: blocks of `name:`, `const:`, `assume:`, `goal:`
/// and `expect:` lines, blocks ending at the next `name:` or at a `---`
/// line, `#` lines being comments (see [`spec_parse_problems`]).
pub fn parse_problems(content: &str) -> (r: Vec<Problem>)
    requires
        spec_parse_problems(content@) is Some,
    ensures
        view_problems(r@) == spec_parse_problems(content@).unwrap(),
{
    match parse_problems_text(content) {
        Some(ps) => ps,
        None => {
            proof {
                assert(false);
            }
            Vec::new()
        },
    }
}

/// The problems of a problem file, or `None` when a line is malformed.
pub fn try_parse_problems(content: &str) -> (r: Option<Vec<Problem>>)
    ensures
        match spec_parse_problems(content@) {
            Some(ps) => r matches Some(v) && view_problems(v@) == ps,
            None => r is None,
        },
{
    if parse_problems_text(content).is_some() {
        Some(parse_problems(content))
    } else {
        None
    }
}

//########################### COMPARING THE PIPELINES

/// How a run of a prover on a problem ended.
#[derive(Debug, Clone, Copy, PartialEq, Eq, Structural)]
pub enum Outcome {
    Proved,
    Failed,
    TimedOut,
}

impl Outcome {
    /// The word the report prints for this outcome.
    pub fn label(self) -> (r: &'static str)
        ensures
            r@ == match self {
                Outcome::Proved => "proved"@,
                Outcome::Failed => "failed"@,
                Outcome::TimedOut => "timeout"@,
            },
    {
        match self {
            Outcome::Proved => "proved",
            Outcome::Failed => "failed",
            Outcome::TimedOut => "timeout",
        }
    }

    /// The outcome is the expected answer: a proof when one is expected, a
    /// failure when none is; a timeout never is.
    pub fn matches_expectation(self, expect_proved: bool) -> (r: bool)
        ensures
            r == match self {
                Outcome::Proved => expect_proved,
                Outcome::Failed => !expect_proved,
                Outcome::TimedOut => false,
            },
    {
        match self {
            Outcome::Proved => expect_proved,
            Outcome::Failed => !expect_proved,
            Outcome::TimedOut => false,
        }
    }
}

/// The outcome of a run that finished: a proof when it succeeded.
pub fn outcome_of<T>(result: &Result<T, LofError>) -> (r: Outcome)
    ensures
        r == if result is Ok {
            Outcome::Proved
        } else {
            Outcome::Failed
        },
{
    match result {
        Ok(_) => Outcome::Proved,
        Err(_) => Outcome::Failed,
    }
}

/// Whether a run that took `elapsed` (in any unit) with `outcome` beats
/// the best run so far, if any: a finished run beats a timed out one, a
/// timed out one never does, and between finished runs the faster wins.
pub fn improves_on(best: Option<(u128, Outcome)>, elapsed: u128, outcome: Outcome) -> (r: bool)
    ensures
        r == match best {
            None => true,
            Some((best_elapsed, best_outcome)) => {
                if best_outcome == Outcome::TimedOut {
                    outcome != Outcome::TimedOut
                } else {
                    outcome != Outcome::TimedOut && elapsed < best_elapsed
                }
            },
        },
{
    match best {
        None => true,
        Some((best_elapsed, best_outcome)) => {
            let best_timed_out = best_outcome == Outcome::TimedOut;
            let timed_out = outcome == Outcome::TimedOut;
            if best_timed_out && !timed_out {
                true
            } else if !best_timed_out && timed_out {
                false
            } else if best_timed_out && timed_out {
                false
            } else {
                elapsed < best_elapsed
            }
        },
    }
}

} // verus!
