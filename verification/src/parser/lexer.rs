use vstd::prelude::*;
use vstd::string::*;

verus! {

/// The characters that separate tokens: space, tab, line feed and carriage return.
pub open spec fn is_space(c: char) -> bool {
    c == ' ' || c == '\t' || c == '\n' || c == '\r'
}

/// The first position at or after `pos` that holds no space character.
pub open spec fn skip_spaces(s: Seq<char>, pos: int) -> int
    decreases s.len() - pos,
{
    if 0 <= pos < s.len() && is_space(s[pos]) {
        skip_spaces(s, pos + 1)
    } else {
        pos
    }
}

/// The first position at or after `pos` that starts neither a space nor a
/// `#` comment (a comment runs up to the end of its line).
pub open spec fn skip_ws(s: Seq<char>, pos: int) -> int
    decreases s.len() - pos, 0int,
{
    if 0 <= pos < s.len() && is_space(s[pos]) {
        skip_ws(s, pos + 1)
    } else if 0 <= pos < s.len() && s[pos] == '#' {
        skip_comment(s, pos + 1)
    } else {
        pos
    }
}

/// Inside a comment: skips to the end of the line, then on with [`skip_ws`].
pub open spec fn skip_comment(s: Seq<char>, pos: int) -> int
    decreases s.len() - pos, 1int,
{
    if 0 <= pos < s.len() && s[pos] != '\n' {
        skip_comment(s, pos + 1)
    } else {
        skip_ws(s, pos)
    }
}

/// `t` stands in `s` at `pos`.
pub open spec fn has_tag(s: Seq<char>, pos: int, t: Seq<char>) -> bool {
    0 <= pos && pos + t.len() <= s.len() && s.subrange(pos, pos + t.len()) == t
}

/// Optional blanks, then `t`: the position after `t`.
pub open spec fn lit(s: Seq<char>, pos: int, t: Seq<char>) -> Option<int> {
    let p = skip_ws(s, pos);
    if has_tag(s, p, t) {
        Some(p + t.len())
    } else {
        None
    }
}

/// Optional blanks, then the character `c`: the position after it.
pub open spec fn litc(s: Seq<char>, pos: int, c: char) -> Option<int> {
    let p = skip_ws(s, pos);
    if 0 <= p < s.len() && s[p] == c {
        Some(p + 1)
    } else {
        None
    }
}

/// At least one blank, then `t`: the position after `t`.
pub open spec fn ws1_lit(s: Seq<char>, pos: int, t: Seq<char>) -> Option<int> {
    let p = skip_ws(s, pos);
    if p > pos && has_tag(s, p, t) {
        Some(p + t.len())
    } else {
        None
    }
}

/// The keyword `t` followed by at least one blank: the position after the blanks.
pub open spec fn keyword(s: Seq<char>, pos: int, t: Seq<char>) -> Option<int> {
    match lit(s, pos, t) {
        Some(q) => if skip_ws(s, q) > q {
            Some(skip_ws(s, q))
        } else {
            None
        },
        None => None,
    }
}

/// A character that may start an identifier.
pub open spec fn is_ident_start(c: char) -> bool {
    ('a' <= c && c <= 'z') || ('A' <= c && c <= 'Z') || c == '_'
}

/// A character that may continue an identifier.
pub open spec fn is_ident_char(c: char) -> bool {
    is_ident_start(c) || ('0' <= c && c <= '9')
}

/// The end of the run of identifier characters that starts at `pos`.
pub open spec fn ident_end(s: Seq<char>, pos: int) -> int
    decreases s.len() - pos,
{
    if 0 <= pos < s.len() && is_ident_char(s[pos]) {
        ident_end(s, pos + 1)
    } else {
        pos
    }
}

/// The words that the language keeps for itself.
pub open spec fn is_reserved(w: Seq<char>) -> bool {
    ||| w == "let"@
    ||| w == "match"@
    ||| w == "with"@
    ||| w == "fun"@
    ||| w == "rec"@
    ||| w == "global"@
    ||| w == "axiom"@
    ||| w == "theorem"@
    ||| w == "lemma"@
    ||| w == "proposition"@
    ||| w == "inductive"@
    ||| w == "import"@
    ||| w == "sugar"@
    ||| w == "auto"@
    ||| w == "solve"@
    ||| w == "hclause"@
    ||| w == "equivalence"@
    ||| w == "transport"@
    ||| w == "from"@
    ||| w == "using"@
    ||| w == "begin"@
    ||| w == "qed"@
    ||| w == "intro"@
    ||| w == "exact"@
    ||| w == "apply"@
    ||| w == "induction"@
}

/// Optional blanks, then an identifier that is no reserved word: the
/// position after it, and the identifier.
pub open spec fn spec_identifier(s: Seq<char>, pos: int) -> Option<(int, Seq<char>)> {
    let p = skip_ws(s, pos);
    if 0 <= p < s.len() && is_ident_start(s[p]) {
        let e = ident_end(s, p);
        if is_reserved(s.subrange(p, e)) {
            None
        } else {
            Some((e, s.subrange(p, e)))
        }
    } else {
        None
    }
}

pub proof fn lemma_skip_spaces_bounds(s: Seq<char>, pos: int)
    requires
        0 <= pos <= s.len(),
    ensures
        pos <= skip_spaces(s, pos) <= s.len(),
    decreases s.len() - pos,
{
    if pos < s.len() && is_space(s[pos]) {
        lemma_skip_spaces_bounds(s, pos + 1);
    }
}

pub proof fn lemma_skip_ws_bounds(s: Seq<char>, pos: int)
    requires
        0 <= pos <= s.len(),
    ensures
        pos <= skip_ws(s, pos) <= s.len(),
        pos <= skip_comment(s, pos) <= s.len(),
    decreases s.len() - pos,
{
    if pos < s.len() {
        lemma_skip_ws_bounds(s, pos + 1);
    }
}

/// std's `String::push`: `c` is appended at the end of `s`.
#[verifier::external_body]
fn push_char(s: &mut String, c: char)
    ensures
        final(s)@ == old(s)@.push(c),
{
    s.push(c);
}

/// The characters of `s` from `a` up to `b`, as a string.
pub fn string_of(s: &Vec<char>, a: usize, b: usize) -> (r: String)
    requires
        a <= b <= s.len(),
    ensures
        r@ == s@.subrange(a as int, b as int),
{
    let mut out = String::new();
    let mut i = a;
    while i < b
        invariant
            a <= i <= b <= s.len(),
            out@ == s@.subrange(a as int, i as int),
        decreases b - i,
    {
        push_char(&mut out, s[i]);
        assert(out@ =~= s@.subrange(a as int, i + 1));
        i = i + 1;
    }
    out
}

/// [`skip_spaces`], computed.
pub fn skip_spaces_at(s: &Vec<char>, pos: usize) -> (r: usize)
    requires
        pos <= s.len(),
    ensures
        r == skip_spaces(s@, pos as int),
{
    let mut i = pos;
    while i < s.len() && (s[i] == ' ' || s[i] == '\t' || s[i] == '\n' || s[i] == '\r')
        invariant
            pos <= i <= s.len(),
            skip_spaces(s@, pos as int) == skip_spaces(s@, i as int),
        decreases s.len() - i,
    {
        i = i + 1;
    }
    i
}

/// [`skip_ws`], computed.
pub fn skip_ws_at(s: &Vec<char>, pos: usize) -> (r: usize)
    requires
        pos <= s.len(),
    ensures
        r == skip_ws(s@, pos as int),
{
    let mut i = pos;
    let mut in_comment = false;
    loop
        invariant
            pos <= i <= s.len(),
            skip_ws(s@, pos as int) == if in_comment {
                skip_comment(s@, i as int)
            } else {
                skip_ws(s@, i as int)
            },
        decreases s.len() - i,
    {
        if i >= s.len() {
            assert(skip_comment(s@, i as int) == skip_ws(s@, i as int));
            return i;
        }
        let c = s[i];
        if in_comment {
            if c == '\n' {
                assert(skip_comment(s@, i as int) == skip_ws(s@, i as int));
                assert(skip_ws(s@, i as int) == skip_ws(s@, i + 1));
                in_comment = false;
            } else {
                assert(skip_comment(s@, i as int) == skip_comment(s@, i + 1));
            }
        } else if c == '#' {
            assert(skip_ws(s@, i as int) == skip_comment(s@, i + 1));
            in_comment = true;
        } else if !(c == ' ' || c == '\t' || c == '\n' || c == '\r') {
            return i;
        } else {
            assert(skip_ws(s@, i as int) == skip_ws(s@, i + 1));
        }
        i = i + 1;
    }
}

/// [`has_tag`], computed.
pub fn tag_at(s: &Vec<char>, pos: usize, t: &str) -> (r: bool)
    ensures
        r == has_tag(s@, pos as int, t@),
{
    let n = t.unicode_len();
    if pos > s.len() || n > s.len() - pos {
        return false;
    }
    let mut i: usize = 0;
    while i < n
        invariant
            n == t@.len(),
            pos + n <= s.len(),
            i <= n,
            forall|j: int| 0 <= j < i ==> s@[pos + j] == t@[j],
        decreases n - i,
    {
        if s[pos + i] != t.get_char(i) {
            assert(s@.subrange(pos as int, pos + n)[i as int] != t@[i as int]);
            return false;
        }
        i = i + 1;
    }
    assert(s@.subrange(pos as int, pos + n) =~= t@);
    true
}

/// [`lit`], computed.
pub fn lit_at(s: &Vec<char>, pos: usize, t: &str) -> (r: Option<usize>)
    requires
        pos <= s.len(),
    ensures
        lit(s@, pos as int, t@) matches Some(q) ==> pos <= q <= s.len(),
        r == (match lit(s@, pos as int, t@) {
            Some(q) => Some(q as usize),
            None => None::<usize>,
        }),
        r matches Some(q) ==> pos <= q <= s.len(),
{
    let p = skip_ws_at(s, pos);
    proof {
        lemma_skip_ws_bounds(s@, pos as int);
    }
    if tag_at(s, p, t) {
        Some(p + t.unicode_len())
    } else {
        None
    }
}

/// [`litc`], computed.
pub fn litc_at(s: &Vec<char>, pos: usize, c: char) -> (r: Option<usize>)
    requires
        pos <= s.len(),
    ensures
        litc(s@, pos as int, c) matches Some(q) ==> pos <= q <= s.len(),
        r == (match litc(s@, pos as int, c) {
            Some(q) => Some(q as usize),
            None => None::<usize>,
        }),
        r matches Some(q) ==> pos < q <= s.len(),
{
    let p = skip_ws_at(s, pos);
    proof {
        lemma_skip_ws_bounds(s@, pos as int);
    }
    if p < s.len() && s[p] == c {
        Some(p + 1)
    } else {
        None
    }
}

/// [`ws1_lit`], computed.
pub fn ws1_lit_at(s: &Vec<char>, pos: usize, t: &str) -> (r: Option<usize>)
    requires
        pos <= s.len(),
    ensures
        ws1_lit(s@, pos as int, t@) matches Some(q) ==> pos <= q <= s.len(),
        r == (match ws1_lit(s@, pos as int, t@) {
            Some(q) => Some(q as usize),
            None => None::<usize>,
        }),
        r matches Some(q) ==> pos < q <= s.len(),
{
    let p = skip_ws_at(s, pos);
    proof {
        lemma_skip_ws_bounds(s@, pos as int);
    }
    if p > pos && tag_at(s, p, t) {
        Some(p + t.unicode_len())
    } else {
        None
    }
}

/// [`keyword`], computed.
pub fn keyword_at(s: &Vec<char>, pos: usize, t: &str) -> (r: Option<usize>)
    requires
        pos <= s.len(),
    ensures
        keyword(s@, pos as int, t@) matches Some(q) ==> pos <= q <= s.len(),
        r == (match keyword(s@, pos as int, t@) {
            Some(q) => Some(q as usize),
            None => None::<usize>,
        }),
        r matches Some(q) ==> pos < q <= s.len(),
{
    match lit_at(s, pos, t) {
        Some(q) => {
            let p = skip_ws_at(s, q);
            proof {
                lemma_skip_ws_bounds(s@, q as int);
            }
            if p > q {
                Some(p)
            } else {
                None
            }
        },
        None => None,
    }
}

/// `s` holds `t` from `a` up to `b`.
fn word_is(s: &Vec<char>, a: usize, b: usize, t: &str) -> (r: bool)
    requires
        a <= b <= s.len(),
    ensures
        r == (s@.subrange(a as int, b as int) == t@),
{
    let n = t.unicode_len();
    if b - a != n {
        assert(s@.subrange(a as int, b as int).len() != t@.len());
        return false;
    }
    let r = tag_at(s, a, t);
    r
}

/// [`is_reserved`] of the characters from `a` up to `b`, computed.
pub fn is_reserved_at(s: &Vec<char>, a: usize, b: usize) -> (r: bool)
    requires
        a <= b <= s.len(),
    ensures
        r == is_reserved(s@.subrange(a as int, b as int)),
{
    word_is(s, a, b, "let") || word_is(s, a, b, "match") || word_is(s, a, b, "with")
        || word_is(s, a, b, "fun") || word_is(s, a, b, "rec") || word_is(s, a, b, "global")
        || word_is(s, a, b, "axiom") || word_is(s, a, b, "theorem") || word_is(s, a, b, "lemma")
        || word_is(s, a, b, "proposition") || word_is(s, a, b, "inductive")
        || word_is(s, a, b, "import") || word_is(s, a, b, "sugar") || word_is(s, a, b, "auto")
        || word_is(s, a, b, "solve") || word_is(s, a, b, "hclause")
        || word_is(s, a, b, "equivalence") || word_is(s, a, b, "transport")
        || word_is(s, a, b, "from") || word_is(s, a, b, "using") || word_is(s, a, b, "begin")
        || word_is(s, a, b, "qed") || word_is(s, a, b, "intro") || word_is(s, a, b, "exact")
        || word_is(s, a, b, "apply") || word_is(s, a, b, "induction")
}

/// [`is_ident_char`], computed.
fn ident_char(c: char) -> (r: bool)
    ensures
        r == is_ident_char(c),
{
    ('a' <= c && c <= 'z') || ('A' <= c && c <= 'Z') || c == '_' || ('0' <= c && c <= '9')
}

/// [`spec_identifier`], computed.
pub fn identifier_at(s: &Vec<char>, pos: usize) -> (r: Option<(usize, String)>)
    requires
        pos <= s.len(),
    ensures
        r matches Some((q, w)) ==> spec_identifier(s@, pos as int) == Some((q as int, w@)) && pos < q
            <= s.len(),
        r is None ==> spec_identifier(s@, pos as int) is None,
{
    let p = skip_ws_at(s, pos);
    proof {
        lemma_skip_ws_bounds(s@, pos as int);
    }
    if p >= s.len() {
        return None;
    }
    let c = s[p];
    if !(('a' <= c && c <= 'z') || ('A' <= c && c <= 'Z') || c == '_') {
        return None;
    }
    let mut e = p;
    while e < s.len() && ident_char(s[e])
        invariant
            p <= e <= s.len(),
            ident_end(s@, p as int) == ident_end(s@, e as int),
        decreases s.len() - e,
    {
        e = e + 1;
    }
    if is_reserved_at(s, p, e) {
        None
    } else {
        Some((e, string_of(s, p, e)))
    }
}

} // verus!
