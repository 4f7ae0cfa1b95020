use vstd::prelude::*;
use crate::parser::api::Expr;
use crate::parser::lexer::{is_reserved, spec_identifier};
use crate::parser::statements::{with_notation, words_from};

verus! {

/// A reserved word is never read as an identifier, so never as a variable.
pub proof fn law_identifier_not_reserved(s: Seq<char>, pos: int)
    ensures
        spec_identifier(s, pos) matches Some((_, w)) ==> !is_reserved(w),
{
}

/// Defining a notation keeps every notation defined before it, in its
/// place, and adds the new one after them, with the words of its pattern
/// as tokens.
pub proof fn law_notations_accumulate(n: Seq<(Seq<Seq<char>>, Expr)>, pattern: Seq<char>, body: Expr)
    ensures
        with_notation(n, pattern, body).len() == n.len() + 1,
        with_notation(n, pattern, body).subrange(0, n.len() as int) == n,
        with_notation(n, pattern, body)[n.len() as int] == (words_from(pattern, 0), body),
{
    assert(with_notation(n, pattern, body).subrange(0, n.len() as int) =~= n);
}

} // verus!
