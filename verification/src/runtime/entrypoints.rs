//! The operations the command line offers, and how interactive input is
//! read: a line ending in a backslash continues on the next one.

use vstd::prelude::*;

verus! {

/// What a run of the program does with its workspace.
#[derive(Debug, Clone, Copy, PartialEq, Eq, Structural)]
pub enum EntryPoint {
    Execute,
    TypeCheck,
    Elaborate,
    ParseOnly,
    Help,
    Interactive,
}

/// `s` ends with `suffix`.
pub open spec fn spec_ends_with(s: Seq<char>, suffix: Seq<char>) -> bool {
    suffix.len() <= s.len() && s.subrange(s.len() - suffix.len(), s.len() as int) == suffix
}

/// The input read so far asks for another line: it ends with a backslash
/// right before the line break (`\n` or `\r\n`).
pub open spec fn spec_continues_on_next_line(buffer: Seq<char>) -> bool {
    spec_ends_with(buffer, seq!['\\', '\n']) || spec_ends_with(buffer, seq!['\\', '\r', '\n'])
}

/// Whether the input read so far continues on the next line (see
/// [`spec_continues_on_next_line`]); the backslash is then dropped from it.
pub fn continues_on_next_line(buffer: &str) -> (r: bool)
    ensures
        r == spec_continues_on_next_line(buffer@),
{
    let n = buffer.unicode_len();
    let ghost s = buffer@;
    let two = n >= 2 && buffer.get_char(n - 2) == '\\' && buffer.get_char(n - 1) == '\n';
    let three = n >= 3 && buffer.get_char(n - 3) == '\\' && buffer.get_char(n - 2) == '\r' && buffer.get_char(n - 1)
        == '\n';
    proof {
        if n >= 2 {
            let t = s.subrange(n - 2, n as int);
            assert(two == (t =~= seq!['\\', '\n']));
        }
        if n >= 3 {
            let t = s.subrange(n - 3, n as int);
            assert(three == (t =~= seq!['\\', '\r', '\n']));
        }
    }
    two || three
}

} // verus!
