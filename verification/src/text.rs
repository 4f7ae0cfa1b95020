use vstd::prelude::*;
use vstd::string::*;

verus! {

/// Character-wise equality of two string slices.
pub fn str_eq(a: &str, b: &str) -> (r: bool)
    ensures
        r == (a@ == b@),
{
    let n = a.unicode_len();
    if n != b.unicode_len() {
        return false;
    }
    let mut i: usize = 0;
    while i < n
        invariant
            n == a@.len(),
            n == b@.len(),
            i <= n,
            forall|j: int| 0 <= j < i ==> a@[j] == b@[j],
        decreases n - i,
    {
        if a.get_char(i) != b.get_char(i) {
            return false;
        }
        i = i + 1;
    }
    assert(a@ =~= b@);
    true
}

/// The characters of `s`, in order.
pub fn str_chars(s: &str) -> (r: Vec<char>)
    ensures
        r@ == s@,
{
    let n = s.unicode_len();
    let mut out: Vec<char> = Vec::new();
    let mut i: usize = 0;
    while i < n
        invariant
            n == s@.len(),
            i <= n,
            out@ =~= s@.subrange(0, i as int),
        decreases n - i,
    {
        out.push(s.get_char(i));
        i = i + 1;
    }
    assert(out@ =~= s@);
    out
}

/// A fresh owned copy of `s`.
pub fn to_owned_string(s: &str) -> (r: String)
    ensures
        r@ == s@,
{
    String::from_str(s)
}

/// `true` iff `prefix` is a prefix of `s`.
pub open spec fn spec_starts_with(s: Seq<char>, prefix: Seq<char>) -> bool {
    prefix.len() <= s.len() && s.subrange(0, prefix.len() as int) == prefix
}

/// Whether `s` begins with `prefix`.
pub fn starts_with(s: &str, prefix: &str) -> (r: bool)
    ensures
        r == spec_starts_with(s@, prefix@),
{
    let n = s.unicode_len();
    let m = prefix.unicode_len();
    if m > n {
        return false;
    }
    let mut i: usize = 0;
    while i < m
        invariant
            n == s@.len(),
            m == prefix@.len(),
            m <= n,
            i <= m,
            forall|j: int| 0 <= j < i ==> s@[j] == prefix@[j],
        decreases m - i,
    {
        if s.get_char(i) != prefix.get_char(i) {
            assert(s@.subrange(0, m as int)[i as int] != prefix@[i as int]);
            return false;
        }
        i = i + 1;
    }
    assert(s@.subrange(0, m as int) =~= prefix@);
    true
}


/// The decimal digit character for `d`.
pub open spec fn digit_char(d: nat) -> char {
    "0123456789"@[d as int]
}

/// Decimal representation of a natural number, most significant digit first.
pub open spec fn spec_decimal(n: nat) -> Seq<char>
    decreases n,
{
    if n < 10 {
        seq![digit_char(n)]
    } else {
        spec_decimal(n / 10).push(digit_char(n % 10))
    }
}

/// Decimal representation of an integer, with a leading `-` when negative.
pub open spec fn spec_int_decimal(n: int) -> Seq<char> {
    if n < 0 { seq!['-'] + spec_decimal((-n) as nat) } else { spec_decimal(n as nat) }
}

/// The decimal representation of `n`.
pub fn decimal_u64(n: u64) -> (r: String)
    ensures
        r@ == spec_decimal(n as nat),
    decreases n,
{
    let digits = "0123456789";
    proof {
        reveal_strlit("0123456789");
    }
    if n < 10 {
        let d = n as usize;
        String::from_str(digits.substring_char(d, d + 1))
    } else {
        let mut prefix = decimal_u64(n / 10);
        let d = (n % 10) as usize;
        let tail = digits.substring_char(d, d + 1);
        prefix.append(tail);
        assert(prefix@ =~= spec_decimal(n as nat));
        prefix
    }
}

/// The decimal representation of `n`, with a leading `-` when negative.
pub fn decimal_i64(n: i64) -> (r: String)
    ensures
        r@ == spec_int_decimal(n as int),
{
    if n < 0 {
        let magnitude: u64 = if n == i64::MIN { 9223372036854775808u64 } else { (-n) as u64 };
        let mut out = String::from_str("-");
        proof {
            reveal_strlit("-");
        }
        let digits = decimal_u64(magnitude);
        out.append(digits.as_str());
        assert(out@ =~= spec_int_decimal(n as int));
        out
    } else {
        decimal_u64(n as u64)
    }
}

/// `a` followed by `b`.
pub fn concat(a: &str, b: &str) -> (r: String)
    ensures
        r@ == a@ + b@,
{
    let mut out = String::from_str(a);
    out.append(b);
    out
}

/// `c` is an ASCII decimal digit.
pub open spec fn is_digit(c: char) -> bool {
    '0' <= c && c <= '9'
}

/// The value of a digit character.
pub open spec fn digit_value(c: char) -> int {
    c as int - '0' as int
}

/// The value of a sequence of decimal digits, most significant first.
pub open spec fn digits_value(ds: Seq<char>) -> int
    decreases ds.len(),
{
    if ds.len() == 0 {
        0
    } else {
        digits_value(ds.drop_last()) * 10 + digit_value(ds.last())
    }
}

/// Every character of `ds` is a decimal digit.
pub open spec fn all_digits(ds: Seq<char>) -> bool {
    forall|i: int| 0 <= i < ds.len() ==> is_digit(#[trigger] ds[i])
}

/// The `i32` that `s` denotes: an optional `+` or `-`, then at least one
/// decimal digit, with a value in range; `None` for anything else.
pub open spec fn spec_parse_i32(s: Seq<char>) -> Option<i32> {
    let neg = s.len() > 0 && s[0] == '-';
    let ds = if s.len() > 0 && (s[0] == '-' || s[0] == '+') { s.skip(1) } else { s };
    if ds.len() == 0 || !all_digits(ds) {
        None
    } else {
        let v = if neg { -digits_value(ds) } else { digits_value(ds) };
        if i32::MIN <= v && v <= i32::MAX { Some(v as i32) } else { None }
    }
}

/// Digit values never decrease as digits are appended.
pub proof fn lemma_digits_value_prefix(ds: Seq<char>, i: int)
    requires
        all_digits(ds),
        0 <= i <= ds.len(),
    ensures
        0 <= digits_value(ds.subrange(0, i)) <= digits_value(ds),
    decreases ds.len() - i,
{
    if i == ds.len() {
        assert(ds.subrange(0, i) =~= ds);
        lemma_digits_value_nonneg(ds);
    } else {
        lemma_digits_value_prefix(ds.drop_last(), i);
        assert(ds.drop_last().subrange(0, i) =~= ds.subrange(0, i));
        lemma_digits_value_nonneg(ds.drop_last());
    }
}

/// Digit values are never negative.
pub proof fn lemma_digits_value_nonneg(ds: Seq<char>)
    requires
        all_digits(ds),
    ensures
        0 <= digits_value(ds),
    decreases ds.len(),
{
    if ds.len() > 0 {
        lemma_digits_value_nonneg(ds.drop_last());
    }
}

/// The `i32` that `s` denotes, as `str::parse::<i32>` reads it.
pub fn parse_i32(s: &str) -> (r: Option<i32>)
    ensures
        r == spec_parse_i32(s@),
{
    let n = s.unicode_len();
    if n == 0 {
        return None;
    }
    let first = s.get_char(0);
    let neg = first == '-';
    let start: usize = if first == '-' || first == '+' { 1 } else { 0 };
    let ghost ds = if s@.len() > 0 && (s@[0] == '-' || s@[0] == '+') { s@.skip(1) } else { s@ };
    if start == n {
        return None;
    }
    let mut acc: i64 = 0;
    let mut i: usize = start;
    while i < n
        invariant
            n == s@.len(),
            start <= i <= n,
            ds == (if s@.len() > 0 && (s@[0] == '-' || s@[0] == '+') { s@.skip(1) } else { s@ }),
            neg == (s@.len() > 0 && s@[0] == '-'),
            start == n - ds.len(),
            forall|j: int| 0 <= j < ds.len() ==> ds[j] == s@[start + j],
            all_digits(ds.subrange(0, i - start)),
            acc == digits_value(ds.subrange(0, i - start)),
            0 <= acc <= 2147483648,
        decreases n - i,
    {
        let c = s.get_char(i);
        if !('0' <= c && c <= '9') {
            proof {
                assert(ds[i - start] == c);
                assert(!is_digit(ds[i - start]));
                assert(!all_digits(ds));
            }
            return None;
        }
        let d = (c as u32 - '0' as u32) as i64;
        proof {
            let pre = ds.subrange(0, i - start + 1);
            assert(pre.drop_last() =~= ds.subrange(0, i - start));
            assert(pre.last() == c);
        }
        acc = acc * 10 + d;
        i = i + 1;
        assert(acc == digits_value(ds.subrange(0, i - start)));
        if acc > 2147483648 {
            proof {
                if all_digits(ds) {
                    lemma_digits_value_prefix(ds, i - start);
                    assert(digits_value(ds) >= acc);
                }
            }
            return None;
        }
    }
    proof {
        assert(ds.subrange(0, ds.len() as int) =~= ds);
    }
    if neg {
        Some((-acc) as i32)
    } else if acc <= 2147483647 {
        Some(acc as i32)
    } else {
        None
    }
}

/// The `usize` that `s` denotes: an optional `+`, then at least one decimal
/// digit, with a value in range; `None` for anything else.
pub open spec fn spec_parse_usize(s: Seq<char>) -> Option<usize> {
    let ds = if s.len() > 0 && s[0] == '+' { s.skip(1) } else { s };
    if ds.len() == 0 || !all_digits(ds) || digits_value(ds) > usize::MAX {
        None
    } else {
        Some(digits_value(ds) as usize)
    }
}

/// The `usize` that `s` denotes, as `str::parse::<usize>` reads it.
pub fn parse_usize(s: &str) -> (r: Option<usize>)
    ensures
        r == spec_parse_usize(s@),
{
    let n = s.unicode_len();
    if n == 0 {
        return None;
    }
    let start: usize = if s.get_char(0) == '+' { 1 } else { 0 };
    let ghost ds = if s@.len() > 0 && s@[0] == '+' { s@.skip(1) } else { s@ };
    if start == n {
        return None;
    }
    let mut acc: u128 = 0;
    let mut i: usize = start;
    while i < n
        invariant
            n == s@.len(),
            start <= i <= n,
            ds == (if s@.len() > 0 && s@[0] == '+' { s@.skip(1) } else { s@ }),
            start == n - ds.len(),
            forall|j: int| 0 <= j < ds.len() ==> ds[j] == s@[start + j],
            all_digits(ds.subrange(0, i - start)),
            acc == digits_value(ds.subrange(0, i - start)),
            0 <= acc <= usize::MAX,
        decreases n - i,
    {
        let c = s.get_char(i);
        if !('0' <= c && c <= '9') {
            proof {
                assert(ds[i - start] == c);
                assert(!is_digit(ds[i - start]));
                assert(!all_digits(ds));
            }
            return None;
        }
        let d = (c as u32 - '0' as u32) as u128;
        proof {
            let pre = ds.subrange(0, i - start + 1);
            assert(pre.drop_last() =~= ds.subrange(0, i - start));
            assert(pre.last() == c);
        }
        acc = acc * 10 + d;
        i = i + 1;
        assert(acc == digits_value(ds.subrange(0, i - start)));
        if acc > usize::MAX as u128 {
            proof {
                if all_digits(ds) {
                    lemma_digits_value_prefix(ds, i - start);
                    assert(digits_value(ds) >= acc);
                }
            }
            return None;
        }
    }
    proof {
        assert(ds.subrange(0, ds.len() as int) =~= ds);
    }
    Some(acc as usize)
}

/// A digit character is a decimal digit of the right value.
pub proof fn lemma_digit_char(d: nat)
    requires
        d < 10,
    ensures
        is_digit(digit_char(d)),
        digit_value(digit_char(d)) == d,
{
    reveal_strlit("0123456789");
    if d == 0 {
    } else if d == 1 {
    } else if d == 2 {
    } else if d == 3 {
    } else if d == 4 {
    } else if d == 5 {
    } else if d == 6 {
    } else if d == 7 {
    } else if d == 8 {
    } else {
    }
}

/// The decimal representation of `n` is a nonempty digit sequence of value `n`.
pub proof fn lemma_decimal(n: nat)
    ensures
        spec_decimal(n).len() > 0,
        all_digits(spec_decimal(n)),
        digits_value(spec_decimal(n)) == n,
    decreases n,
{
    if n < 10 {
        lemma_digit_char(n);
        let s = spec_decimal(n);
        assert(s.drop_last() =~= Seq::<char>::empty());
        assert(s.last() == digit_char(n));
        assert(digits_value(s) == digits_value(s.drop_last()) * 10 + digit_value(s.last()));
    } else {
        lemma_decimal(n / 10);
        lemma_digit_char(n % 10);
        let s = spec_decimal(n);
        assert(s.drop_last() =~= spec_decimal(n / 10));
        assert(s.last() == digit_char(n % 10));
        assert(digits_value(s) == digits_value(s.drop_last()) * 10 + digit_value(s.last()));
        assert(n == (n / 10) * 10 + n % 10) by (nonlinear_arith);
        assert forall|i: int| 0 <= i < s.len() implies is_digit(#[trigger] s[i]) by {
            if i < s.len() - 1 {
                assert(s[i] == spec_decimal(n / 10)[i]);
            }
        }
    }
}

/// Reading back the decimal representation of an `i32` gives the same `i32`.
pub proof fn law_parse_decimal_roundtrip(i: i32)
    ensures
        spec_parse_i32(spec_int_decimal(i as int)) == Some(i),
{
    let s = spec_int_decimal(i as int);
    if i < 0 {
        let m: nat = (-(i as int)) as nat;
        lemma_decimal(m);
        assert(s.skip(1) =~= spec_decimal(m));
        assert(s[0] == '-');
    } else {
        lemma_decimal(i as nat);
        assert(is_digit(s[0]));
    }
}

/// Whether `c` has Unicode's `White_Space` property, the code points that
/// std's `char::is_whitespace` accepts.
pub open spec fn char_is_whitespace(c: char) -> bool {
    let u = c as u32;
    ||| 0x09 <= u <= 0x0D
    ||| u == 0x20
    ||| u == 0x85
    ||| u == 0xA0
    ||| u == 0x1680
    ||| 0x2000 <= u <= 0x200A
    ||| u == 0x2028
    ||| u == 0x2029
    ||| u == 0x202F
    ||| u == 0x205F
    ||| u == 0x3000
}

/// Whether `c` is alphabetic or numeric in Unicode's sense (as std's
/// `char::is_alphanumeric` answers).
pub uninterp spec fn char_is_alphanumeric(c: char) -> bool;

/// Whether `c` is white space in Unicode's sense.
pub(crate) fn is_whitespace(c: char) -> (r: bool)
    ensures
        r == char_is_whitespace(c),
{
    let u = c as u32;
    (0x09 <= u && u <= 0x0D) || u == 0x20 || u == 0x85 || u == 0xA0 || u == 0x1680 || (0x2000 <= u && u
        <= 0x200A) || u == 0x2028 || u == 0x2029 || u == 0x202F || u == 0x205F || u == 0x3000
}

/// std's `char::is_alphanumeric`; its answer depends on `c` alone.
#[verifier::external_body]
pub(crate) fn is_alphanumeric(c: char) -> (r: bool)
    ensures
        r == char_is_alphanumeric(c),
{
    c.is_alphanumeric()
}

/// `parts` separated by `, `.
pub open spec fn spec_join(parts: Seq<Seq<char>>) -> Seq<char>
    decreases parts.len(),
{
    if parts.len() == 0 {
        Seq::empty()
    } else if parts.len() == 1 {
        parts[0]
    } else {
        spec_join(parts.drop_last()) + ", "@ + parts.last()
    }
}

/// The texts of `parts`, separated by `, `.
pub fn join(parts: &Vec<String>) -> (r: String)
    ensures
        r@ == spec_join(parts@.map_values(|p: String| p@)),
{
    let ghost m = parts@.map_values(|p: String| p@);
    let mut out = String::new();
    let mut i: usize = 0;
    while i < parts.len()
        invariant
            i <= parts.len(),
            m == parts@.map_values(|p: String| p@),
            out@ == spec_join(m.subrange(0, i as int)),
        decreases parts.len() - i,
    {
        let ghost pre = m.subrange(0, i + 1);
        assert(pre.drop_last() =~= m.subrange(0, i as int));
        if i > 0 {
            out.append(", ");
        } else {
            assert(m.subrange(0, 0) =~= Seq::<Seq<char>>::empty());
        }
        out.append(parts[i].as_str());
        i = i + 1;
    }
    assert(m.subrange(0, parts.len() as int) =~= m);
    out
}

/// `s` between double quotes.
pub open spec fn spec_quote(s: Seq<char>) -> Seq<char> {
    "\""@ + s + "\""@
}

/// `s` between double quotes.
pub fn quote(s: &str) -> (r: String)
    ensures
        r@ == spec_quote(s@),
{
    let mut out = String::from_str("\"");
    out.append(s);
    out.append("\"");
    out
}

} // verus!
