//! Verified text utilities: character-level string equality, lexicographic
//! order on code points (the order the provider's signature scheme sorts
//! callback fields by), decimal rendering of integers, and decimal parsing.

use vstd::prelude::*;

verus! {

/// Character-by-character string equality, specified against the views.
pub fn str_eq(a: &str, b: &str) -> (r: bool)
    ensures
        r == (a@ == b@),
{
    let alen = a.unicode_len();
    let blen = b.unicode_len();
    if alen != blen {
        assert(a@ != b@) by {
            assert(a@.len() != b@.len());
        }
        return false;
    }
    let mut i: usize = 0;
    while i < alen
        invariant
            alen == a@.len(),
            alen == b@.len(),
            0 <= i <= alen,
            forall|j: int| 0 <= j < i ==> a@[j] == b@[j],
        decreases alen - i,
    {
        if a.get_char(i) != b.get_char(i) {
            return false;
        }
        i += 1;
    }
    assert(a@ =~= b@);
    true
}

/// Lexicographic "less than or equal" on code points: the prefix order used
/// to sort callback fields by key.
pub open spec fn spec_lex_le(a: Seq<char>, b: Seq<char>) -> bool
    decreases a.len(),
{
    if a.len() == 0 {
        true
    } else if b.len() == 0 {
        false
    } else if (a[0] as u32) != (b[0] as u32) {
        (a[0] as u32) < (b[0] as u32)
    } else {
        spec_lex_le(a.drop_first(), b.drop_first())
    }
}

/// Decides `spec_lex_le` on string slices.
pub fn lex_le(a: &str, b: &str) -> (r: bool)
    ensures
        r == spec_lex_le(a@, b@),
{
    let alen = a.unicode_len();
    let blen = b.unicode_len();
    let mut i: usize = 0;
    assert(a@.skip(0) =~= a@);
    assert(b@.skip(0) =~= b@);
    loop
        invariant
            alen == a@.len(),
            blen == b@.len(),
            0 <= i <= alen,
            i <= blen,
            spec_lex_le(a@, b@) == spec_lex_le(a@.skip(i as int), b@.skip(i as int)),
        decreases alen - i,
    {
        if i == alen {
            assert(a@.skip(i as int).len() == 0);
            return true;
        }
        if i == blen {
            assert(b@.skip(i as int).len() == 0);
            assert(a@.skip(i as int).len() > 0);
            return false;
        }
        let ca = a.get_char(i) as u32;
        let cb = b.get_char(i) as u32;
        assert(a@.skip(i as int)[0] == a@[i as int]);
        assert(b@.skip(i as int)[0] == b@[i as int]);
        if ca != cb {
            return ca < cb;
        }
        assert(a@.skip(i as int).drop_first() =~= a@.skip(i + 1));
        assert(b@.skip(i as int).drop_first() =~= b@.skip(i + 1));
        i += 1;
    }
}

/// The character for a single decimal digit.
pub open spec fn spec_digit_char(d: int) -> char {
    "0123456789"@[d]
}

/// The decimal rendering of a non-negative integer, most significant digit
/// first, with no leading zeros (`0` renders as "0").
pub open spec fn spec_dec_digits(n: int) -> Seq<char>
    decreases n,
{
    if n < 10 {
        seq![spec_digit_char(if 0 <= n { n % 10 } else { 0 })]
    } else {
        spec_dec_digits(n / 10) + seq![spec_digit_char(n % 10)]
    }
}

/// Renders `n` in decimal, specified against `spec_dec_digits`.
pub fn u64_to_string(n: u64) -> (r: String)
    ensures
        r@ == spec_dec_digits(n as int),
    decreases n,
{
    let digits = "0123456789";
    proof {
        reveal_strlit("0123456789");
    }
    let d = (n % 10) as usize;
    let last = digits.substring_char(d, d + 1);
    assert(last@ =~= seq![spec_digit_char(n as int % 10)]);
    if n < 10 {
        assert(last@ =~= spec_dec_digits(n as int));
        last.to_owned()
    } else {
        let prefix = u64_to_string(n / 10);
        let r = prefix.concat(last);
        assert(r@ =~= spec_dec_digits(n as int));
        r
    }
}

/// The decimal rendering of an integer, with a leading minus sign when
/// negative.
pub open spec fn spec_dec_i64(n: int) -> Seq<char> {
    if n < 0 {
        seq!['-'] + spec_dec_digits(-n)
    } else {
        spec_dec_digits(n)
    }
}

/// Renders `n` in decimal, specified against `spec_dec_i64`.
pub fn i64_to_string(n: i64) -> (r: String)
    ensures
        r@ == spec_dec_i64(n as int),
{
    if n >= 0 {
        u64_to_string(n as u64)
    } else {
        let m: u64 = ((-(n + 1)) as u64) + 1;
        assert(m as int == -(n as int));
        let mut r = "-".to_owned();
        proof {
            reveal_strlit("-");
        }
        let digits = u64_to_string(m);
        r.append(digits.as_str());
        assert(r@ =~= seq!['-'] + spec_dec_digits(m as int));
        r
    }
}

/// The numeric value of a sequence of decimal digit characters, or `None` if
/// the sequence is empty or holds a non-digit.
pub open spec fn spec_parse_digits(s: Seq<char>) -> Option<int>
    decreases s.len(),
{
    if s.len() == 0 {
        None
    } else if !('0' <= s.last() && s.last() <= '9') {
        None
    } else if s.len() == 1 {
        Some(s.last() as int - '0' as int)
    } else {
        match spec_parse_digits(s.drop_last()) {
            None => None,
            Some(high) => Some(high * 10 + (s.last() as int - '0' as int)),
        }
    }
}

/// Parses a non-empty, all-digit string into a `u64` value; rejects anything
/// else, and any value above `max`.
pub fn parse_digits_u64(s: &str, max: u64) -> (r: Option<u64>)
    ensures
        match r {
            Some(v) => spec_parse_digits(s@) == Some(v as int) && v <= max,
            None => spec_parse_digits(s@) is None
                || (spec_parse_digits(s@) matches Some(v) && v > max),
        },
{
    let len = s.unicode_len();
    if len == 0 {
        return None;
    }
    let mut acc: u64 = 0;
    let mut i: usize = 0;
    while i < len
        invariant
            len == s@.len(),
            0 < len,
            0 <= i <= len,
            acc <= max,
            i > 0 ==> spec_parse_digits(s@.take(i as int)) == Some(acc as int),
            i == 0 ==> acc == 0,
        decreases len - i,
    {
        let c = s.get_char(i);
        let cv = c as u32;
        if cv < '0' as u32 || cv > '9' as u32 {
            proof {
                lemma_parse_digits_bad(s@, i as int);
            }
            return None;
        }
        let d = (cv - '0' as u32) as u64;
        if acc > max / 10 || (acc == max / 10 && d > max % 10) {
            proof {
                assert(acc * 10 + d > max);
                lemma_parse_digits_grows(s@, i as int, acc as int, d as int, max as int);
            }
            return None;
        }
        assert(s@.take(i + 1).drop_last() =~= s@.take(i as int));
        assert(s@.take(i + 1).last() == s@[i as int]);
        acc = acc * 10 + d;
        i += 1;
    }
    assert(s@.take(len as int) =~= s@);
    Some(acc)
}

/// A non-digit at position `i` makes the whole string unparsable.
proof fn lemma_parse_digits_bad(s: Seq<char>, i: int)
    requires
        0 <= i < s.len(),
        !('0' <= s[i] && s[i] <= '9'),
    ensures
        spec_parse_digits(s) is None,
    decreases s.len(),
{
    if s.len() > 0 {
        if i == s.len() - 1 {
        } else {
            lemma_parse_digits_bad(s.drop_last(), i);
        }
    }
}

/// Once the accumulated prefix value would exceed `max` after the next digit,
/// the value of the whole string (if any) exceeds `max` as well.
proof fn lemma_parse_digits_grows(s: Seq<char>, i: int, acc: int, d: int, max: int)
    requires
        0 <= i < s.len(),
        0 <= d <= 9,
        max >= 0,
        '0' <= s[i] && s[i] <= '9',
        d == s[i] as int - '0' as int,
        i > 0 ==> spec_parse_digits(s.take(i)) == Some(acc),
        i == 0 ==> acc == 0,
        acc * 10 + d > max,
    ensures
        spec_parse_digits(s) is None
            || (spec_parse_digits(s) matches Some(v) && v > max),
{
    assert(s.take(i + 1).drop_last() =~= s.take(i));
    assert(s.take(i + 1).last() == s[i]);
    assert(spec_parse_digits(s.take(i + 1)) == Some(acc * 10 + d));
    lemma_parse_digits_monotone(s, i + 1);
}

/// A parsable digit string has a non-negative value.
proof fn lemma_parse_digits_nonneg(s: Seq<char>)
    ensures
        spec_parse_digits(s) matches Some(v) ==> v >= 0,
    decreases s.len(),
{
    if s.len() > 1 {
        lemma_parse_digits_nonneg(s.drop_last());
    }
}

/// A parsable string is at least as large as the value of any of its
/// parsable prefixes.
proof fn lemma_parse_digits_monotone(s: Seq<char>, i: int)
    requires
        0 < i <= s.len(),
        spec_parse_digits(s.take(i)) is Some,
    ensures
        spec_parse_digits(s) is None
            || spec_parse_digits(s).unwrap() >= spec_parse_digits(s.take(i)).unwrap(),
    decreases s.len() - i,
{
    if i == s.len() {
        assert(s.take(i) =~= s);
    } else {
        assert(s.take(i + 1).drop_last() =~= s.take(i));
        if '0' <= s.take(i + 1).last() && s.take(i + 1).last() <= '9' {
            lemma_parse_digits_nonneg(s.take(i));
            lemma_parse_digits_monotone(s, i + 1);
        } else {
            assert(s.take(i + 1).last() == s[i]);
            lemma_parse_digits_bad(s, i);
        }
    }
}

/// Whether the character sequence holds at least one `@`, the syntactic email
/// check the cart validation applies.
pub open spec fn spec_contains_char(s: Seq<char>, c: char) -> bool {
    exists|i: int| 0 <= i < s.len() && s[i] == c
}

/// Decides `spec_contains_char`.
pub fn contains_char(s: &str, c: char) -> (r: bool)
    ensures
        r == spec_contains_char(s@, c),
{
    let len = s.unicode_len();
    let mut i: usize = 0;
    while i < len
        invariant
            len == s@.len(),
            0 <= i <= len,
            forall|j: int| 0 <= j < i ==> s@[j] != c,
        decreases len - i,
    {
        if s.get_char(i) == c {
            return true;
        }
        i += 1;
    }
    false
}

/// Whether the character counts as blank: space, tab, newline or carriage
/// return.
pub open spec fn spec_is_blank(c: char) -> bool {
    c == ' ' || c == '\t' || c == '\n' || c == '\r'
}

/// Whether every character is blank; the trimmed-emptiness test used by
/// the registration validation.
pub open spec fn spec_all_whitespace(s: Seq<char>) -> bool {
    forall|i: int| 0 <= i < s.len() ==> spec_is_blank(s[i])
}

/// Decides `spec_all_whitespace`.
pub fn all_whitespace(s: &str) -> (r: bool)
    ensures
        r == spec_all_whitespace(s@),
{
    let len = s.unicode_len();
    let mut i: usize = 0;
    while i < len
        invariant
            len == s@.len(),
            0 <= i <= len,
            forall|j: int| 0 <= j < i ==> spec_is_blank(s@[j]),
        decreases len - i,
    {
        let c = s.get_char(i);
        if c != ' ' && c != '\t' && c != '\n' && c != '\r' {
            return false;
        }
        i += 1;
    }
    true
}

} // verus!
