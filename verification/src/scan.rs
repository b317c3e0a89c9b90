use vstd::prelude::*;

use crate::text::{char_is_alphanumeric, char_is_whitespace};

verus! {

/// The character at `i`, or NUL past the end: the lexers read a NUL as the end of input.
pub open spec fn peek_at(cs: Seq<char>, i: int) -> char {
    if 0 <= i < cs.len() {
        cs[i]
    } else {
        '\0'
    }
}

/// The first index at or after `i` whose character fails `p`, or the length when every
/// remaining character satisfies it.
pub open spec fn scan_end(cs: Seq<char>, i: int, p: spec_fn(char) -> bool) -> int
    decreases cs.len() - i,
{
    if i < 0 || i >= cs.len() {
        i
    } else if p(cs[i]) {
        scan_end(cs, i + 1, p)
    } else {
        i
    }
}

pub proof fn lemma_scan_end(cs: Seq<char>, i: int, p: spec_fn(char) -> bool)
    requires
        0 <= i <= cs.len(),
    ensures
        i <= scan_end(cs, i, p) <= cs.len(),
        forall|k: int| i <= k < scan_end(cs, i, p) ==> #[trigger] p(cs[k]),
        scan_end(cs, i, p) < cs.len() ==> !p(cs[scan_end(cs, i, p)]),
    decreases cs.len() - i,
{
    if i < cs.len() && p(cs[i]) {
        lemma_scan_end(cs, i + 1, p);
    }
}

/// Decimal digits.
pub open spec fn is_digit(c: char) -> bool {
    '0' <= c <= '9'
}

pub open spec fn digit_pred() -> spec_fn(char) -> bool {
    |c: char| is_digit(c)
}

/// The number that a run of decimal digits spells.
pub open spec fn digits_value(s: Seq<char>) -> int
    decreases s.len(),
{
    if s.len() == 0 {
        0
    } else {
        digits_value(s.drop_last()) * 10 + (s.last() as int - '0' as int)
    }
}

/// Comment text: everything up to a line feed or a NUL.
pub open spec fn comment_pred() -> spec_fn(char) -> bool {
    |c: char| c != '\n' && c != '\0'
}

/// The value of a decimal digit, as `char::to_digit(10)` gives it.
pub fn digit_value(c: char) -> (r: Option<u32>)
    ensures
        r == (if is_digit(c) {
            Some((c as u32 - '0' as u32) as u32)
        } else {
            None::<u32>
        }),
{
    if '0' <= c && c <= '9' {
        Some(c as u32 - '0' as u32)
    } else {
        None
    }
}

/// The characters that continue an identifier.
pub open spec fn ident_pred() -> spec_fn(char) -> bool {
    |c: char| char_is_alphanumeric(c) || c == '\'' || c == '_'
}

pub open spec fn whitespace_pred() -> spec_fn(char) -> bool {
    |c: char| char_is_whitespace(c)
}

pub proof fn lemma_digits_value_nonneg(s: Seq<char>)
    requires
        forall|k: int| 0 <= k < s.len() ==> is_digit(#[trigger] s[k]),
    ensures
        digits_value(s) >= 0,
    decreases s.len(),
{
    if s.len() > 0 {
        lemma_digits_value_nonneg(s.drop_last());
    }
}

/// A longer run of digits spells at least as large a number.
pub proof fn lemma_digits_value_grows(cs: Seq<char>, i: int, k: int, j: int)
    requires
        0 <= i <= k <= j <= cs.len(),
        forall|m: int| i <= m < j ==> is_digit(#[trigger] cs[m]),
    ensures
        digits_value(cs.subrange(i, k)) <= digits_value(cs.subrange(i, j)),
    decreases j - k,
{
    if k < j {
        lemma_digits_value_grows(cs, i, k, j - 1);
        assert(cs.subrange(i, j).drop_last() == cs.subrange(i, j - 1));
        assert(forall|m: int| 0 <= m < j - 1 - i ==> is_digit(#[trigger] cs.subrange(i, j - 1)[m]));
        lemma_digits_value_nonneg(cs.subrange(i, j - 1));
    }
}

/// The characters that start blank space.
pub open spec fn is_whitespace_start(c: char) -> bool {
    c == ' ' || c == '\t' || c == '\n'
}

} // verus!
