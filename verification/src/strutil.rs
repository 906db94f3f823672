//! Verified helpers on strings: equality, prefix tests, decimal parsing,
//! blank-document detection and message building.

use vstd::prelude::*;

verus! {

/// Character-wise string equality, proved against the views.
pub fn str_eq(a: &str, b: &str) -> (r: bool)
    ensures
        r == (a@ == b@),
{
    let a_len = a.unicode_len();
    let b_len = b.unicode_len();
    if a_len != b_len {
        assert(a@ != b@);
        return false;
    }
    let mut i: usize = 0;
    while i < a_len
        invariant
            a_len == a@.len(),
            b_len == b@.len(),
            a_len == b_len,
            i <= a_len,
            forall|j: int| 0 <= j < i ==> a@[j] == b@[j],
        decreases a_len - i,
    {
        if a.get_char(i) != b.get_char(i) {
            return false;
        }
        i += 1;
    }
    assert(a@ =~= b@);
    true
}

/// The views of a sequence of strings.
pub open spec fn str_views(s: Seq<String>) -> Seq<Seq<char>> {
    s.map_values(|x: String| x@)
}

/// Does the string start with `--`, the shape of an optional argument?
pub open spec fn spec_is_flag(s: Seq<char>) -> bool {
    s.len() >= 2 && s[0] == '-' && s[1] == '-'
}

pub fn is_flag(s: &str) -> (r: bool)
    ensures
        r == spec_is_flag(s@),
{
    let len = s.unicode_len();
    len >= 2 && s.get_char(0) == '-' && s.get_char(1) == '-'
}

pub open spec fn is_digit(c: char) -> bool {
    '0' <= c && c <= '9'
}

pub open spec fn digit_val(c: char) -> int {
    c as int - '0' as int
}

/// The value of a sequence of decimal digits, most significant first.
pub open spec fn dec_val(s: Seq<char>) -> int
    decreases s.len(),
{
    if s.len() == 0 {
        0
    } else {
        dec_val(s.drop_last()) * 10 + digit_val(s.last())
    }
}

/// The digits of a decimal literal: everything after an optional leading `+`.
pub open spec fn digits_part(s: Seq<char>) -> Seq<char> {
    if s.len() > 0 && s[0] == '+' {
        s.subrange(1, s.len() as int)
    } else {
        s
    }
}

/// Is `s` a decimal literal for a usize: an optional `+`, then one or more
/// digits, with a value that fits?
pub open spec fn is_usize_literal(s: Seq<char>) -> bool {
    &&& digits_part(s).len() > 0
    &&& (forall|j: int| 0 <= j < digits_part(s).len() ==> is_digit(digits_part(s)[j]))
    &&& dec_val(digits_part(s)) <= usize::MAX
}

/// The usize value denoted by a decimal literal.
pub open spec fn usize_literal_val(s: Seq<char>) -> int {
    dec_val(digits_part(s))
}

proof fn lemma_dec_val_nonneg(s: Seq<char>)
    requires
        forall|j: int| 0 <= j < s.len() ==> is_digit(s[j]),
    ensures
        dec_val(s) >= 0,
    decreases s.len(),
{
    if s.len() > 0 {
        lemma_dec_val_nonneg(s.drop_last());
    }
}

/// Appending more digits never decreases the value.
proof fn lemma_dec_val_prefix(s: Seq<char>, i: int)
    requires
        forall|j: int| 0 <= j < s.len() ==> is_digit(s[j]),
        0 <= i <= s.len(),
    ensures
        dec_val(s.subrange(0, i)) <= dec_val(s),
    decreases s.len() - i,
{
    if i < s.len() {
        lemma_dec_val_prefix(s, i + 1);
        let p = s.subrange(0, i + 1);
        assert(p.drop_last() =~= s.subrange(0, i));
        lemma_dec_val_nonneg(s.subrange(0, i));
        assert(dec_val(s.subrange(0, i)) <= dec_val(p));
    } else {
        assert(s.subrange(0, i) =~= s);
    }
}

/// The value of a literal's digits is at least the value of any digit prefix,
/// so overflow on a prefix means the whole literal does not fit.
proof fn lemma_overflow(digits: Seq<char>, k: int, bound: int)
    requires
        0 < k <= digits.len(),
        forall|j: int| 0 <= j < digits.len() ==> is_digit(digits[j]),
        dec_val(digits.subrange(0, k)) > bound,
    ensures
        dec_val(digits) > bound,
{
    lemma_dec_val_prefix(digits, k);
}

/// Parses a non-negative decimal integer the way `usize` reads one: an
/// optional leading `+`, then one or more digits, rejecting overflow.
pub fn parse_usize(s: &str) -> (r: Option<usize>)
    ensures
        is_usize_literal(s@) ==> r == Some((usize_literal_val(s@) as usize)),
        is_usize_literal(s@) ==> 0 <= usize_literal_val(s@) <= usize::MAX,
        !is_usize_literal(s@) ==> r is None,
{
    let len = s.unicode_len();
    let start: usize = if len > 0 && s.get_char(0) == '+' {
        1
    } else {
        0
    };
    let ghost digits = digits_part(s@);
    proof {
        assert(digits =~= s@.subrange(start as int, len as int));
    }
    if start == len {
        return None;
    }
    let mut acc: usize = 0;
    let mut i: usize = start;
    while i < len
        invariant
            len == s@.len(),
            start <= i <= len,
            start < len,
            digits == digits_part(s@),
            digits =~= s@.subrange(start as int, len as int),
            forall|j: int| 0 <= j < i - start ==> is_digit(digits[j]),
            acc == dec_val(digits.subrange(0, i - start)),
        decreases len - i,
    {
        let c = s.get_char(i);
        let cu = c as u32;
        if !(48 <= cu && cu <= 57) {
            assert(!is_digit(digits[i - start]));
            return None;
        }
        assert(is_digit(digits[i - start]));
        let d: usize = (cu - 48) as usize;
        let ghost k = i + 1 - start;
        proof {
            assert(digits.subrange(0, k).drop_last() =~= digits.subrange(0, k - 1));
            assert(digits.subrange(0, k).last() == digits[k - 1]);
            assert(digit_val(digits[k - 1]) == d);
        }
        let acc10 = match acc.checked_mul(10) {
            Some(v) => v,
            None => {
                proof {
                    if is_usize_literal(s@) {
                        lemma_dec_val_nonneg(digits.subrange(0, k - 1));
                        lemma_overflow(digits, k, usize::MAX as int);
                    }
                }
                return None;
            },
        };
        let next = match acc10.checked_add(d) {
            Some(v) => v,
            None => {
                proof {
                    if is_usize_literal(s@) {
                        lemma_overflow(digits, k, usize::MAX as int);
                    }
                }
                return None;
            },
        };
        acc = next;
        i += 1;
    }
    proof {
        assert(digits.subrange(0, len - start) =~= digits);
    }
    Some(acc)
}

/// Is the document blank: nothing but spaces, tabs and line breaks? A blank
/// file is the normal first-use state, distinguished from malformed content.
pub open spec fn is_space(c: char) -> bool {
    c == ' ' || c == '\t' || c == '\n' || c == '\r' || c == '\u{b}' || c == '\u{c}'
}

pub open spec fn spec_is_blank(s: Seq<char>) -> bool {
    forall|j: int| 0 <= j < s.len() ==> is_space(s[j])
}

pub fn is_blank(s: &str) -> (r: bool)
    ensures
        r == spec_is_blank(s@),
{
    let len = s.unicode_len();
    let mut i: usize = 0;
    while i < len
        invariant
            len == s@.len(),
            i <= len,
            forall|j: int| 0 <= j < i ==> is_space(s@[j]),
        decreases len - i,
    {
        let c = s.get_char(i);
        if !(c == ' ' || c == '\t' || c == '\n' || c == '\r' || c == '\u{b}' || c == '\u{c}') {
            return false;
        }
        i += 1;
    }
    true
}

/// Builds `a + b`, the shape of the library's interpolated messages.
pub fn concat2(a: &str, b: &str) -> (r: String)
    ensures
        r@ == a@ + b@,
{
    let s = String::from_str(a);
    s.concat(b)
}

/// Builds `a + b + c`, the shape of the library's interpolated messages.
pub fn concat3(a: &str, b: &str, c: &str) -> (r: String)
    ensures
        r@ == a@ + b@ + c@,
{
    let s = String::from_str(a);
    let s = s.concat(b);
    s.concat(c)
}

} // verus!
