//! The numerals of a document: unsigned decimal integers for indices, and
//! decimal floating-point literals for coordinates.

use vstd::prelude::*;
use vstd::slice::slice_subrange;

verus! {

/// Whether `c` is one of the ten ASCII digits.
pub open spec fn is_digit(c: char) -> bool {
    '0' <= c <= '9'
}

/// The number that the digit `c` stands for.
pub open spec fn digit_value(c: char) -> nat
    recommends
        is_digit(c),
{
    (c as int - '0' as int) as nat
}

/// Whether every character of `s` is a digit. This holds of the empty
/// sequence.
pub open spec fn all_digits(s: Seq<char>) -> bool {
    forall|k: int| 0 <= k < s.len() ==> is_digit(#[trigger] s[k])
}

/// The number that a sequence of digits stands for in base ten, most
/// significant digit first.
pub open spec fn decimal_value(s: Seq<char>) -> nat
    recommends
        all_digits(s),
    decreases s.len(),
{
    if s.len() == 0 {
        0
    } else {
        decimal_value(s.drop_last()) * 10 + digit_value(s.last())
    }
}

/// How many characters a leading plus sign takes: one or none.
pub open spec fn plus_len(s: Seq<char>) -> int {
    if s.len() > 0 && s[0] == '+' {
        1
    } else {
        0
    }
}

/// The unsigned 32-bit integer that a token spells: an optional plus sign,
/// then one or more digits whose value fits in 32 bits. Leading zeros are
/// accepted. Any other token spells none.
pub open spec fn u32_value(s: Seq<char>) -> Option<u32> {
    let digits = s.skip(plus_len(s));
    if digits.len() > 0 && all_digits(digits) && decimal_value(digits) <= u32::MAX {
        Some(decimal_value(digits) as u32)
    } else {
        None
    }
}

/// How many characters a leading sign takes: one or none.
pub open spec fn sign_len(s: Seq<char>) -> int {
    if s.len() > 0 && (s[0] == '+' || s[0] == '-') {
        1
    } else {
        0
    }
}

/// The first position at or after `i` that holds no digit, or the length of
/// `s` if there is none.
pub open spec fn digits_end(s: Seq<char>, i: int) -> int
    decreases s.len() - i,
{
    if 0 <= i < s.len() && is_digit(s[i]) {
        digits_end(s, i + 1)
    } else {
        i
    }
}

/// Whether `s` is an exponent: the letter `e` in either case, an optional
/// sign, and one or more digits.
pub open spec fn is_exponent(s: Seq<char>) -> bool {
    &&& s.len() > 0
    &&& (s[0] == 'e' || s[0] == 'E')
    &&& {
        let digits = s.skip(1).skip(sign_len(s.skip(1)));
        digits.len() > 0 && all_digits(digits)
    }
}

/// Whether `s` is an unsigned decimal number: digits, with at most one point
/// before, among or after them and at least one digit in all, and then an
/// optional exponent.
pub open spec fn is_decimal(s: Seq<char>) -> bool {
    let a = digits_end(s, 0);
    let point = a < s.len() && s[a] == '.';
    let b = if point {
        digits_end(s, a + 1)
    } else {
        a
    };
    let digits = if point {
        b - 1
    } else {
        a
    };
    digits > 0 && (b == s.len() || is_exponent(s.skip(b)))
}

/// Whether `s` spells a word in any mix of cases, where `lower` is the word
/// in lower case and `upper` the same word in upper case.
pub open spec fn spells(s: Seq<char>, lower: Seq<char>, upper: Seq<char>) -> bool {
    &&& s.len() == lower.len()
    &&& forall|k: int| 0 <= k < s.len() ==> #[trigger] s[k] == lower[k] || s[k] == upper[k]
}

/// Whether `s` names a value that is no number: an infinity or a NaN.
pub open spec fn is_special(s: Seq<char>) -> bool {
    ||| spells(s, seq!['i', 'n', 'f'], seq!['I', 'N', 'F'])
    ||| spells(s, seq!['n', 'a', 'n'], seq!['N', 'A', 'N'])
    ||| spells(
        s,
        seq!['i', 'n', 'f', 'i', 'n', 'i', 't', 'y'],
        seq!['I', 'N', 'F', 'I', 'N', 'I', 'T', 'Y'],
    )
}

/// Whether `s` is a floating-point literal: an optional sign, then a decimal
/// number or, in any mix of cases, one of the words `inf`, `infinity` and
/// `nan`. This is the grammar by which `f32` and `f64` read a string.
pub open spec fn is_float_literal(s: Seq<char>) -> bool {
    let body = s.skip(sign_len(s));
    is_decimal(body) || is_special(body)
}

/// A number is no smaller than the number that any of its prefixes stands
/// for.
pub proof fn lemma_decimal_prefix(s: Seq<char>, k: int)
    requires
        0 <= k <= s.len(),
    ensures
        decimal_value(s.take(k)) <= decimal_value(s),
    decreases s.len(),
{
    if k == s.len() {
        assert(s.take(k) =~= s);
    } else {
        lemma_decimal_prefix(s.drop_last(), k);
        assert(s.drop_last().take(k) =~= s.take(k));
    }
}

/// `digits_end` stays within the sequence, passes digits only, and stops at
/// a character that is no digit.
pub proof fn lemma_digits_end(s: Seq<char>, i: int)
    requires
        0 <= i <= s.len(),
    ensures
        i <= digits_end(s, i) <= s.len(),
        digits_end(s, i) < s.len() ==> !is_digit(s[digits_end(s, i)]),
        forall|j: int| i <= j < digits_end(s, i) ==> is_digit(s[j]),
    decreases s.len() - i,
{
    if i < s.len() && is_digit(s[i]) {
        lemma_digits_end(s, i + 1);
    }
}

/// A single digit is a floating-point literal.
pub proof fn lemma_single_digit(c: char)
    requires
        is_digit(c),
    ensures
        is_float_literal(seq![c]),
{
    let s = seq![c];
    assert(s.skip(0) =~= s);
    reveal_with_fuel(digits_end, 3);
    assert(digits_end(s, 0) == 1);
}

/// Whether `c` is a digit.
pub fn is_ascii_digit(c: char) -> (r: bool)
    ensures
        r == is_digit(c),
{
    '0' <= c && c <= '9'
}

/// Reads a token as an unsigned 32-bit integer.
pub fn parse_u32(token: &[char]) -> (r: Option<u32>)
    ensures
        r == u32_value(token@),
{
    let n: usize = token.len();
    let start: usize = if n > 0 && token[0] == '+' {
        1
    } else {
        0
    };
    if start == n {
        return None;
    }
    let ghost digits = token@.skip(start as int);
    let mut value: u64 = 0;
    let mut i: usize = start;
    while i < n
        invariant
            start <= i <= n,
            n == token@.len(),
            start == plus_len(token@),
            digits == token@.skip(start as int),
            all_digits(digits.take(i - start)),
            value == decimal_value(digits.take(i - start)),
            value <= u32::MAX,
        decreases n - i,
    {
        let c: char = token[i];
        let ghost before = digits.take(i - start);
        let ghost after = digits.take(i - start + 1);
        proof {
            assert(after.drop_last() =~= before);
            assert(after.last() == c);
        }
        if !is_ascii_digit(c) {
            assert(!is_digit(digits[i - start]));
            return None;
        }
        let next: u64 = value * 10 + (c as u64 - '0' as u64);
        if next > u32::MAX as u64 {
            proof {
                if all_digits(digits) {
                    lemma_decimal_prefix(digits, i - start + 1);
                }
            }
            return None;
        }
        value = next;
        i += 1;
    }
    assert(digits.take(n - start) =~= digits);
    Some(value as u32)
}

/// The first position at or after `start` that holds no digit.
fn scan_digits(s: &[char], start: usize) -> (end: usize)
    requires
        start <= s@.len(),
    ensures
        end == digits_end(s@, start as int),
        start <= end <= s@.len(),
{
    let mut end: usize = start;
    while end < s.len() && is_ascii_digit(s[end])
        invariant
            start <= end <= s@.len(),
            digits_end(s@, end as int) == digits_end(s@, start as int),
        decreases s@.len() - end,
    {
        end += 1;
    }
    end
}

/// Whether the characters of `s` from `start` on are digits, and at least
/// one of them is there.
fn is_digit_run(s: &[char], start: usize) -> (r: bool)
    requires
        start <= s@.len(),
    ensures
        r == (s@.skip(start as int).len() > 0 && all_digits(s@.skip(start as int))),
{
    let end: usize = scan_digits(s, start);
    proof {
        lemma_digits_end(s@, start as int);
        let tail = s@.skip(start as int);
        if end == s@.len() {
            assert forall|k: int| 0 <= k < tail.len() implies is_digit(#[trigger] tail[k]) by {
                assert(tail[k] == s@[start + k]);
            }
        } else {
            assert(tail[end - start] == s@[end as int]);
        }
    }
    start < s.len() && end == s.len()
}

/// Whether the characters of `s` from `start` on are an exponent.
fn is_exponent_at(s: &[char], start: usize) -> (r: bool)
    requires
        start <= s@.len(),
    ensures
        r == is_exponent(s@.skip(start as int)),
{
    let n: usize = s.len();
    if start == n || !(s[start] == 'e' || s[start] == 'E') {
        return false;
    }
    let signed: bool = start + 1 < n && (s[start + 1] == '+' || s[start + 1] == '-');
    let from: usize = if signed {
        start + 2
    } else {
        start + 1
    };
    proof {
        let after = s@.skip(start as int).skip(1);
        assert(after =~= s@.skip(start + 1));
        assert(after.skip(sign_len(after)) =~= s@.skip(from as int));
    }
    is_digit_run(s, from)
}

/// Whether `s` is an unsigned decimal number.
fn check_decimal(s: &[char]) -> (r: bool)
    ensures
        r == is_decimal(s@),
{
    let n: usize = s.len();
    let a: usize = scan_digits(s, 0);
    let point: bool = a < n && s[a] == '.';
    let b: usize = if point {
        scan_digits(s, a + 1)
    } else {
        a
    };
    let digits: usize = if point {
        b - 1
    } else {
        a
    };
    if digits == 0 {
        return false;
    }
    b == n || is_exponent_at(s, b)
}

/// Whether `s` spells a word in any mix of cases, given in lower and in
/// upper case.
fn check_spells(s: &[char], lower: &[char], upper: &[char]) -> (r: bool)
    requires
        lower@.len() == upper@.len(),
    ensures
        r == spells(s@, lower@, upper@),
{
    if s.len() != lower.len() {
        return false;
    }
    let mut k: usize = 0;
    while k < s.len()
        invariant
            k <= s@.len(),
            s@.len() == lower@.len(),
            s@.len() == upper@.len(),
            forall|j: int| 0 <= j < k ==> #[trigger] s@[j] == lower@[j] || s@[j] == upper@[j],
        decreases s@.len() - k,
    {
        if !(s[k] == lower[k] || s[k] == upper[k]) {
            return false;
        }
        k += 1;
    }
    true
}

/// Whether `s` names an infinity or a NaN.
fn check_special(s: &[char]) -> (r: bool)
    ensures
        r == is_special(s@),
{
    let inf: [char; 3] = ['i', 'n', 'f'];
    let inf_upper: [char; 3] = ['I', 'N', 'F'];
    let nan: [char; 3] = ['n', 'a', 'n'];
    let nan_upper: [char; 3] = ['N', 'A', 'N'];
    let infinity: [char; 8] = ['i', 'n', 'f', 'i', 'n', 'i', 't', 'y'];
    let infinity_upper: [char; 8] = ['I', 'N', 'F', 'I', 'N', 'I', 'T', 'Y'];
    proof {
        assert(inf@ =~= seq!['i', 'n', 'f']);
        assert(inf_upper@ =~= seq!['I', 'N', 'F']);
        assert(nan@ =~= seq!['n', 'a', 'n']);
        assert(nan_upper@ =~= seq!['N', 'A', 'N']);
        assert(infinity@ =~= seq!['i', 'n', 'f', 'i', 'n', 'i', 't', 'y']);
        assert(infinity_upper@ =~= seq!['I', 'N', 'F', 'I', 'N', 'I', 'T', 'Y']);
    }
    check_spells(s, inf.as_slice(), inf_upper.as_slice()) || check_spells(
        s,
        nan.as_slice(),
        nan_upper.as_slice(),
    ) || check_spells(s, infinity.as_slice(), infinity_upper.as_slice())
}

/// Whether a token is a floating-point literal.
pub fn check_float_literal(token: &[char]) -> (r: bool)
    ensures
        r == is_float_literal(token@),
{
    let n: usize = token.len();
    let start: usize = if n > 0 && (token[0] == '+' || token[0] == '-') {
        1
    } else {
        0
    };
    let body = slice_subrange(token, start, n);
    check_decimal(body) || check_special(body)
}

} // verus!
