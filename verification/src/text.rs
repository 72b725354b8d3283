//! Decimal text: writing an unsigned integer, and reading one.

use vstd::prelude::*;
use vstd::string::{is_ascii, StrSliceExecFns, StringExecFns};

verus! {

/// The character of a decimal digit.
pub open spec fn digit_char(d: nat) -> char
    recommends
        d < 10,
{
    if d == 0 {
        '0'
    } else if d == 1 {
        '1'
    } else if d == 2 {
        '2'
    } else if d == 3 {
        '3'
    } else if d == 4 {
        '4'
    } else if d == 5 {
        '5'
    } else if d == 6 {
        '6'
    } else if d == 7 {
        '7'
    } else if d == 8 {
        '8'
    } else {
        '9'
    }
}

/// The decimal numeral of `n`, without sign or leading zeros.
pub open spec fn decimal(n: nat) -> Seq<char>
    decreases n,
{
    if n < 10 {
        seq![digit_char(n)]
    } else {
        decimal(n / 10).push(digit_char(n % 10))
    }
}

/// `c` is one of the characters `'0'` to `'9'`.
pub open spec fn is_digit(c: char) -> bool {
    '0' <= c <= '9'
}

/// Every character of `s` is a decimal digit.
pub open spec fn all_digits(s: Seq<char>) -> bool {
    forall|i: int| 0 <= i < s.len() ==> is_digit(#[trigger] s[i])
}

/// The number that a sequence of digits denotes; zero for the empty sequence.
pub open spec fn digits_number(s: Seq<char>) -> nat
    decreases s.len(),
{
    if s.len() == 0 {
        0
    } else {
        (10 * digits_number(s.drop_last()) + (s.last() as u32 - '0' as u32)) as nat
    }
}

/// The digits of a numeral: what follows one optional leading `'+'`.
pub open spec fn numeral_digits(s: Seq<char>) -> Seq<char> {
    if s.len() > 0 && s[0] == '+' {
        s.subrange(1, s.len() as int)
    } else {
        s
    }
}

/// The value of `s` read as an unsigned 32-bit integer: one optional `'+'`,
/// then at least one decimal digit and nothing else, denoting a number that
/// fits. `None` for any other text.
pub open spec fn parse_u32_spec(s: Seq<char>) -> Option<u32> {
    let digits = numeral_digits(s);
    if digits.len() > 0 && all_digits(digits) && digits_number(digits) <= u32::MAX {
        Some(digits_number(digits) as u32)
    } else {
        None
    }
}

/// A prefix of a sequence of digits denotes no more than the whole.
proof fn lemma_prefix_number(s: Seq<char>, k: int)
    requires
        0 <= k <= s.len(),
        all_digits(s),
    ensures
        digits_number(s.subrange(0, k)) <= digits_number(s),
    decreases s.len() - k,
{
    if k == s.len() {
        assert(s.subrange(0, k) =~= s);
    } else {
        lemma_prefix_number(s, k + 1);
        let longer = s.subrange(0, k + 1);
        assert(longer.drop_last() =~= s.subrange(0, k));
        assert(is_digit(s[k]));
        assert(longer.last() == s[k]);
    }
}

/// The text of one decimal digit.
fn digit_str(d: u32) -> (out: &'static str)
    requires
        d < 10,
    ensures
        out@ == seq![digit_char(d as nat)],
{
    proof {
        reveal_strlit("0");
        reveal_strlit("1");
        reveal_strlit("2");
        reveal_strlit("3");
        reveal_strlit("4");
        reveal_strlit("5");
        reveal_strlit("6");
        reveal_strlit("7");
        reveal_strlit("8");
        reveal_strlit("9");
    }
    let out = if d == 0 {
        "0"
    } else if d == 1 {
        "1"
    } else if d == 2 {
        "2"
    } else if d == 3 {
        "3"
    } else if d == 4 {
        "4"
    } else if d == 5 {
        "5"
    } else if d == 6 {
        "6"
    } else if d == 7 {
        "7"
    } else if d == 8 {
        "8"
    } else {
        "9"
    };
    assert(out@ =~= seq![digit_char(d as nat)]);
    out
}

/// Writes `n` as a decimal numeral.
pub fn decimal_string(n: u32) -> (out: String)
    ensures
        out@ == decimal(n as nat),
    decreases n,
{
    if n < 10 {
        String::from_str(digit_str(n))
    } else {
        let out = decimal_string(n / 10).concat(digit_str(n % 10));
        assert(out@ =~= decimal(n as nat));
        out
    }
}

/// Reads `s` as an unsigned 32-bit decimal integer.
pub fn parse_u32(s: &str) -> (out: Option<u32>)
    ensures
        out == parse_u32_spec(s@),
{
    if !s.is_ascii() {
        proof {
            let i = choose|i: int| 0 <= i < s@.len() && !('\0' <= #[trigger] s@[i] <= '\u{7f}');
            let digits = numeral_digits(s@);
            if s@[0] == '+' {
                assert(i > 0);
                assert(digits[i - 1] == s@[i]);
                assert(!is_digit(digits[i - 1]));
            } else {
                assert(!is_digit(digits[i]));
            }
        }
        return None;
    }
    let len: usize = s.unicode_len();
    let start: usize = if len > 0 && s.get_ascii(0) == 43 {
        1
    } else {
        0
    };
    let ghost digits = numeral_digits(s@);
    proof {
        if len > 0 {
            let first = s@[0];
            assert('\0' <= first <= '\u{7f}');
            assert(first as u8 == 43 <==> first == '+');
        }
        assert(digits =~= s@.subrange(start as int, len as int));
    }
    if start == len {
        return None;
    }
    let mut acc: u32 = 0;
    let mut i: usize = start;
    while i < len
        invariant
            is_ascii(s),
            len == s@.len(),
            start <= i <= len,
            digits == numeral_digits(s@),
            digits == s@.subrange(start as int, len as int),
            all_digits(digits.subrange(0, i - start)),
            acc == digits_number(digits.subrange(0, i - start)),
        decreases len - i,
    {
        let b: u8 = s.get_ascii(i);
        let ghost c = s@[i as int];
        assert(digits[i - start] == c);
        assert('\0' <= c <= '\u{7f}');
        assert(c as u32 == b);
        if b < 48 || b > 57 {
            assert(!is_digit(c));
            return None;
        }
        let ghost longer = digits.subrange(0, i - start + 1);
        assert(longer.drop_last() =~= digits.subrange(0, i - start));
        assert(longer.last() == c);
        assert(is_digit(c));
        assert(all_digits(longer)) by {
            assert forall|j: int| 0 <= j < longer.len() implies is_digit(#[trigger] longer[j]) by {
                if j < i - start {
                    assert(digits.subrange(0, i - start)[j] == longer[j]);
                }
            }
        }
        let next: u64 = acc as u64 * 10 + (b - 48) as u64;
        assert(next == digits_number(longer));
        if next > 0xffff_ffff {
            proof {
                if all_digits(digits) {
                    lemma_prefix_number(digits, i - start + 1);
                }
            }
            return None;
        }
        acc = next as u32;
        i = i + 1;
    }
    assert(digits.subrange(0, len - start) =~= digits);
    Some(acc)
}

} // verus!
