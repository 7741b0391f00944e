//! Decimal numbers as text.
use vstd::prelude::*;

use crate::text::{chars_of, string_of};

verus! {

/// Is the character one of `0` to `9`?
pub open spec fn is_digit(c: char) -> bool {
    '0' <= c <= '9'
}

/// Does the text hold digits only?
pub open spec fn all_digits(s: Seq<char>) -> bool {
    forall|i: int| 0 <= i < s.len() ==> is_digit(#[trigger] s[i])
}

/// The number that the digits write.
pub open spec fn digits_value(s: Seq<char>) -> nat
    decreases s.len(),
{
    if s.len() == 0 {
        0
    } else {
        digits_value(s.drop_last()) * 10 + (s.last() as u32 - '0' as u32) as nat
    }
}

/// What a text reads as when an unsigned number up to `max` is wanted: one or more digits,
/// perhaps after a `+`.
pub open spec fn unsigned(s: Seq<char>, max: nat) -> Option<nat> {
    let digits = if s.len() > 0 && s[0] == '+' {
        s.subrange(1, s.len() as int)
    } else {
        s
    };
    if digits.len() > 0 && all_digits(digits) && digits_value(digits) <= max {
        Some(digits_value(digits))
    } else {
        None
    }
}

/// [`unsigned`] for 64 bits.
pub open spec fn u64_in(s: Seq<char>) -> Option<nat> {
    unsigned(s, u64::MAX as nat)
}

/// [`unsigned`] for 32 bits.
pub open spec fn u32_in(s: Seq<char>) -> Option<nat> {
    unsigned(s, u32::MAX as nat)
}

proof fn lemma_digits_grow(s: Seq<char>, n: int)
    requires
        0 <= n <= s.len(),
        all_digits(s),
    ensures
        digits_value(s.subrange(0, n)) <= digits_value(s),
    decreases s.len(),
{
    if n == s.len() {
        assert(s.subrange(0, n) =~= s);
    } else {
        let shorter = s.drop_last();
        assert forall|i: int| 0 <= i < shorter.len() implies is_digit(#[trigger] shorter[i]) by {
            assert(shorter[i] == s[i]);
        }
        lemma_digits_grow(shorter, n);
        assert(shorter.subrange(0, n) =~= s.subrange(0, n));
        assert(is_digit(s[s.len() - 1]));
    }
}

/// Reads an unsigned number of 64 bits.
pub fn parse_u64(chars: &[char]) -> (r: Option<u64>)
    ensures
        (r matches Some(n) ==> u64_in(chars@) == Some(n as nat)),
        r is None ==> u64_in(chars@) is None,
{
    let start: usize = if chars.len() > 0 && chars[0] == '+' {
        1
    } else {
        0
    };
    let ghost digits = chars@.subrange(start as int, chars@.len() as int);
    proof {
        assert(chars@.subrange(0, chars@.len() as int) =~= chars@);
    }
    if start == chars.len() {
        return None;
    }
    let mut value: u64 = 0;
    let mut i: usize = start;
    while i < chars.len()
        invariant
            start <= i <= chars@.len(),
            start < chars@.len(),
            start == (if chars@.len() > 0 && chars@[0] == '+' {
                1int
            } else {
                0int
            }),
            digits == chars@.subrange(start as int, chars@.len() as int),
            chars@.subrange(0, chars@.len() as int) == chars@,
            forall|j: int| start <= j < i ==> is_digit(chars@[j]),
            value == digits_value(digits.subrange(0, i - start)),
        decreases chars@.len() - i,
    {
        let c = chars[i];
        proof {
            assert(digits[i - start] == c);
        }
        if c < '0' || c > '9' {
            proof {
                assert(!is_digit(digits[i - start]));
            }
            return None;
        }
        let d: u64 = (c as u32 - '0' as u32) as u64;
        proof {
            let longer = digits.subrange(0, i + 1 - start);
            assert(longer.drop_last() =~= digits.subrange(0, i - start));
            assert(digits_value(longer) == value * 10 + d);
            if value * 10 + d > u64::MAX && all_digits(digits) {
                lemma_digits_grow(digits, i + 1 - start);
            }
        }
        match value.checked_mul(10) {
            None => {
                return None;
            },
            Some(tens) => {
                match tens.checked_add(d) {
                    None => {
                        return None;
                    },
                    Some(next) => {
                        value = next;
                    },
                }
            },
        }
        i += 1;
    }
    proof {
        assert(digits.subrange(0, digits.len() as int) =~= digits);
        assert forall|j: int| 0 <= j < digits.len() implies is_digit(#[trigger] digits[j]) by {
            assert(digits[j] == chars@[start + j]);
        }
    }
    Some(value)
}

/// Reads an unsigned number of 32 bits.
pub fn parse_u32(chars: &[char]) -> (r: Option<u32>)
    ensures
        (r matches Some(n) ==> u32_in(chars@) == Some(n as nat)),
        r is None ==> u32_in(chars@) is None,
{
    match parse_u64(chars) {
        Some(n) => {
            if n <= 0xffff_ffff {
                Some(n as u32)
            } else {
                None
            }
        },
        None => None,
    }
}

/// The digits of a number, most significant first.
pub open spec fn decimal(n: nat) -> Seq<char>
    decreases n,
{
    if n < 10 {
        seq![digit_char(n)]
    } else {
        decimal(n / 10).push(digit_char(n % 10))
    }
}

/// The character of one digit.
pub open spec fn digit_char(d: nat) -> char {
    (48 + d) as char
}

/// Writes a number in decimal.
pub fn decimal_chars(n: u64) -> (r: Vec<char>)
    ensures
        r@ == decimal(n as nat),
    decreases n,
{
    let d: u8 = (n % 10) as u8;
    let c: char = (48 + d) as char;
    if n < 10 {
        let mut out: Vec<char> = Vec::new();
        out.push(c);
        proof {
            assert(out@ =~= decimal(n as nat));
        }
        out
    } else {
        let mut out = decimal_chars(n / 10);
        out.push(c);
        out
    }
}

/// [`decimal_chars`] as a text.
pub fn decimal_text(n: u64) -> (r: String)
    ensures
        r@ == decimal(n as nat),
{
    string_of(&decimal_chars(n))
}

/// The decimal form of a number holds digits only, at least one, and writes that number.
pub proof fn decimal_reads_back(n: nat)
    ensures
        decimal(n).len() > 0,
        all_digits(decimal(n)),
        digits_value(decimal(n)) == n,
    decreases n,
{
    let s = decimal(n);
    if n < 10 {
        assert(s.drop_last() =~= Seq::<char>::empty());
        assert(digits_value(s.drop_last()) == 0);
    } else {
        decimal_reads_back(n / 10);
        assert(s.drop_last() =~= decimal(n / 10));
        assert forall|i: int| 0 <= i < s.len() implies is_digit(#[trigger] s[i]) by {
            if i < s.len() - 1 {
                assert(s[i] == decimal(n / 10)[i]);
            }
        }
    }
}

/// A digit alone reads as its value, and each further digit makes ten times as much and that
/// digit, up to the largest number; a `+` may stand in front.
pub proof fn numbers_read_digit_by_digit(s: Seq<char>, c: char, max: nat)
    requires
        '0' <= c <= '9',
        max >= 9,
    ensures
        unsigned(seq![c], max) == Some((c as u32 - 48) as nat),
        s.len() > 0 && '0' <= s[0] <= '9' ==> unsigned(seq!['+'] + s, max) == unsigned(s, max),
        unsigned(s, max) matches Some(n) ==> unsigned(s.push(c), max) == (if 10 * n + (c as u32
            - 48) <= max {
            Some((10 * n + (c as u32 - 48)) as nat)
        } else {
            None
        }),
{
    let one = seq![c];
    assert(one.drop_last() =~= Seq::<char>::empty());
    assert(digits_value(one.drop_last()) == 0);
    assert(all_digits(one));
    let signed = seq!['+'] + s;
    assert(signed.subrange(1, signed.len() as int) =~= s);
    if unsigned(s, max) is Some {
        let digits = if s.len() > 0 && s[0] == '+' {
            s.subrange(1, s.len() as int)
        } else {
            s
        };
        let more = s.push(c);
        if s[0] == '+' {
            assert(more.subrange(1, more.len() as int) =~= digits.push(c));
        }
        assert(digits.push(c).drop_last() =~= digits);
        assert forall|i: int| 0 <= i < digits.push(c).len() implies is_digit(
            #[trigger] digits.push(c)[i],
        ) by {
            if i < digits.len() {
                assert(digits.push(c)[i] == digits[i]);
            }
        }
    }
}

/// What holds anything but digits, behind a `+` at the start, is no number, and neither is
/// nothing.
pub proof fn only_digits_make_a_number(s: Seq<char>, i: int, max: nat)
    ensures
        unsigned(Seq::empty(), max) is None,
        unsigned(seq!['+'], max) is None,
        0 <= i < s.len() && !('0' <= s[i] <= '9') && (i > 0 || s[0] != '+') ==> unsigned(s, max)
            is None,
{
    assert(seq!['+'].subrange(1, 1) =~= Seq::<char>::empty());
    if 0 <= i < s.len() && !('0' <= s[i] <= '9') && (i > 0 || s[0] != '+') {
        if s[0] == '+' {
            let digits = s.subrange(1, s.len() as int);
            assert(digits[i - 1] == s[i]);
            assert(!is_digit(digits[i - 1]));
        } else {
            assert(!is_digit(s[i]));
        }
    }
}

/// A number that is written in decimal reads back.
pub proof fn a_written_number_reads_back(n: nat, max: nat)
    ensures
        unsigned(decimal(n), max) == (if n <= max {
            Some(n)
        } else {
            None
        }),
{
    decimal_reads_back(n);
    assert(is_digit(decimal(n)[0]));
}

} // verus!
