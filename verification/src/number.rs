//! Numbers written out as decimal text, and read back.
use vstd::prelude::*;

use crate::text::chars_of;

verus! {

pub open spec fn digit_char(d: nat) -> char {
    ('0' as u32 + d) as char
}

pub open spec fn is_digit(c: char) -> bool {
    '0' <= c && c <= '9'
}

/// A natural number in decimal, without leading zeros.
pub open spec fn decimal_nat(n: nat) -> Seq<char>
    decreases n,
{
    if n < 10 {
        seq![digit_char(n)]
    } else {
        decimal_nat(n / 10).push(digit_char(n % 10))
    }
}

/// An integer in decimal, with a minus sign if it is negative.
pub open spec fn decimal_int(n: int) -> Seq<char> {
    if n < 0 {
        seq!['-'] + decimal_nat((-n) as nat)
    } else {
        decimal_nat(n as nat)
    }
}

pub fn decimal(n: u64) -> (r: String)
    ensures
        r@ == decimal_nat(n as nat),
    decreases n,
{
    let digit = (48u8 + (n % 10) as u8) as char;
    if n < 10 {
        let mut out = String::new();
        out.push(digit);
        assert(out@ == seq![digit_char(n as nat)]);
        out
    } else {
        let mut out = decimal(n / 10);
        out.push(digit);
        out
    }
}

pub fn decimal_signed(n: i64) -> (r: String)
    ensures
        r@ == decimal_int(n as int),
{
    if n < 0 {
        let mut out = String::new();
        out.push('-');
        let rest = decimal((-(n as i128)) as u64);
        out.append(rest.as_str());
        assert(out@ == seq!['-'] + rest@);
        out
    } else {
        decimal(n as u64)
    }
}

/// The value of a digit; other characters count as zero.
pub open spec fn digit_value(c: char) -> nat {
    if is_digit(c) {
        (c as u32 - '0' as u32) as nat
    } else {
        0
    }
}

pub open spec fn digits_value(s: Seq<char>) -> nat
    decreases s.len(),
{
    if s.len() == 0 {
        0
    } else {
        digits_value(s.drop_last()) * 10 + digit_value(s.last())
    }
}

pub open spec fn all_digits(s: Seq<char>) -> bool {
    forall|i: int| 0 <= i < s.len() ==> is_digit(#[trigger] s[i])
}

/// The number that one or more digits spell, if it is at most `max`.
pub open spec fn digits_up_to(s: Seq<char>, max: nat) -> Option<nat> {
    if s.len() > 0 && all_digits(s) && digits_value(s) <= max {
        Some(digits_value(s))
    } else {
        None
    }
}

/// An unsigned number up to `max`: digits, with at most a plus sign in front.
pub open spec fn unsigned_value(s: Seq<char>, max: nat) -> Option<nat> {
    if s.len() > 0 && s[0] == '+' {
        digits_up_to(s.drop_first(), max)
    } else {
        digits_up_to(s, max)
    }
}

/// A number that fits in 64 bits with a sign: digits, with at most one sign
/// in front.
pub open spec fn signed_value(s: Seq<char>) -> Option<int> {
    if s.len() > 0 && s[0] == '-' {
        match digits_up_to(s.drop_first(), 0x8000_0000_0000_0000) {
            Some(n) => Some(-(n as int)),
            None => None,
        }
    } else {
        match unsigned_value(s, 0x7fff_ffff_ffff_ffff) {
            Some(n) => Some(n as int),
            None => None,
        }
    }
}

proof fn lemma_digits_value_grows(s: Seq<char>, i: int)
    requires
        0 <= i <= s.len(),
    ensures
        digits_value(s.take(i)) <= digits_value(s),
    decreases s.len() - i,
{
    if i == s.len() {
        assert(s.take(i) == s);
    } else {
        lemma_digits_value_grows(s, i + 1);
        assert(s.take(i + 1).drop_last() == s.take(i));
    }
}

/// Read the digits from `from` to the end.
pub fn parse_digits(chars: &Vec<char>, from: usize, max: u64) -> (r: Option<u64>)
    requires
        from <= chars.len(),
    ensures
        match r {
            Some(n) => digits_up_to(chars@.skip(from as int), max as nat) == Some(n as nat),
            None => digits_up_to(chars@.skip(from as int), max as nat) is None,
        },
{
    let ghost s = chars@.skip(from as int);
    if from == chars.len() {
        return None;
    }
    let mut acc: u64 = 0;
    let mut i: usize = from;
    while i < chars.len()
        invariant
            from <= i <= chars.len(),
            from < chars.len(),
            s == chars@.skip(from as int),
            acc == digits_value(s.take(i - from)),
            acc <= max,
            forall|j: int| 0 <= j < i - from ==> is_digit(#[trigger] s[j]),
        decreases chars.len() - i,
    {
        let c = chars[i];
        assert(s[i - from] == c);
        if !(c >= '0' && c <= '9') {
            assert(!is_digit(s[i - from]));
            return None;
        }
        let wide: u128 = acc as u128 * 10 + (c as u8 - 48u8) as u128;
        proof {
            assert(s.take(i + 1 - from).drop_last() == s.take(i - from));
            assert(wide == digits_value(s.take(i + 1 - from)));
            lemma_digits_value_grows(s, i + 1 - from);
        }
        if wide > max as u128 {
            return None;
        }
        acc = wide as u64;
        i += 1;
    }
    assert(s.take(s.len() as int) == s);
    Some(acc)
}

pub fn parse_unsigned(text: &str, max: u64) -> (r: Option<u64>)
    ensures
        match r {
            Some(n) => unsigned_value(text@, max as nat) == Some(n as nat),
            None => unsigned_value(text@, max as nat) is None,
        },
{
    let chars = chars_of(text);
    assert(chars@.skip(0) == chars@);
    assert(chars@.len() > 0 ==> chars@.skip(1) == chars@.drop_first());
    if chars.len() > 0 && chars[0] == '+' {
        parse_digits(&chars, 1, max)
    } else {
        parse_digits(&chars, 0, max)
    }
}

pub fn parse_signed(text: &str) -> (r: Option<i64>)
    ensures
        match r {
            Some(n) => signed_value(text@) == Some(n as int),
            None => signed_value(text@) is None,
        },
{
    let chars = chars_of(text);
    assert(chars@.len() > 0 ==> chars@.skip(1) == chars@.drop_first());
    if chars.len() > 0 && chars[0] == '-' {
        match parse_digits(&chars, 1, 0x8000_0000_0000_0000) {
            Some(n) => Some((-(n as i128)) as i64),
            None => None,
        }
    } else {
        match parse_unsigned(text, 0x7fff_ffff_ffff_ffff) {
            Some(n) => Some(n as i64),
            None => None,
        }
    }
}

proof fn lemma_decimal_reads_back(n: nat)
    ensures
        decimal_nat(n).len() > 0,
        all_digits(decimal_nat(n)),
        digits_value(decimal_nat(n)) == n,
    decreases n,
{
    if n >= 10 {
        lemma_decimal_reads_back(n / 10);
        let head = decimal_nat(n / 10);
        let whole = decimal_nat(n);
        assert(whole.drop_last() == head);
        assert(whole.last() == digit_char(n % 10));
        assert forall|i: int| 0 <= i < whole.len() implies is_digit(#[trigger] whole[i]) by {
            if i < head.len() {
                assert(whole[i] == head[i]);
            }
        }
    } else {
        let whole = decimal_nat(n);
        assert(whole.drop_last() == Seq::<char>::empty());
        assert(whole.last() == digit_char(n));
        reveal_with_fuel(digits_value, 2);
    }
}

/// A 64-bit number that is written out is read back as itself.
pub proof fn decimal_round_trip(n: int)
    requires
        -0x8000_0000_0000_0000 <= n <= 0x7fff_ffff_ffff_ffff,
    ensures
        signed_value(decimal_int(n)) == Some(n),
{
    if n < 0 {
        lemma_decimal_reads_back((-n) as nat);
        let s = decimal_int(n);
        assert(s.drop_first() == decimal_nat((-n) as nat));
    } else {
        lemma_decimal_reads_back(n as nat);
        let s = decimal_int(n);
        assert(is_digit(s[0]));
    }
}

/// A number is written in base ten, with the most significant digit first and
/// nothing in front of it.
pub proof fn numbers_are_written_in_base_ten(n: nat, d: nat)
    requires
        d < 10,
    ensures
        decimal_nat(d) == seq![('0' as u32 + d) as char],
        n > 0 ==> decimal_nat(n * 10 + d) == decimal_nat(n).push(('0' as u32 + d) as char),
        n > 0 ==> decimal_int(-(n as int)) == seq!['-'] + decimal_nat(n),
        decimal_int(n as int) == decimal_nat(n),
{
    if n > 0 {
        assert((n * 10 + d) / 10 == n);
        assert((n * 10 + d) % 10 == d);
    }
}

/// What is read is what was written, up to the largest number allowed, with or
/// without a plus sign; beyond that, and for anything but digits, nothing is.
pub proof fn numbers_are_read_back(n: nat, max: nat, s: Seq<char>, i: int)
    ensures
        n <= max ==> unsigned_value(decimal_nat(n), max) == Some(n),
        n > max ==> unsigned_value(decimal_nat(n), max) is None,
        n <= max ==> unsigned_value(seq!['+'] + decimal_nat(n), max) == Some(n),
        unsigned_value(Seq::<char>::empty(), max) is None,
        0 < i < s.len() && !('0' <= s[i] && s[i] <= '9') ==> unsigned_value(s, max) is None,
{
    lemma_decimal_reads_back(n);
    let w = decimal_nat(n);
    assert(is_digit(w[0]));
    assert((seq!['+'] + w).drop_first() =~= w);
    if 0 < i < s.len() && !is_digit(s[i]) {
        let t = s.drop_first();
        assert(t[i - 1] == s[i]);
    }
}

} // verus!
