//! Decimal numerals: writing and reading integers.

use crate::text::chars_of;
use vstd::prelude::*;

verus! {

/// The character of the decimal digit `d`.
pub open spec fn digit_char(d: nat) -> char {
    (48 + d) as char
}

/// The decimal numeral of `n`, without leading zeros.
pub open spec fn decimal(n: nat) -> Seq<char>
    decreases n,
{
    if n < 10 {
        seq![digit_char(n)]
    } else {
        decimal(n / 10).push(digit_char(n % 10))
    }
}

/// The decimal numeral of `n`, with a sign where it is negative.
pub open spec fn signed_decimal(n: int) -> Seq<char> {
    if n < 0 {
        seq!['-'] + decimal((-n) as nat)
    } else {
        decimal(n as nat)
    }
}

/// The decimal numeral of `n`, with one leading zero where it has a single digit.
pub open spec fn two_digits(n: nat) -> Seq<char> {
    if n < 10 {
        seq!['0'] + decimal(n)
    } else {
        decimal(n)
    }
}

/// `c` is a decimal digit.
pub open spec fn is_digit(c: char) -> bool {
    '0' <= c <= '9'
}

/// Every character of `s` is a decimal digit.
pub open spec fn all_digits(s: Seq<char>) -> bool {
    forall|i: int| 0 <= i < s.len() ==> is_digit(#[trigger] s[i])
}

/// The number that the digits of `s` write.
pub open spec fn digits_value(s: Seq<char>) -> nat
    decreases s.len(),
{
    if s.len() == 0 {
        0
    } else {
        (digits_value(s.drop_last()) * 10 + (s.last() as int - 48)) as nat
    }
}

/// The number that `s` writes, which is at most `max`: one or more digits, after an optional plus
/// sign.
pub open spec fn unsigned_numeral(s: Seq<char>, max: nat) -> Option<nat> {
    let digits = if s.len() > 0 && s[0] == '+' {
        s.drop_first()
    } else {
        s
    };
    if digits.len() > 0 && all_digits(digits) && digits_value(digits) <= max {
        Some(digits_value(digits))
    } else {
        None
    }
}

/// The number that `s` writes, which fits into 32 bits with a sign: one or more digits, after an
/// optional sign.
pub open spec fn signed_numeral(s: Seq<char>) -> Option<int> {
    if s.len() > 0 && s[0] == '-' {
        let digits = s.drop_first();
        if digits.len() > 0 && all_digits(digits) && digits_value(digits) <= 0x8000_0000 {
            Some(-(digits_value(digits) as int))
        } else {
            None
        }
    } else {
        match unsigned_numeral(s, 0x7fff_ffff) {
            Some(n) => Some(n as int),
            None => None,
        }
    }
}

// ---------------------------------------------------------------------------------------------
// Lemmas

proof fn lemma_digits_value_take(s: Seq<char>, k: int)
    requires
        0 <= k < s.len(),
    ensures
        digits_value(s.take(k + 1)) == (digits_value(s.take(k)) * 10 + (s[k] as int - 48)) as nat,
{
    assert(s.take(k + 1).drop_last() =~= s.take(k));
}

/// A longer run of digits writes no smaller number.
proof fn lemma_digits_value_monotone(s: Seq<char>, k: int)
    requires
        0 <= k <= s.len(),
        all_digits(s),
    ensures
        digits_value(s.take(k)) <= digits_value(s),
    decreases s.len() - k,
{
    if k == s.len() {
        assert(s.take(k) =~= s);
    } else {
        lemma_digits_value_monotone(s, k + 1);
        lemma_digits_value_take(s, k);
        assert(is_digit(s[k]));
    }
}

/// Reading the decimal numeral of a number gives the number back.
pub proof fn lemma_decimal_reads_back(n: nat)
    ensures
        decimal(n).len() > 0,
        all_digits(decimal(n)),
        digits_value(decimal(n)) == n,
    decreases n,
{
    if n < 10 {
        let s = decimal(n);
        assert(s.drop_last() =~= seq![]);
        assert(digits_value(s.drop_last()) == 0);
    } else {
        lemma_decimal_reads_back(n / 10);
        let s = decimal(n);
        assert(s.drop_last() =~= decimal(n / 10));
        assert forall|i: int| 0 <= i < s.len() implies is_digit(#[trigger] s[i]) by {
            if i < s.len() - 1 {
                assert(s[i] == decimal(n / 10)[i]);
            }
        }
    }
}

// ---------------------------------------------------------------------------------------------
// Executable functions

/// The character of the decimal digit `d`.
pub fn digit_char_of(d: u64) -> (c: char)
    requires
        d < 10,
    ensures
        c == digit_char(d as nat),
{
    match d {
        0 => '0',
        1 => '1',
        2 => '2',
        3 => '3',
        4 => '4',
        5 => '5',
        6 => '6',
        7 => '7',
        8 => '8',
        _ => '9',
    }
}

/// The decimal numeral of `n`.
pub fn decimal_of(n: u64) -> (out: String)
    ensures
        out@ == decimal(n as nat),
    decreases n,
{
    if n < 10 {
        let mut out: String = String::new();
        out.push(digit_char_of(n));
        out
    } else {
        let mut out: String = decimal_of(n / 10);
        out.push(digit_char_of(n % 10));
        out
    }
}

/// The decimal numeral of `n`, with a sign where it is negative.
pub fn signed_decimal_of(n: i32) -> (out: String)
    ensures
        out@ == signed_decimal(n as int),
{
    let wide: i64 = n as i64;
    if wide < 0 {
        let mut out: String = String::new();
        out.push('-');
        out.append(decimal_of((-wide) as u64).as_str());
        out
    } else {
        decimal_of(wide as u64)
    }
}

/// The decimal numeral of `n`, with one leading zero where it has a single digit.
pub fn two_digits_of(n: u64) -> (out: String)
    ensures
        out@ == two_digits(n as nat),
{
    if n < 10 {
        let mut out: String = String::new();
        out.push('0');
        out.append(decimal_of(n).as_str());
        out
    } else {
        decimal_of(n)
    }
}

/// The value of the decimal digit `c`.
fn digit_value_of(c: char) -> (d: u64)
    requires
        is_digit(c),
    ensures
        d == c as int - 48,
{
    match c {
        '0' => 0,
        '1' => 1,
        '2' => 2,
        '3' => 3,
        '4' => 4,
        '5' => 5,
        '6' => 6,
        '7' => 7,
        '8' => 8,
        _ => 9,
    }
}

/// The number that the characters of `s` from `from` on write, where they are one or more digits
/// and the number is at most `max`.
fn read_digits(s: &Vec<char>, from: usize, max: u64) -> (r: Option<u64>)
    requires
        from <= s@.len(),
    ensures
        ({
            let digits = s@.skip(from as int);
            let good = digits.len() > 0 && all_digits(digits) && digits_value(digits) <= max;
            &&& r is Some <==> good
            &&& r matches Some(n) ==> n == digits_value(digits)
        }),
{
    let ghost digits = s@.skip(from as int);
    if from == s.len() {
        return None;
    }
    let mut i: usize = from;
    let mut n: u64 = 0;
    assert(digits.take(0) =~= seq![]);
    while i < s.len()
        invariant
            from <= i <= s@.len(),
            digits == s@.skip(from as int),
            forall|k: int| 0 <= k < i - from ==> is_digit(#[trigger] digits[k]),
            n == digits_value(digits.take(i - from)),
            n <= max,
        decreases s@.len() - i,
    {
        let c: char = s[i];
        assert(digits[i - from] == c);
        if !('0' <= c && c <= '9') {
            return None;
        }
        let d: u64 = digit_value_of(c);
        proof {
            lemma_digits_value_take(digits, i - from);
            if all_digits(digits) {
                lemma_digits_value_monotone(digits, i - from + 1);
            }
        }
        if n > max / 10 {
            return None;
        }
        let tens: u64 = n * 10;
        if d > max - tens {
            return None;
        }
        n = tens + d;
        i = i + 1;
    }
    assert(digits.take(i - from) =~= digits);
    Some(n)
}

/// Reads an unsigned numeral of at most `max`.
fn parse_unsigned(s: &str, max: u64) -> (r: Option<u64>)
    ensures
        r is Some <==> unsigned_numeral(s@, max as nat) is Some,
        r matches Some(n) ==> unsigned_numeral(s@, max as nat) == Some(n as nat),
{
    let a: Vec<char> = chars_of(s);
    if a.len() > 0 && a[0] == '+' {
        assert(a@.skip(1) =~= a@.drop_first());
        read_digits(&a, 1, max)
    } else {
        assert(a@.skip(0) =~= a@);
        read_digits(&a, 0, max)
    }
}

/// Reads a `u64`.
pub fn parse_u64(s: &str) -> (r: Option<u64>)
    ensures
        r is Some <==> unsigned_numeral(s@, u64::MAX as nat) is Some,
        r matches Some(n) ==> unsigned_numeral(s@, u64::MAX as nat) == Some(n as nat),
{
    parse_unsigned(s, u64::MAX)
}

/// Reads a `u32`.
pub fn parse_u32(s: &str) -> (r: Option<u32>)
    ensures
        r is Some <==> unsigned_numeral(s@, u32::MAX as nat) is Some,
        r matches Some(n) ==> unsigned_numeral(s@, u32::MAX as nat) == Some(n as nat),
{
    match parse_unsigned(s, 0xffff_ffff) {
        Some(n) => Some(n as u32),
        None => None,
    }
}

/// Reads an `i32`.
pub fn parse_i32(s: &str) -> (r: Option<i32>)
    ensures
        r is Some <==> signed_numeral(s@) is Some,
        r matches Some(n) ==> signed_numeral(s@) == Some(n as int),
{
    let a: Vec<char> = chars_of(s);
    if a.len() > 0 && a[0] == '-' {
        assert(a@.skip(1) =~= a@.drop_first());
        match read_digits(&a, 1, 0x8000_0000) {
            Some(n) => Some((-(n as i64)) as i32),
            None => None,
        }
    } else {
        match parse_unsigned(s, 0x7fff_ffff) {
            Some(n) => Some(n as i32),
            None => None,
        }
    }
}

/// A digit writes itself, and a number is written as its tenth followed by its last digit.
pub proof fn law_decimal(n: nat, d: nat)
    requires
        d < 10,
    ensures
        decimal(d) == seq![('0' as nat + d) as char],
        n > 0 ==> decimal(10 * n + d) == decimal(n).push(('0' as nat + d) as char),
        n < 10 ==> two_digits(10 * n + d) == seq![('0' as nat + n) as char, ('0' as nat + d) as char],
        signed_decimal(n as int) == decimal(n),
        n > 0 ==> signed_decimal(-(n as int)) == seq!['-'] + decimal(n),
{
    if n > 0 {
        assert((10 * n + d) / 10 == n && (10 * n + d) % 10 == d);
    }
    if n < 10 {
        assert(decimal(d) =~= seq![('0' as nat + d) as char]);
        assert(decimal(n) =~= seq![('0' as nat + n) as char]);
        assert(two_digits(10 * n + d) =~= seq![
            ('0' as nat + n) as char,
            ('0' as nat + d) as char,
        ]);
    }
}

/// What was written is read back, up to the largest number that is asked for, with or without a
/// plus; with a minus only where negative numbers are.
pub proof fn law_numeral_reads_back(n: nat, max: nat)
    ensures
        n <= max ==> unsigned_numeral(decimal(n), max) == Some(n),
        n <= max ==> unsigned_numeral(seq!['+'] + decimal(n), max) == Some(n),
        n > max ==> unsigned_numeral(decimal(n), max) is None,
        unsigned_numeral(seq!['-'] + decimal(n), max) is None,
        n <= 2_147_483_647 ==> signed_numeral(decimal(n)) == Some(n as int),
        n > 2_147_483_647 ==> signed_numeral(decimal(n)) is None,
        n <= 2_147_483_648 ==> signed_numeral(seq!['-'] + decimal(n)) == Some(-(n as int)),
        n > 2_147_483_648 ==> signed_numeral(seq!['-'] + decimal(n)) is None,
{
    lemma_decimal_reads_back(n);
    let s = decimal(n);
    assert(is_digit(s[0]));
    assert((seq!['+'] + s).drop_first() =~= s);
    assert((seq!['-'] + s).drop_first() =~= s);
    assert(!is_digit((seq!['-'] + s)[0]));
}

/// Leading zeros do not count, and every further digit weighs a tenth of the one before it.
pub proof fn law_digits_weigh(s: Seq<char>, d: nat, max: nat)
    requires
        d < 10,
    ensures
        unsigned_numeral(s, max) matches Some(n) ==> (10 * n + d <= max ==> unsigned_numeral(
            s.push(('0' as nat + d) as char),
            max,
        ) == Some((10 * n + d) as nat)),
        s.len() > 0 && '0' <= s[0] <= '9' && unsigned_numeral(s, max) is Some ==> unsigned_numeral(
            seq!['0'] + s,
            max,
        ) == unsigned_numeral(s, max),
{
    let c = ('0' as nat + d) as char;
    assert(s.push(c).drop_last() =~= s);
    if s.len() > 0 {
        assert(s.push(c)[0] == s[0]);
        assert(s.push(c).drop_first() =~= s.drop_first().push(c));
        assert(s.drop_first().push(c).drop_last() =~= s.drop_first());
        let z = seq!['0'] + s;
        assert(z.drop_first() =~= s);
        lemma_leading_zero(s);
        if all_digits(s) {
            assert forall|i: int| 0 <= i < z.len() implies is_digit(#[trigger] z[i]) by {
                if i > 0 {
                    assert(is_digit(s[i - 1]));
                }
            }
        }
    }
}

proof fn lemma_leading_zero(s: Seq<char>)
    ensures
        digits_value(seq!['0'] + s) == digits_value(s),
    decreases s.len(),
{
    let z = seq!['0'] + s;
    if s.len() == 0 {
        assert(z.drop_last() =~= seq![]);
        assert(digits_value(z.drop_last()) == 0);
        assert(z.last() == '0');
        assert(digits_value(s) == 0);
    } else {
        lemma_leading_zero(s.drop_last());
        assert(z.drop_last() =~= seq!['0'] + s.drop_last());
    }
}

/// A text with anything but digits behind its first character, or without any digit, is no number.
pub proof fn law_not_a_numeral(s: Seq<char>, i: int, max: nat)
    ensures
        s.len() == 0 ==> unsigned_numeral(s, max) is None && signed_numeral(s) is None,
        0 < i < s.len() && !('0' <= s[i] <= '9') ==> unsigned_numeral(s, max) is None
            && signed_numeral(s) is None,
        s.len() > 0 && !('0' <= s[0] <= '9') && s[0] != '+' ==> unsigned_numeral(s, max) is None,
        s.len() > 0 && !('0' <= s[0] <= '9') && s[0] != '+' && s[0] != '-' ==> signed_numeral(
            s,
        ) is None,
        s.len() == 1 && !('0' <= s[0] <= '9') ==> unsigned_numeral(s, max) is None
            && signed_numeral(s) is None,
{
    if 0 < i < s.len() && !('0' <= s[i] <= '9') {
        assert(!is_digit(s[i]));
        assert(s.drop_first()[i - 1] == s[i]);
        assert(!is_digit(s.drop_first()[i - 1]));
    }
    if s.len() > 0 {
        assert(!('0' <= s[0] <= '9') ==> !is_digit(s[0]));
    }
}

} // verus!
