//! Decimal numbers in text, and integers rounded as a binary double holds them.
use crate::text;
use vstd::arithmetic::div_mod::*;
use vstd::prelude::*;

verus! {

/// Whether a character is one of the ten ASCII digits.
pub open spec fn is_digit(c: char) -> bool {
    '0' <= c <= '9'
}

/// Whether all characters are digits.
pub open spec fn all_digits(s: Seq<char>) -> bool {
    forall|i: int| 0 <= i < s.len() ==> is_digit(#[trigger] s[i])
}

/// The number that a run of digits writes.
pub open spec fn digits_value(s: Seq<char>) -> nat
    decreases s.len(),
{
    if s.len() == 0 {
        0
    } else {
        digits_value(s.drop_last()) * 10 + (s.last() as nat - '0' as nat) as nat
    }
}

/// `s` without the `+` that may stand before a number.
pub open spec fn without_plus(s: Seq<char>) -> Seq<char> {
    if s.len() > 0 && s[0] == '+' {
        s.subrange(1, s.len() as int)
    } else {
        s
    }
}

/// The number that `s` writes as an unsigned integer of at most `max`: one digit or
/// more, with an optional `+` before them and nothing else.
pub open spec fn unsigned(s: Seq<char>, max: nat) -> Option<nat> {
    let d = without_plus(s);
    if d.len() > 0 && all_digits(d) && digits_value(d) <= max {
        Some(digits_value(d))
    } else {
        None
    }
}

/// The number that `s` writes as a signed integer from `min` to `max`.
pub open spec fn signed(s: Seq<char>, min: int, max: int) -> Option<int> {
    if s.len() > 0 && s[0] == '-' {
        let d = s.subrange(1, s.len() as int);
        if d.len() > 0 && all_digits(d) && -digits_value(d) >= min {
            Some(-digits_value(d))
        } else {
            None
        }
    } else {
        let d = without_plus(s);
        if d.len() > 0 && all_digits(d) && digits_value(d) <= max {
            Some(digits_value(d) as int)
        } else {
            None
        }
    }
}

/// The digit that writes `d`.
pub open spec fn digit(d: nat) -> char {
    ('0' as nat + d) as char
}

/// The decimal digits of `n`.
pub open spec fn decimal(n: nat) -> Seq<char>
    decreases n,
{
    if n < 10 {
        seq![digit(n)]
    } else {
        decimal(n / 10).push(digit(n % 10))
    }
}

/// `s` with zeros before it up to the length `width`.
pub open spec fn zero_padded(s: Seq<char>, width: nat) -> Seq<char>
    decreases width - s.len(),
{
    if s.len() >= width {
        s
    } else {
        zero_padded(seq!['0'] + s, width)
    }
}

/// A longer run of digits writes no smaller number.
proof fn lemma_digits_value_grows(s: Seq<char>, i: int)
    requires
        0 <= i <= s.len(),
    ensures
        digits_value(s.subrange(0, i)) <= digits_value(s),
    decreases s.len(),
{
    if i == s.len() {
        assert(s.subrange(0, i) =~= s);
    } else {
        lemma_digits_value_grows(s.drop_last(), i);
        assert(s.drop_last().subrange(0, i) =~= s.subrange(0, i));
    }
}

/// The number that the characters of `v` from `from` on write, where they are
/// digits and it is at most `u64::MAX`.
fn digits_from(v: &Vec<char>, from: usize) -> (res: Option<u64>)
    requires
        from <= v@.len(),
    ensures
        ({
            let d = v@.subrange(from as int, v@.len() as int);
            match res {
                Some(n) => d.len() > 0 && all_digits(d) && digits_value(d) == n,
                None => !(d.len() > 0 && all_digits(d) && digits_value(d) <= u64::MAX),
            }
        }),
{
    let n: usize = v.len();
    let ghost d = v@.subrange(from as int, n as int);
    if from == n {
        return None;
    }
    let mut value: u64 = 0;
    let mut i: usize = from;
    while i < n
        invariant
            from <= i <= n == v@.len(),
            d == v@.subrange(from as int, n as int),
            all_digits(d.subrange(0, i - from)),
            value == digits_value(d.subrange(0, i - from)),
        decreases n - i,
    {
        let c = v[i];
        assert(d[i - from] == c);
        if c < '0' || c > '9' {
            assert(!is_digit(d[i - from]));
            return None;
        }
        let x: u64 = (c as u64) - 48;
        let ghost k = i - from;
        assert(d.subrange(0, k + 1).drop_last() =~= d.subrange(0, k));
        assert(digits_value(d.subrange(0, k + 1)) == value * 10 + x);
        proof {
            lemma_digits_value_grows(d, k + 1);
        }
        let tens = match value.checked_mul(10) {
            Some(t) => t,
            None => {
                return None;
            },
        };
        value = match tens.checked_add(x) {
            Some(t) => t,
            None => {
                return None;
            },
        };
        assert(all_digits(d.subrange(0, k + 1))) by {
            assert forall|j: int| 0 <= j < k + 1 implies is_digit(
                #[trigger] d.subrange(0, k + 1)[j],
            ) by {
                if j < k {
                    assert(d.subrange(0, k)[j] == d[j]);
                }
            }
        }
        i = i + 1;
    }
    assert(d.subrange(0, n - from) =~= d);
    Some(value)
}

/// `str::parse::<u64>`: the unsigned number that `s` writes.
pub fn parse_u64(s: &str) -> (res: Option<u64>)
    ensures
        match res {
            Some(n) => unsigned(s@, u64::MAX as nat) == Some(n as nat),
            None => unsigned(s@, u64::MAX as nat) is None,
        },
{
    let v = text::chars_of(s);
    assert(v@.subrange(0, v@.len() as int) =~= v@);
    if v.len() > 0 && v[0] == '+' {
        digits_from(&v, 1)
    } else {
        digits_from(&v, 0)
    }
}

/// `str::parse::<i64>`: the signed number that `s` writes.
pub fn parse_i64(s: &str) -> (res: Option<i64>)
    ensures
        match res {
            Some(n) => signed(s@, i64::MIN as int, i64::MAX as int) == Some(n as int),
            None => signed(s@, i64::MIN as int, i64::MAX as int) is None,
        },
{
    let v = text::chars_of(s);
    assert(v@.subrange(0, v@.len() as int) =~= v@);
    if v.len() > 0 && v[0] == '-' {
        match digits_from(&v, 1) {
            Some(n) => {
                if n < 0x8000_0000_0000_0000 {
                    Some(-(n as i64))
                } else if n == 0x8000_0000_0000_0000 {
                    Some(i64::MIN)
                } else {
                    None
                }
            },
            None => None,
        }
    } else {
        let n = if v.len() > 0 && v[0] == '+' {
            digits_from(&v, 1)
        } else {
            digits_from(&v, 0)
        };
        match n {
            Some(n) => {
                if n < 0x8000_0000_0000_0000 {
                    Some(n as i64)
                } else {
                    None
                }
            },
            None => None,
        }
    }
}

/// `str::parse::<i32>`: the signed number that `s` writes, where it fits in 32 bits.
pub fn parse_i32(s: &str) -> (res: Option<i32>)
    ensures
        match res {
            Some(n) => signed(s@, i32::MIN as int, i32::MAX as int) == Some(n as int),
            None => signed(s@, i32::MIN as int, i32::MAX as int) is None,
        },
{
    match parse_i64(s) {
        Some(n) => {
            if -0x8000_0000 <= n && n <= 0x7fff_ffff {
                Some(n as i32)
            } else {
                None
            }
        },
        None => None,
    }
}

/// The decimal digits of `n`.
pub fn decimal_text(n: u64) -> (res: String)
    ensures
        res@ == decimal(n as nat),
    decreases n,
{
    if n < 10 {
        let mut res = String::new();
        res.push((48 + n as u8) as char);
        assert(res@ =~= decimal(n as nat));
        res
    } else {
        let mut res = decimal_text(n / 10);
        res.push((48 + (n % 10) as u8) as char);
        res
    }
}

/// The decimal digits of `n`, with a `-` before them where it is negative.
pub open spec fn signed_decimal(n: int) -> Seq<char> {
    if n < 0 {
        seq!['-'] + decimal((-n) as nat)
    } else {
        decimal(n as nat)
    }
}

/// The decimal digits of `n`, with a `-` before them where it is negative.
pub fn signed_decimal_text(n: i64) -> (res: String)
    ensures
        res@ == signed_decimal(n as int),
{
    if n < 0 {
        let mut res = String::new();
        res.push('-');
        let magnitude: u64 = (-(n + 1)) as u64 + 1;
        res.append(decimal_text(magnitude).as_str());
        assert(res@ =~= signed_decimal(n as int));
        res
    } else {
        decimal_text(n as u64)
    }
}

/// `s` with zeros before it up to the length `width`.
pub fn zero_pad(s: String, width: usize) -> (res: String)
    ensures
        res@ == zero_padded(s@, width as nat),
{
    let mut res = s;
    let mut n: usize = text::chars_of(res.as_str()).len();
    while n < width
        invariant
            n == res@.len(),
            zero_padded(res@, width as nat) == zero_padded(s@, width as nat),
        decreases width - n,
    {
        let mut next = String::new();
        next.push('0');
        next.append(res.as_str());
        assert(next@ =~= seq!['0'] + res@);
        res = next;
        n = n + 1;
    }
    res
}

/// The integers of 53 bits and less, which a double holds exactly.
pub const DOUBLE_EXACT: u128 = 0x20_0000_0000_0000;

/// The distance between the doubles around `n`: the least power of two by which `n`
/// can be divided so that 53 bits are left.
pub open spec fn double_step(n: nat) -> nat
    decreases n,
{
    if n < DOUBLE_EXACT {
        1
    } else {
        2 * double_step(n / 2)
    }
}

/// `n` divided by `unit`, rounded to the nearest integer and to the even one where
/// two are equally near.
pub open spec fn rounded_quotient(n: nat, unit: nat) -> nat {
    let q = n / unit;
    let r = n % unit;
    if 2 * r > unit || (2 * r == unit && q % 2 == 1) {
        q + 1
    } else {
        q
    }
}

/// The double that is nearest to `n`, which is an integer.
pub open spec fn nearest_double(n: nat) -> nat {
    rounded_quotient(n, double_step(n)) * double_step(n)
}

/// `n` divided by `unit`, rounded to the nearest integer, ties to even.
pub fn divide_rounding(n: u128, unit: u128) -> (res: u128)
    requires
        0 < unit < 0x8000_0000_0000_0000_0000_0000_0000_0000,
        n < u128::MAX,
    ensures
        res == rounded_quotient(n as nat, unit as nat),
        res <= n / unit + 1,
{
    let q: u128 = n / unit;
    let r: u128 = n % unit;
    proof {
        lemma_div_is_ordered_by_denominator(n as int, 1, unit as int);
        assert(n as int / 1 == n);
    }
    if 2 * r > unit || (2 * r == unit && q % 2 == 1) {
        q + 1
    } else {
        q
    }
}

/// The distance between the doubles around a number that needs more than 53 bits.
proof fn lemma_double_step(n: nat)
    ensures
        double_step(n) >= 1,
        n >= DOUBLE_EXACT ==> double_step(n) * 4503599627370496 <= n,
    decreases n,
{
    if n >= DOUBLE_EXACT {
        lemma_double_step(n / 2);
        if n / 2 < DOUBLE_EXACT {
            assert(double_step(n / 2) == 1);
        }
    }
}

/// The double that is nearest to a number differs from it by at most its part in two to
/// the power of 53.
pub proof fn lemma_nearest_double(n: nat)
    ensures
        nearest_double(n) * DOUBLE_EXACT <= n * DOUBLE_EXACT + n,
        nearest_double(n) * DOUBLE_EXACT >= n * DOUBLE_EXACT - n,
{
    let step = double_step(n);
    lemma_double_step(n);
    let q = n / step;
    let r = n % step;
    lemma_fundamental_div_mod(n as int, step as int);
    assert(step * q == q * step) by (nonlinear_arith);
    assert((q + 1) * step == q * step + step) by (nonlinear_arith);
    if n < DOUBLE_EXACT {
        assert(step == 1);
        assert(nearest_double(n) == n) by (nonlinear_arith)
            requires
                step == 1,
                nearest_double(n) == rounded_quotient(n, step) * step,
                rounded_quotient(n, step) == n,
        ;
    } else {
        assert(2 * nearest_double(n) <= 2 * n + step);
        assert(2 * nearest_double(n) + step >= 2 * n);
    }
}

/// The double that is nearest to `n`, ties to even, as an integer.
pub fn to_nearest_double(n: u128) -> (res: u128)
    requires
        n < 0x4000_0000_0000_0000_0000_0000_0000_0000,
    ensures
        res == nearest_double(n as nat),
        res <= 2 * n,
{
    let mut step: u128 = 1;
    let mut rest: u128 = n;
    assert(n as int / 1 == n);
    while rest >= DOUBLE_EXACT
        invariant
            n < 0x4000_0000_0000_0000_0000_0000_0000_0000,
            step >= 1,
            rest == n / step,
            step <= n || step == 1,
            double_step(n as nat) == step * double_step(rest as nat),
        decreases rest,
    {
        proof {
            let inner = double_step((rest / 2) as nat);
            assert(step * (2 * inner) == (step * 2) * inner) by (nonlinear_arith);
            lemma_div_denominator(n as int, step as int, 2);
            lemma_fundamental_div_mod(n as int, step as int);
            assert(step * rest <= n);
            assert(step * 2 <= step * rest) by (nonlinear_arith)
                requires
                    rest >= 2,
                    step >= 1,
            ;
        }
        rest = rest / 2;
        step = step * 2;
    }
    assert(double_step(n as nat) == step) by {
        let inner = double_step(rest as nat);
        assert(step * inner == step) by (nonlinear_arith)
            requires
                inner == 1,
        ;
    }
    let q: u128 = divide_rounding(n, step);
    proof {
        lemma_fundamental_div_mod(n as int, step as int);
        let u = step as int;
        let whole = n as int / u;
        if step == 1 {
            assert(n as int % 1 == 0);
            assert(q == n);
            assert(q * step == n);
        } else {
            assert(whole * u <= n) by (nonlinear_arith)
                requires
                    n == u * whole + n as int % u,
                    n as int % u >= 0,
            ;
            assert(q * u <= (whole + 1) * u) by (nonlinear_arith)
                requires
                    q <= whole + 1,
                    u >= 1,
            ;
            assert((whole + 1) * u == whole * u + u) by (nonlinear_arith);
            assert(q * step <= 2 * n);
        }
    }
    q * step
}

/// Reading the digits of a number gives the number back.
pub proof fn lemma_decimal_reads_back(n: nat)
    ensures
        decimal(n).len() > 0,
        all_digits(decimal(n)),
        digits_value(decimal(n)) == n,
        decimal(n)[0] != '+',
        decimal(n)[0] != '-',
    decreases n,
{
    reveal_with_fuel(digits_value, 2);
    if n < 10 {
        assert(decimal(n).drop_last() =~= Seq::<char>::empty());
    } else {
        lemma_decimal_reads_back(n / 10);
        assert(decimal(n).drop_last() =~= decimal(n / 10));
    }
}

/// What `decimal` writes, `unsigned` reads.
pub proof fn lemma_decimal_unsigned(n: nat, max: nat)
    ensures
        unsigned(decimal(n), max) == (if n <= max {
            Some(n)
        } else {
            None
        }),
{
    lemma_decimal_reads_back(n);
}

/// An unsigned number as the signed one with the same bits.
pub open spec fn as_signed(n: u64) -> i64 {
    if n <= i64::MAX {
        n as i64
    } else {
        (n - 0x1_0000_0000_0000_0000) as i64
    }
}

/// A signed number as the unsigned one with the same bits.
pub open spec fn as_unsigned(n: i64) -> u64 {
    if n >= 0 {
        n as u64
    } else {
        (n + 0x1_0000_0000_0000_0000) as u64
    }
}

/// An unsigned number as the signed one with the same bits.
pub fn to_signed(n: u64) -> (res: i64)
    ensures
        res == as_signed(n),
{
    if n <= 0x7fff_ffff_ffff_ffff {
        n as i64
    } else {
        -((0xffff_ffff_ffff_ffff - n) as i64) - 1
    }
}

/// A signed number as the unsigned one with the same bits.
pub fn to_unsigned(n: i64) -> (res: u64)
    ensures
        res == as_unsigned(n),
{
    if n >= 0 {
        n as u64
    } else {
        0xffff_ffff_ffff_ffff - ((-(n + 1)) as u64)
    }
}

/// A number is written with the digits of the number without its last digit, and then
/// that one; a number below ten is one digit.
pub proof fn law_decimal(n: u64, res: String, front: String)
    requires
        call_ensures(decimal_text, (n,), res),
        call_ensures(decimal_text, (n / 10,), front),
    ensures
        n < 10 ==> res@ == seq![(48 + n) as char],
        n >= 10 ==> res@ == front@.push((48 + n % 10) as char),
{
}

/// What a number is written as reads back as the number, with a plus sign before it or
/// without; with one more digit behind it, it is ten times as large and that digit more;
/// and a text with anything but digits in it, or with none, is no number.
pub proof fn law_number_reads_back(n: u64, written: String, s: &str, d: u64, res: Option<u64>)
    requires
        call_ensures(decimal_text, (n,), written),
        call_ensures(parse_u64, (s,), res),
        d < 10,
    ensures
        s@ == written@ || s@ == seq!['+'] + written@ ==> res == Some(n),
        s@ == written@.push((48 + d) as char) ==> res == (if n * 10 + d <= u64::MAX {
            Some((n * 10 + d) as u64)
        } else {
            None
        }),
        s@.len() == 0 ==> res is None,
        forall|i: int|
            0 <= i < s@.len() && !(i == 0 && #[trigger] s@[i] == '+') && !('0' <= s@[i] <= '9')
                ==> res is None,
{
    lemma_decimal_reads_back(n as nat);
    let w = written@;
    if s@ == seq!['+'] + w {
        assert(without_plus(s@) =~= w);
    }
    if s@ == w.push((48 + d) as char) {
        assert(s@.drop_last() =~= w);
        assert(s@[0] == w[0]);
        assert(all_digits(s@)) by {
            assert forall|i: int| 0 <= i < s@.len() implies is_digit(#[trigger] s@[i]) by {
                if i < w.len() {
                    assert(s@[i] == w[i]);
                }
            }
        }
    }
    assert forall|i: int|
        0 <= i < s@.len() && !(i == 0 && #[trigger] s@[i] == '+') && !('0' <= s@[i] <= '9') implies
        res is None by {
        let t = without_plus(s@);
        if s@[0] == '+' {
            assert(t[i - 1] == s@[i]);
        }
        if all_digits(t) {
            assert(is_digit(s@[i]));
        }
    }
}

/// A signed number is read with or without a sign: a minus makes it negative.
pub proof fn law_signed_reads_back(n: i64, written: String, s: &str, res: Option<i64>)
    requires
        call_ensures(signed_decimal_text, (n,), written),
        call_ensures(parse_i64, (s,), res),
        s@ == written@,
    ensures
        res == Some(n),
        n < 0 <==> s@[0] == '-',
{
    if n < 0 {
        lemma_decimal_reads_back((-n) as nat);
        assert(s@.subrange(1, s@.len() as int) =~= decimal((-n) as nat));
    } else {
        lemma_decimal_reads_back(n as nat);
    }
}

/// A text is filled up with zeros in front to the width, and is as it was behind them.
pub proof fn law_zero_pad(s: String, width: usize, res: String)
    requires
        call_ensures(zero_pad, (s, width), res),
    ensures
        res@.len() == (if s@.len() < width {
            width as nat
        } else {
            s@.len()
        }),
        res@.subrange(res@.len() - s@.len(), res@.len() as int) == s@,
        forall|i: int| 0 <= i < res@.len() - s@.len() ==> #[trigger] res@[i] == '0',
{
    lemma_zero_padded(s@, width as nat);
}

/// Zeros are put before a text up to the width.
pub proof fn lemma_zero_padded(s: Seq<char>, width: nat)
    ensures
        zero_padded(s, width).len() == (if s.len() < width {
            width
        } else {
            s.len()
        }),
        zero_padded(s, width).subrange(
            zero_padded(s, width).len() - s.len(),
            zero_padded(s, width).len() as int,
        ) == s,
        forall|i: int|
            0 <= i < zero_padded(s, width).len() - s.len() ==> #[trigger] zero_padded(s, width)[i]
                == '0',
    decreases width - s.len(),
{
    if s.len() < width {
        let t = seq!['0'] + s;
        lemma_zero_padded(t, width);
        let r = zero_padded(s, width);
        let tail = r.subrange(r.len() - t.len(), r.len() as int);
        assert(tail == t);
        assert(r[r.len() - t.len()] == tail[0]);
        assert(r.subrange(r.len() - s.len(), r.len() as int) =~= tail.subrange(1, t.len() as int));
        assert(t.subrange(1, t.len() as int) =~= s);
    } else {
        assert(s.subrange(0, s.len() as int) =~= s);
    }
}

/// Zeros before digits do not change what they write.
pub proof fn lemma_zero_padded_value(s: Seq<char>, width: nat)
    requires
        all_digits(s),
    ensures
        all_digits(zero_padded(s, width)),
        digits_value(zero_padded(s, width)) == digits_value(s),
    decreases width - s.len(),
{
    if s.len() < width {
        let t = seq!['0'] + s;
        assert(all_digits(t)) by {
            assert forall|i: int| 0 <= i < t.len() implies is_digit(#[trigger] t[i]) by {
                if i > 0 {
                    assert(t[i] == s[i - 1]);
                }
            }
        }
        lemma_zero_in_front(s);
        lemma_zero_padded_value(t, width);
    }
}

/// A zero before digits does not change what they write.
proof fn lemma_zero_in_front(s: Seq<char>)
    ensures
        digits_value(seq!['0'] + s) == digits_value(s),
    decreases s.len(),
{
    let t = seq!['0'] + s;
    if s.len() > 0 {
        assert(t.drop_last() =~= seq!['0'] + s.drop_last());
        lemma_zero_in_front(s.drop_last());
    } else {
        assert(t.drop_last() =~= seq![]);
        assert(digits_value(seq![]) == 0);
    }
}

/// Changing the sign of the type and back gives the number again, and a number that both
/// types have is itself.
pub proof fn law_same_bits(n: u64, m: i64, back: u64)
    requires
        call_ensures(to_signed, (n,), m),
        call_ensures(to_unsigned, (m,), back),
    ensures
        back == n,
        n <= i64::MAX ==> m == n,
        n > i64::MAX ==> m == n - 0x1_0000_0000_0000_0000,
{
}

/// A quotient is rounded to the nearest number, and to the even one of two that are equally
/// near.
pub proof fn law_divide_rounding(n: u128, unit: u128, res: u128)
    requires
        call_ensures(divide_rounding, (n, unit), res),
        unit > 0,
    ensures
        2 * n - unit <= 2 * (res * unit) <= 2 * n + unit,
        2 * (res * unit) == 2 * n - unit || 2 * (res * unit) == 2 * n + unit ==> res % 2 == 0,
{
    let q = n as int / unit as int;
    lemma_fundamental_div_mod(n as int, unit as int);
    assert(unit * q == q * unit) by (nonlinear_arith);
    assert((q + 1) * unit == q * unit + unit) by (nonlinear_arith);
}

/// A number that a double can hold stays as it is, and another changes by at most its part in
/// two to the power of 53.
pub proof fn law_nearest_double(n: u128, res: u128)
    requires
        call_ensures(to_nearest_double, (n,), res),
    ensures
        n < 0x20_0000_0000_0000 ==> res == n,
        (res - n) * 0x20_0000_0000_0000 <= n,
        (n - res) * 0x20_0000_0000_0000 <= n,
{
    lemma_nearest_double(n as nat);
}

} // verus!
