//! Finite decimal numbers of any size, kept as their digits.
//!
//! A number is modelled as a `DecimalView`: a natural `mantissa` and the
//! number `scale` of its fraction digits, standing for `mantissa / 10^scale`.

use vstd::prelude::*;
use vstd::arithmetic::div_mod::{
    lemma_fundamental_div_mod,
    lemma_fundamental_div_mod_converse,
    lemma_mod_breakdown,
};
use crate::text::{
    is_numeric,
    lemma_split_once_first,
    push_chars,
    split_at_first,
    split_once,
    to_chars,
};

verus! {

/// The mathematical value of a decimal number: `mantissa / 10^scale`.
pub struct DecimalView {
    pub mantissa: nat,
    pub scale: nat,
}

/// Ten to the power `n`.
pub open spec fn pow10(n: nat) -> nat
    decreases n,
{
    if n == 0 {
        1
    } else {
        10 * pow10((n - 1) as nat)
    }
}

/// An ASCII decimal digit.
pub open spec fn is_digit(c: char) -> bool {
    '0' <= c <= '9'
}

/// The number that the digit `c` stands for.
pub open spec fn digit_value(c: char) -> nat {
    (c as u32 - '0' as u32) as nat
}

/// The digit that stands for `d`, a number below ten.
pub open spec fn digit_char(d: nat) -> char {
    ('0' as u32 + d) as char
}

/// Whether `s` holds decimal digits only.
pub open spec fn all_digits(s: Seq<char>) -> bool {
    forall|i: int| 0 <= i < s.len() ==> is_digit(#[trigger] s[i])
}

/// The number written by the digits `s`, most significant first.
pub open spec fn digits_value(s: Seq<char>) -> nat
    decreases s.len(),
{
    if s.len() == 0 {
        0
    } else {
        digits_value(s.drop_last()) * 10 + digit_value(s.last())
    }
}

/// The shortest decimal writing of `n`.
pub open spec fn nat_text(n: nat) -> Seq<char>
    decreases n,
{
    if n < 10 {
        seq![digit_char(n)]
    } else {
        nat_text(n / 10).push(digit_char(n % 10))
    }
}

/// The last `width` decimal digits of `n`, with leading zeros.
pub open spec fn fixed_digits(n: nat, width: nat) -> Seq<char>
    decreases width,
{
    if width == 0 {
        Seq::empty()
    } else {
        fixed_digits(n / 10, (width - 1) as nat).push(digit_char(n % 10))
    }
}

/// The number that a text of digits with at most one decimal point writes;
/// a text without any digit, with a second point or with another character
/// writes none.
pub open spec fn decimal_of(t: Seq<char>) -> Option<DecimalView> {
    let (whole, fraction) = match split_once(t, seq!['.']) {
        Some((w, f)) => (w, f),
        None => (t, Seq::empty()),
    };
    if all_digits(whole) && all_digits(fraction) && whole.len() + fraction.len() > 0 {
        Some(DecimalView { mantissa: digits_value(whole + fraction), scale: fraction.len() })
    } else {
        None
    }
}

impl DecimalView {
    /// The number zero.
    pub open spec fn zero() -> DecimalView {
        DecimalView { mantissa: 0, scale: 0 }
    }

    /// Whether the number is at most the whole number `limit`.
    pub open spec fn at_most(self, limit: nat) -> bool {
        self.mantissa <= limit * pow10(self.scale)
    }

    /// Whether the number is at least the whole number `limit`.
    pub open spec fn at_least(self, limit: nat) -> bool {
        self.mantissa >= limit * pow10(self.scale)
    }

    /// The number in hundredths, rounded to the nearest one; a number halfway
    /// between two goes to the even one.
    pub open spec fn hundredths(self) -> nat {
        if self.scale <= 2 {
            self.mantissa * pow10((2 - self.scale) as nat)
        } else {
            let unit = pow10((self.scale - 2) as nat);
            let q = self.mantissa / unit;
            let r = self.mantissa % unit;
            if 2 * r > unit || (2 * r == unit && q % 2 == 1) {
                q + 1
            } else {
                q
            }
        }
    }

    /// Whether the number and `other` differ by at most 0.01.
    pub open spec fn within_a_hundredth_of(self, other: DecimalView) -> bool {
        let a = self.mantissa * pow10(other.scale);
        let b = other.mantissa * pow10(self.scale);
        let unit = pow10(self.scale) * pow10(other.scale);
        100 * (a - b) <= unit && 100 * (b - a) <= unit
    }

    /// The number rounded to hundredths.
    pub open spec fn rounded(self) -> DecimalView {
        DecimalView { mantissa: self.hundredths(), scale: 2 }
    }

    /// The number written with exactly two fraction digits, after rounding.
    pub open spec fn fixed2(self) -> Seq<char> {
        nat_text(self.hundredths() / 100) + seq!['.'] + fixed_digits(self.hundredths() % 100, 2)
    }

    /// The number written in full: the whole part without leading zeros, and
    /// after a decimal point every fraction digit, if there is any.
    pub open spec fn text(self) -> Seq<char> {
        if self.scale == 0 {
            nat_text(self.mantissa)
        } else {
            nat_text(self.mantissa / pow10(self.scale)) + seq!['.'] + fixed_digits(
                self.mantissa % pow10(self.scale),
                self.scale,
            )
        }
    }
}

/// Powers of ten are positive.
pub proof fn lemma_pow10_positive(n: nat)
    ensures
        pow10(n) >= 1,
    decreases n,
{
    if n > 0 {
        lemma_pow10_positive((n - 1) as nat);
    }
}

/// A digit stands for a number below ten, and is the digit of that number.
pub proof fn lemma_digit_round_trip(c: char)
    requires
        is_digit(c),
    ensures
        digit_value(c) < 10,
        digit_char(digit_value(c)) == c,
{
}

/// The digit of a number below ten stands for that number.
pub proof fn lemma_digit_char_value(d: nat)
    requires
        d < 10,
    ensures
        is_digit(digit_char(d)),
        digit_value(digit_char(d)) == d,
{
}

/// A single digit writes the number it stands for.
pub proof fn lemma_digits_value_single(c: char)
    ensures
        digits_value(seq![c]) == digit_value(c),
{
    assert(seq![c].drop_last() == Seq::<char>::empty());
    assert(digits_value(Seq::<char>::empty()) == 0);
}

/// The value of two digit texts written one after the other.
pub proof fn lemma_digits_value_concat(a: Seq<char>, b: Seq<char>)
    ensures
        digits_value(a + b) == digits_value(a) * pow10(b.len()) + digits_value(b),
    decreases b.len(),
{
    let va = digits_value(a);
    if b.len() == 0 {
        assert(a + b == a);
        assert(va * 1 == va) by (nonlinear_arith);
    } else {
        let init = b.drop_last();
        assert((a + b).drop_last() == a + init);
        assert((a + b).last() == b.last());
        lemma_digits_value_concat(a, init);
        let p = pow10(init.len());
        assert(pow10(b.len()) == 10 * p);
        assert(va * (10 * p) == va * p * 10) by (nonlinear_arith);
    }
}

/// A text of `n` digits writes a number below `10^n`.
pub proof fn lemma_digits_value_bound(s: Seq<char>)
    requires
        all_digits(s),
    ensures
        digits_value(s) < pow10(s.len()),
    decreases s.len(),
{
    if s.len() > 0 {
        let init = s.drop_last();
        assert(all_digits(init)) by {
            assert forall|i: int| 0 <= i < init.len() implies is_digit(#[trigger] init[i]) by {
                assert(init[i] == s[i]);
            }
        }
        lemma_digits_value_bound(init);
        assert(is_digit(s.last()));
    }
}

/// A text of digits writes zero exactly when each digit is `0`.
pub proof fn lemma_digits_value_zero(s: Seq<char>)
    requires
        all_digits(s),
    ensures
        digits_value(s) == 0 <==> (forall|i: int| 0 <= i < s.len() ==> #[trigger] s[i] == '0'),
    decreases s.len(),
{
    if s.len() > 0 {
        let init = s.drop_last();
        assert(all_digits(init)) by {
            assert forall|i: int| 0 <= i < init.len() implies is_digit(#[trigger] init[i]) by {
                assert(init[i] == s[i]);
            }
        }
        lemma_digits_value_zero(init);
        assert(is_digit(s.last()));
        if digits_value(s) == 0 {
            assert forall|i: int| 0 <= i < s.len() implies #[trigger] s[i] == '0' by {
                if i < init.len() {
                    assert(init[i] == s[i]);
                }
            }
        }
        if forall|i: int| 0 <= i < s.len() ==> #[trigger] s[i] == '0' {
            assert forall|i: int| 0 <= i < init.len() implies #[trigger] init[i] == '0' by {
                assert(init[i] == s[i]);
            }
            assert(s.last() == s[s.len() - 1]);
        }
    }
}

/// A text of digits that does not start with `0` is the shortest writing of
/// its value.
pub proof fn lemma_nat_text_of_digits(s: Seq<char>)
    requires
        all_digits(s),
        s.len() >= 1,
        s.len() == 1 || s[0] != '0',
    ensures
        nat_text(digits_value(s)) == s,
        s[0] != '0' ==> digits_value(s) >= 1,
    decreases s.len(),
{
    let init = s.drop_last();
    assert(is_digit(s.last()));
    lemma_digit_round_trip(s.last());
    if s.len() == 1 {
        assert(init.len() == 0);
        assert(digits_value(init) == 0);
        assert(nat_text(digits_value(s)) == seq![s.last()]);
        assert(s == seq![s.last()]);
    } else {
        assert(all_digits(init)) by {
            assert forall|i: int| 0 <= i < init.len() implies is_digit(#[trigger] init[i]) by {
                assert(init[i] == s[i]);
            }
        }
        assert(init[0] == s[0]);
        lemma_nat_text_of_digits(init);
        let v = digits_value(s);
        assert(v == digits_value(init) * 10 + digit_value(s.last()));
        assert(v >= 10);
        assert(v / 10 == digits_value(init));
        assert(v % 10 == digit_value(s.last()));
        assert(nat_text(v) == nat_text(v / 10).push(digit_char(v % 10)));
        assert(init.push(s.last()) == s);
    }
}

/// Leading zeros do not change the value of a text of digits.
pub proof fn lemma_digits_value_skip_zeros(s: Seq<char>, n: int)
    requires
        0 <= n <= s.len(),
        forall|i: int| 0 <= i < n ==> #[trigger] s[i] == '0',
    ensures
        digits_value(s) == digits_value(s.skip(n)),
{
    let zeros = s.take(n);
    assert(s == zeros + s.skip(n));
    lemma_digits_value_concat(zeros, s.skip(n));
    assert(all_digits(zeros));
    lemma_digits_value_zero(zeros);
    assert(digits_value(zeros) == 0);
    assert(digits_value(zeros) * pow10(s.skip(n).len()) == 0) by (nonlinear_arith)
        requires
            digits_value(zeros) == 0,
    ;
}

/// A text of `width` digits is its own value written with that width.
pub proof fn lemma_fixed_digits_of_digits(s: Seq<char>)
    requires
        all_digits(s),
    ensures
        fixed_digits(digits_value(s), s.len()) == s,
    decreases s.len(),
{
    if s.len() > 0 {
        let init = s.drop_last();
        assert(all_digits(init)) by {
            assert forall|i: int| 0 <= i < init.len() implies is_digit(#[trigger] init[i]) by {
                assert(init[i] == s[i]);
            }
        }
        lemma_fixed_digits_of_digits(init);
        assert(is_digit(s.last()));
        lemma_digit_round_trip(s.last());
        let v = digits_value(s);
        assert(v / 10 == digits_value(init));
        assert(v % 10 == digit_value(s.last()));
        assert(init.push(s.last()) == s);
    }
}

/// The shortest writing of `n` is a text of digits that writes `n`.
pub proof fn lemma_nat_text_value(n: nat)
    ensures
        all_digits(nat_text(n)),
        nat_text(n).len() >= 1,
        digits_value(nat_text(n)) == n,
    decreases n,
{
    if n < 10 {
        lemma_digit_char_value(n);
        lemma_digits_value_single(digit_char(n));
    } else {
        lemma_nat_text_value(n / 10);
        lemma_digit_char_value(n % 10);
        let init = nat_text(n / 10);
        let s = nat_text(n);
        assert(s.drop_last() == init);
        assert forall|i: int| 0 <= i < s.len() implies is_digit(#[trigger] s[i]) by {
            if i < init.len() {
                assert(s[i] == init[i]);
            }
        }
    }
}

/// The writing of `n` with `width` digits is a text of that many digits,
/// which writes `n` modulo `10^width`.
pub proof fn lemma_fixed_digits_value(n: nat, width: nat)
    ensures
        all_digits(fixed_digits(n, width)),
        fixed_digits(n, width).len() == width,
        digits_value(fixed_digits(n, width)) == n % pow10(width),
    decreases width,
{
    if width > 0 {
        let w = (width - 1) as nat;
        lemma_fixed_digits_value(n / 10, w);
        lemma_digit_char_value(n % 10);
        lemma_pow10_positive(w);
        let init = fixed_digits(n / 10, w);
        let s = fixed_digits(n, width);
        assert(s.drop_last() == init);
        assert forall|i: int| 0 <= i < s.len() implies is_digit(#[trigger] s[i]) by {
            if i < init.len() {
                assert(s[i] == init[i]);
            }
        }
        lemma_mod_breakdown(n as int, 10, pow10(w) as int);
        assert(pow10(width) == 10 * pow10(w));
    }
}

/// Powers of ten multiply by adding their exponents.
pub proof fn lemma_pow10_add(a: nat, b: nat)
    ensures
        pow10(a + b) == pow10(a) * pow10(b),
    decreases a,
{
    if a == 0 {
        assert(1 * pow10(b) == pow10(b)) by (nonlinear_arith);
    } else {
        lemma_pow10_add((a - 1) as nat, b);
        let x = pow10((a - 1) as nat);
        let y = pow10(b);
        assert(pow10(a + b) == 10 * pow10((a - 1 + b) as nat));
        assert(10 * (x * y) == (10 * x) * y) by (nonlinear_arith);
    }
}

/// Rounding to hundredths moves a number by at most half a hundredth, so by
/// less than 0.01.
pub proof fn lemma_hundredths_close(d: DecimalView)
    ensures
        2 * (d.hundredths() * pow10(d.scale) - 100 * d.mantissa) <= pow10(d.scale),
        2 * (100 * d.mantissa - d.hundredths() * pow10(d.scale)) <= pow10(d.scale),
        d.scale <= 2 ==> d.hundredths() * pow10(d.scale) == 100 * d.mantissa,
{
    let m = d.mantissa;
    let h = d.hundredths();
    let p = pow10(d.scale);
    assert(pow10(2) == 100) by {
        reveal_with_fuel(pow10, 3);
    }
    lemma_pow10_positive(d.scale);
    if d.scale <= 2 {
        let k = pow10((2 - d.scale) as nat);
        lemma_pow10_add((2 - d.scale) as nat, d.scale);
        assert(k * p == 100);
        assert(m * k * p == 100 * m) by (nonlinear_arith)
            requires
                k * p == 100,
        ;
    } else {
        let unit = pow10((d.scale - 2) as nat);
        lemma_pow10_positive((d.scale - 2) as nat);
        lemma_pow10_add((d.scale - 2) as nat, 2);
        assert(p == unit * 100);
        let q = m / unit;
        let r = m % unit;
        lemma_fundamental_div_mod(m as int, unit as int);
        assert(m == unit * q + r);
        if h == q + 1 {
            assert(2 * r >= unit);
            assert(2 * ((q + 1) * (unit * 100) - 100 * (unit * q + r)) <= unit * 100)
                by (nonlinear_arith)
                requires
                    2 * r >= unit,
            ;
            assert(2 * (100 * (unit * q + r) - (q + 1) * (unit * 100)) <= unit * 100)
                by (nonlinear_arith)
                requires
                    r < unit,
                    unit >= 1,
            ;
        } else {
            assert(h == q);
            assert(2 * r <= unit);
            assert(2 * (q * (unit * 100) - 100 * (unit * q + r)) <= unit * 100)
                by (nonlinear_arith)
                requires
                    r >= 0,
                    unit >= 1,
            ;
            assert(2 * (100 * (unit * q + r) - q * (unit * 100)) <= unit * 100)
                by (nonlinear_arith)
                requires
                    2 * r <= unit,
            ;
        }
    }
}

/// A whole part, a decimal point and a fraction, all written out, read back
/// as the number they write.
pub proof fn lemma_decimal_of_parts(whole: Seq<char>, fraction: Seq<char>)
    requires
        all_digits(whole),
        all_digits(fraction),
        whole.len() + fraction.len() > 0,
    ensures
        decimal_of(whole + seq!['.'] + fraction) == Some(
            DecimalView { mantissa: digits_value(whole + fraction), scale: fraction.len() },
        ),
{
    assert forall|k: int| 0 <= k < whole.len() implies whole[k] != '.' by {
        assert(is_digit(whole[k]));
    }
    lemma_split_once_first(whole, seq!['.'], fraction);
}

/// A number written with two fraction digits is made of digits and one
/// decimal point, and starts and ends with a digit.
pub proof fn lemma_fixed2_is_numeric(d: DecimalView)
    ensures
        d.fixed2().len() >= 4,
        forall|i: int| 0 <= i < d.fixed2().len() ==> is_numeric(#[trigger] d.fixed2()[i]),
        is_digit(d.fixed2()[0]),
        is_digit(d.fixed2().last()),
{
    let h = d.hundredths();
    let whole = nat_text(h / 100);
    let fraction = fixed_digits(h % 100, 2);
    lemma_nat_text_value(h / 100);
    lemma_fixed_digits_value(h % 100, 2);
    let t = d.fixed2();
    assert(t == whole + seq!['.'] + fraction);
    assert forall|i: int| 0 <= i < t.len() implies is_numeric(#[trigger] t[i]) by {
        if i < whole.len() {
            assert(t[i] == whole[i]);
            assert(is_digit(whole[i]));
        } else if i == whole.len() {
            assert(t[i] == '.');
        } else {
            assert(t[i] == fraction[i - whole.len() - 1]);
            assert(is_digit(fraction[i - whole.len() - 1]));
        }
    }
    assert(t[0] == whole[0]);
    assert(is_digit(whole[0]));
    assert(t.last() == fraction[1]);
    assert(is_digit(fraction[1]));
}

/// A number rounded to hundredths differs from the number by at most 0.01.
pub proof fn lemma_rounded_is_close(d: DecimalView)
    ensures
        d.rounded().within_a_hundredth_of(d),
{
    lemma_hundredths_close(d);
    assert(pow10(2) == 100) by {
        reveal_with_fuel(pow10, 3);
    }
    let h = d.hundredths();
    let m = d.mantissa;
    let p = pow10(d.scale);
    assert(100 * (h * p - m * 100) <= 100 * p && 100 * (m * 100 - h * p) <= 100 * p)
        by (nonlinear_arith)
        requires
            2 * (h * p - 100 * m) <= p,
            2 * (100 * m - h * p) <= p,
            p >= 0,
    ;
}

/// A number written with two fraction digits reads back as the number
/// rounded to hundredths: writing and reading again moves no number by more
/// than 0.01.
pub proof fn lemma_fixed2_round_trip(d: DecimalView)
    ensures
        decimal_of(d.fixed2()) == Some(d.rounded()),
        d.rounded().within_a_hundredth_of(d),
{
    let h = d.hundredths();
    let whole = nat_text(h / 100);
    let fraction = fixed_digits(h % 100, 2);
    lemma_nat_text_value(h / 100);
    lemma_fixed_digits_value(h % 100, 2);
    lemma_decimal_of_parts(whole, fraction);
    lemma_digits_value_concat(whole, fraction);
    assert(pow10(2) == 100) by {
        reveal_with_fuel(pow10, 3);
    }
    lemma_fundamental_div_mod(h as int, 100);
    lemma_rounded_is_close(d);
}

/// How what follows the hundredths compares with half a hundredth, read off
/// its first digit: with `half` a tenth of a hundredth and `t` below it,
/// `first * half + t` is above half a hundredth where `first` is above five,
/// below where it is below five, and at five as far above as `t` is above
/// zero.
proof fn lemma_half_way(first: nat, half: nat, t: nat)
    requires
        first < 10,
        half >= 1,
        t < half,
    ensures
        first > 5 ==> 2 * (first * half + t) > 10 * half,
        first < 5 ==> 2 * (first * half + t) < 10 * half,
        first == 5 ==> 2 * (first * half + t) == 10 * half + 2 * t,
{
    if first > 5 {
        assert(2 * (first * half + t) > 10 * half) by (nonlinear_arith)
            requires
                first >= 6,
                half >= 1,
                t >= 0,
        ;
    } else if first < 5 {
        assert(2 * (first * half + t) < 10 * half) by (nonlinear_arith)
            requires
                first <= 4,
                first >= 0,
                t < half,
        ;
    } else {
        assert(2 * (first * half + t) == 10 * half + 2 * t) by (nonlinear_arith)
            requires
                first == 5,
        ;
    }
}

/// Whether `s` holds decimal digits only.
pub fn only_digits(s: &[char]) -> (b: bool)
    ensures
        b == all_digits(s@),
{
    let mut i: usize = 0;
    while i < s.len()
        invariant
            i <= s.len(),
            forall|k: int| 0 <= k < i ==> is_digit(#[trigger] s@[k]),
        decreases s.len() - i,
    {
        if !('0' <= s[i] && s[i] <= '9') {
            return false;
        }
        i += 1;
    }
    true
}

/// Whether `s` holds the digit `0` only.
fn only_zeros(s: &[char]) -> (b: bool)
    ensures
        b == (forall|k: int| 0 <= k < s.len() ==> #[trigger] s@[k] == '0'),
{
    let mut i: usize = 0;
    while i < s.len()
        invariant
            i <= s.len(),
            forall|k: int| 0 <= k < i ==> #[trigger] s@[k] == '0',
        decreases s.len() - i,
    {
        if s[i] != '0' {
            return false;
        }
        i += 1;
    }
    true
}

/// The number that the digit `c` stands for.
fn digit_of(c: char) -> (d: u64)
    requires
        is_digit(c),
    ensures
        d == digit_value(c),
        d < 10,
{
    (c as u32 - '0' as u32) as u64
}

/// The digit after `c`.
fn successor(c: char) -> (r: char)
    requires
        is_digit(c),
        c != '9',
    ensures
        is_digit(r),
        digit_value(r) == digit_value(c) + 1,
{
    match c {
        '0' => '1',
        '1' => '2',
        '2' => '3',
        '3' => '4',
        '4' => '5',
        '5' => '6',
        '6' => '7',
        '7' => '8',
        _ => '9',
    }
}

/// The digit that stands for `d`.
fn digit_for(d: u64) -> (c: char)
    requires
        d < 10,
    ensures
        c == digit_char(d as nat),
{
    match d {
        0 => '0',
        1 => '1',
        2 => '2',
        3 => '3',
        4 => '4',
        5 => '5',
        6 => '6',
        7 => '7',
        8 => '8',
        _ => '9',
    }
}

/// The shortest decimal writing of `n`.
pub fn number_chars(n: u64) -> (out: Vec<char>)
    ensures
        out@ == nat_text(n as nat),
    decreases n,
{
    if n < 10 {
        let mut out: Vec<char> = Vec::new();
        out.push(digit_for(n));
        assert(out@ == seq![digit_char(n as nat)]);
        out
    } else {
        let mut out = number_chars(n / 10);
        out.push(digit_for(n % 10));
        out
    }
}

/// Adds one to the number that `digits` writes.
fn increment(digits: &mut Vec<char>)
    requires
        all_digits(old(digits)@),
    ensures
        all_digits(final(digits)@),
        digits_value(final(digits)@) == digits_value(old(digits)@) + 1,
        final(digits)@.len() >= old(digits)@.len(),
{
    let ghost start = digits@;
    let len = digits.len();
    let mut nines: usize = 0;
    assert((digits_value(start) + 1) * pow10(0) == digits_value(start) + 1) by (nonlinear_arith)
        requires
            pow10(0) == 1,
    ;
    while digits.len() > 0 && digits[digits.len() - 1] == '9'
        invariant
            all_digits(digits@),
            len == start.len(),
            digits@.len() + nines == len,
            digits_value(start) + 1 == (digits_value(digits@) + 1) * pow10(nines as nat),
        decreases digits.len(),
    {
        let ghost before = digits@;
        digits.pop();
        proof {
            assert(digits@ == before.drop_last());
            let v = digits_value(digits@);
            let p = pow10(nines as nat);
            assert(digits_value(before) == v * 10 + 9);
            assert(pow10((nines + 1) as nat) == 10 * p);
            assert((v * 10 + 9 + 1) * p == (v + 1) * (10 * p)) by (nonlinear_arith);
        }
        nines += 1;
    }
    let ghost low = digits_value(digits@);
    if digits.len() == 0 {
        digits.push('1');
        proof {
            assert(digits@ == seq!['1']);
            lemma_digits_value_single('1');
        }
    } else {
        let ghost before = digits@;
        let last = digits.pop().unwrap();
        assert(is_digit(before.last()));
        digits.push(successor(last));
        proof {
            assert(digits@.drop_last() == before.drop_last());
            assert(digits_value(digits@) == low + 1);
            assert forall|k: int| 0 <= k < digits@.len() implies is_digit(
                #[trigger] digits@[k],
            ) by {
                if k < digits@.len() - 1 {
                    assert(digits@[k] == before[k]);
                }
            }
        }
    }
    let mut zeros: usize = 0;
    assert((low + 1) * pow10(0) == low + 1) by (nonlinear_arith)
        requires
            pow10(0) == 1,
    ;
    while zeros < nines
        invariant
            zeros <= nines,
            all_digits(digits@),
            digits@.len() + nines >= start.len() + zeros,
            digits_value(digits@) == (low + 1) * pow10(zeros as nat),
        decreases nines - zeros,
    {
        let ghost before = digits@;
        digits.push('0');
        proof {
            assert(digits@.drop_last() == before);
            let p = pow10(zeros as nat);
            assert(pow10((zeros + 1) as nat) == 10 * p);
            assert((low + 1) * p * 10 == (low + 1) * (10 * p)) by (nonlinear_arith);
            assert forall|k: int| 0 <= k < digits@.len() implies is_digit(
                #[trigger] digits@[k],
            ) by {
                if k < digits@.len() - 1 {
                    assert(digits@[k] == before[k]);
                }
            }
        }
        zeros += 1;
    }
}

/// Appends the shortest writing of the number that `digits` writes.
fn push_shortest(out: &mut Vec<char>, digits: &[char])
    requires
        all_digits(digits@),
    ensures
        final(out)@ == old(out)@ + nat_text(digits_value(digits@)),
{
    let mut i: usize = 0;
    while i < digits.len() && digits[i] == '0'
        invariant
            i <= digits.len(),
            forall|k: int| 0 <= k < i ==> #[trigger] digits@[k] == '0',
        decreases digits.len() - i,
    {
        i += 1;
    }
    proof {
        lemma_digits_value_skip_zeros(digits@, i as int);
    }
    if i == digits.len() {
        out.push('0');
        proof {
            assert(digits@.skip(i as int).len() == 0);
            assert(nat_text(0) == seq!['0']);
            assert(out@ == old(out)@ + seq!['0']);
        }
    } else {
        let rest = &digits[i..digits.len()];
        out.extend_from_slice(rest);
        proof {
            assert(rest@ == digits@.skip(i as int));
            assert(all_digits(rest@));
            lemma_nat_text_of_digits(rest@);
            assert(out@ == old(out)@ + rest@);
        }
    }
}

/// A finite decimal number of any size: the digits of its whole part and of
/// its fraction.
#[derive(Debug)]
pub struct Decimal {
    whole: Vec<char>,
    fraction: Vec<char>,
}

impl View for Decimal {
    type V = DecimalView;

    closed spec fn view(&self) -> DecimalView {
        DecimalView {
            mantissa: digits_value(self.whole@ + self.fraction@),
            scale: self.fraction@.len(),
        }
    }
}

impl Clone for Decimal {
    fn clone(&self) -> (d: Decimal)
        ensures
            d@ == self@,
    {
        proof {
            use_type_invariant(self);
        }
        let mut whole: Vec<char> = Vec::new();
        whole.extend_from_slice(self.whole.as_slice());
        let mut fraction: Vec<char> = Vec::new();
        fraction.extend_from_slice(self.fraction.as_slice());
        assert(whole@ == self.whole@);
        assert(fraction@ == self.fraction@);
        Decimal { whole, fraction }
    }
}

impl Decimal {
    #[verifier::type_invariant]
    spec fn well_formed(self) -> bool {
        all_digits(self.whole@) && all_digits(self.fraction@)
    }

    /// The number zero.
    pub fn zero() -> (d: Decimal)
        ensures
            d@ == DecimalView::zero(),
    {
        let mut whole: Vec<char> = Vec::new();
        whole.push('0');
        let fraction: Vec<char> = Vec::new();
        proof {
            assert(whole@ + fraction@ == whole@);
            assert(whole@ == seq!['0']);
            lemma_digits_value_single('0');
        }
        Decimal { whole, fraction }
    }

    /// Reads a number written as digits with at most one decimal point.
    pub fn parse(text: &[char]) -> (r: Option<Decimal>)
        ensures
            match r {
                Some(d) => decimal_of(text@) == Some(d@),
                None => decimal_of(text@) is None,
            },
    {
        let mut point: Vec<char> = Vec::new();
        point.push('.');
        assert(point@ == seq!['.']);
        let (w, f) = match split_at_first(text, point.as_slice()) {
            Some((w, f)) => (w, f),
            None => (text, &text[0..0]),
        };
        assert(f@.len() == 0 ==> f@ == Seq::<char>::empty());
        if only_digits(w) && only_digits(f) && (w.len() > 0 || f.len() > 0) {
            let mut whole: Vec<char> = Vec::new();
            whole.extend_from_slice(w);
            let mut fraction: Vec<char> = Vec::new();
            fraction.extend_from_slice(f);
            assert(whole@ == w@);
            assert(fraction@ == f@);
            Some(Decimal { whole, fraction })
        } else {
            None
        }
    }

    /// Reads a number written as digits with at most one decimal point.
    pub fn from_text(text: &str) -> (r: Option<Decimal>)
        ensures
            match r {
                Some(d) => decimal_of(text@) == Some(d@),
                None => decimal_of(text@) is None,
            },
    {
        let chars = to_chars(text);
        Decimal::parse(chars.as_slice())
    }

    /// The whole part, where it fits into 64 bits.
    fn whole_part(&self) -> (r: Option<u64>)
        ensures
            match r {
                Some(v) => v == digits_value(self.whole@),
                None => digits_value(self.whole@) > u64::MAX,
            },
    {
        proof {
            use_type_invariant(self);
        }
        let mut acc: u64 = 0;
        let mut i: usize = 0;
        while i < self.whole.len()
            invariant
                i <= self.whole.len(),
                all_digits(self.whole@),
                acc == digits_value(self.whole@.take(i as int)),
            decreases self.whole.len() - i,
        {
            let d = digit_of(self.whole[i]);
            proof {
                let next = self.whole@.take(i + 1);
                assert(next.drop_last() == self.whole@.take(i as int));
                assert(next.last() == self.whole@[i as int]);
                assert(digits_value(next) == acc * 10 + d);
            }
            if acc > (u64::MAX - d) / 10 {
                proof {
                    let next = self.whole@.take(i + 1);
                    let rest = self.whole@.skip(i + 1);
                    assert(self.whole@ == next + rest);
                    lemma_digits_value_concat(next, rest);
                    lemma_pow10_positive(rest.len());
                    assert(digits_value(next) * pow10(rest.len()) >= digits_value(next))
                        by (nonlinear_arith)
                        requires
                            pow10(rest.len()) >= 1,
                    ;
                }
                return None;
            }
            acc = acc * 10 + d;
            i += 1;
        }
        assert(self.whole@.take(self.whole.len() as int) == self.whole@);
        Some(acc)
    }

    /// Whether the number is at most the whole number `limit`.
    pub fn is_at_most(&self, limit: u64) -> (b: bool)
        ensures
            b == self@.at_most(limit as nat),
    {
        proof {
            use_type_invariant(self);
            lemma_digits_value_concat(self.whole@, self.fraction@);
            lemma_digits_value_bound(self.fraction@);
            lemma_digits_value_zero(self.fraction@);
        }
        let ghost w = digits_value(self.whole@);
        let ghost f = digits_value(self.fraction@);
        let ghost p = pow10(self.fraction@.len());
        match self.whole_part() {
            Some(v) => {
                if v < limit {
                    assert(w * p + f <= limit * p) by (nonlinear_arith)
                        requires
                            w < limit,
                            f < p,
                    ;
                    true
                } else if v == limit {
                    only_zeros(self.fraction.as_slice())
                } else {
                    assert(w * p + f > limit * p) by (nonlinear_arith)
                        requires
                            w > limit,
                            p >= 1,
                            f >= 0,
                    ;
                    false
                }
            },
            None => {
                assert(w * p + f > limit * p) by (nonlinear_arith)
                    requires
                        w > limit,
                        f < p,
                        f >= 0,
                ;
                false
            },
        }
    }

    /// Whether the number is at least the whole number `limit`.
    pub fn is_at_least(&self, limit: u64) -> (b: bool)
        ensures
            b == self@.at_least(limit as nat),
    {
        proof {
            use_type_invariant(self);
            lemma_digits_value_concat(self.whole@, self.fraction@);
            lemma_digits_value_bound(self.fraction@);
        }
        let ghost w = digits_value(self.whole@);
        let ghost f = digits_value(self.fraction@);
        let ghost p = pow10(self.fraction@.len());
        let reached = match self.whole_part() {
            Some(v) => v >= limit,
            None => true,
        };
        proof {
            if reached {
                assert(w * p + f >= limit * p) by (nonlinear_arith)
                    requires
                        w >= limit,
                        f >= 0,
                        p >= 0,
                ;
            } else {
                assert(w * p + f < limit * p) by (nonlinear_arith)
                    requires
                        w < limit,
                        f < p,
                ;
            }
        }
        reached
    }

    /// Whether rounding to hundredths goes up: the digits after the second
    /// fraction digit write more than half a hundredth, or exactly half
    /// while the second fraction digit is odd.
    fn rounds_up(&self) -> (up: bool)
        requires
            self@.scale > 2,
        ensures
            up == ({
                let unit = pow10((self@.scale - 2) as nat);
                let q = self@.mantissa / unit;
                let r = self@.mantissa % unit;
                2 * r > unit || (2 * r == unit && q % 2 == 1)
            }),
            digits_value(self.whole@ + self.fraction@.take(2)) == self@.mantissa / pow10(
                (self@.scale - 2) as nat,
            ),
    {
        proof {
            use_type_invariant(self);
        }
        let scale = self.fraction.len();
        let head = &self.fraction[0..2];
        let rest = &self.fraction[2..scale];
        let tail = &rest[1..rest.len()];
        let first = digit_of(rest[0]);
        let parity = digit_of(head[1]);
        let low = !only_zeros(tail);
        proof {
            let unit = pow10((scale - 2) as nat);
            let half = pow10((scale - 3) as nat);
            let q_digits = self.whole@ + head@;
            let r = digits_value(rest@);
            let t = digits_value(tail@);
            assert(unit == 10 * half);
            assert(head@ == self.fraction@.take(2));
            assert(self.whole@ + self.fraction@ == q_digits + rest@);
            lemma_digits_value_concat(q_digits, rest@);
            lemma_digits_value_bound(rest@);
            lemma_pow10_positive((scale - 3) as nat);
            lemma_fundamental_div_mod_converse(
                self@.mantissa as int,
                unit as int,
                digits_value(q_digits) as int,
                r as int,
            );
            assert(rest@ == seq![rest@[0]] + tail@);
            lemma_digits_value_concat(seq![rest@[0]], tail@);
            lemma_digits_value_single(rest@[0]);
            lemma_digits_value_bound(tail@);
            lemma_digits_value_zero(tail@);
            assert(r == first * half + t);
            assert(low == (t > 0));
            assert(q_digits.drop_last() == self.whole@ + seq![head@[0]]);
            assert(q_digits.last() == head@[1]);
            assert(digits_value(q_digits) % 2 == parity % 2);
            lemma_half_way(first as nat, half, t);
        }
        if first > 5 {
            true
        } else if first < 5 {
            false
        } else if low {
            true
        } else {
            parity % 2 == 1
        }
    }

    /// The digits of the number in hundredths, at least two of them.
    fn hundredths_digits(&self) -> (q: Vec<char>)
        ensures
            all_digits(q@),
            q@.len() >= 2,
            digits_value(q@) == self@.hundredths(),
    {
        proof {
            use_type_invariant(self);
        }
        let scale = self.fraction.len();
        let mut q: Vec<char> = Vec::new();
        q.extend_from_slice(self.whole.as_slice());
        assert(q@ == self.whole@);
        if scale <= 2 {
            q.extend_from_slice(self.fraction.as_slice());
            assert(q@ == self.whole@ + self.fraction@);
            let mut pad: usize = 0;
            assert(digits_value(q@) * pow10(0) == digits_value(q@)) by (nonlinear_arith)
                requires
                    pow10(0) == 1,
            ;
            while scale + pad < 2
                invariant
                    scale + pad <= 2,
                    all_digits(q@),
                    q@.len() >= scale + pad,
                    digits_value(q@) == self@.mantissa * pow10(pad as nat),
                decreases 2 - pad,
            {
                let ghost before = q@;
                q.push('0');
                proof {
                    assert(q@.drop_last() == before);
                    let p = pow10(pad as nat);
                    assert(pow10((pad + 1) as nat) == 10 * p);
                    assert(self@.mantissa * p * 10 == self@.mantissa * (10 * p))
                        by (nonlinear_arith);
                    assert forall|k: int| 0 <= k < q@.len() implies is_digit(#[trigger] q@[k]) by {
                        if k < q@.len() - 1 {
                            assert(q@[k] == before[k]);
                        }
                    }
                }
                pad += 1;
            }
            q
        } else {
            q.extend_from_slice(&self.fraction[0..2]);
            assert(q@ == self.whole@ + self.fraction@.take(2));
            if self.rounds_up() {
                increment(&mut q);
            }
            q
        }
    }

    /// The characters of `fixed2`.
    pub fn fixed2_chars(&self) -> (out: Vec<char>)
        ensures
            out@ == self@.fixed2(),
    {
        let q = self.hundredths_digits();
        let cut = q.len() - 2;
        let mut out: Vec<char> = Vec::new();
        push_shortest(&mut out, &q[0..cut]);
        out.push('.');
        out.push(q[cut]);
        out.push(q[cut + 1]);
        proof {
            let high = q@.take(cut as int);
            let last2 = q@.skip(cut as int);
            assert(q@ == high + last2);
            lemma_digits_value_concat(high, last2);
            lemma_digits_value_bound(last2);
            assert(pow10(2) == 100) by {
                reveal_with_fuel(pow10, 3);
            }
            lemma_fundamental_div_mod_converse(
                digits_value(q@) as int,
                100,
                digits_value(high) as int,
                digits_value(last2) as int,
            );
            lemma_fixed_digits_of_digits(last2);
            assert(last2 == seq![q@[cut as int], q@[cut + 1]]);
            assert(out@ == nat_text(digits_value(high)) + seq!['.'] + last2);
        }
        out
    }

    /// The number with exactly two fraction digits, after rounding.
    pub fn to_fixed2(&self) -> (s: String)
        ensures
            s@ == self@.fixed2(),
    {
        let chars = self.fixed2_chars();
        let mut s = String::new();
        push_chars(&mut s, chars.as_slice());
        s
    }

    /// The number in full.
    pub fn to_text(&self) -> (s: String)
        ensures
            s@ == self@.text(),
    {
        proof {
            use_type_invariant(self);
            lemma_digits_value_concat(self.whole@, self.fraction@);
            lemma_digits_value_bound(self.fraction@);
            lemma_pow10_positive(self.fraction@.len());
            lemma_fundamental_div_mod_converse(
                self@.mantissa as int,
                pow10(self.fraction@.len()) as int,
                digits_value(self.whole@) as int,
                digits_value(self.fraction@) as int,
            );
            lemma_fixed_digits_of_digits(self.fraction@);
        }
        let mut out: Vec<char> = Vec::new();
        push_shortest(&mut out, self.whole.as_slice());
        if self.fraction.len() > 0 {
            out.push('.');
            out.extend_from_slice(self.fraction.as_slice());
            assert(out@ == nat_text(digits_value(self.whole@)) + seq!['.'] + self.fraction@);
        } else {
            assert(self.whole@ + self.fraction@ == self.whole@);
        }
        let mut s = String::new();
        push_chars(&mut s, out.as_slice());
        s
    }
}

} // verus!
