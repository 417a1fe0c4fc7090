//! Decimal numbers with eighteen digits after the point: seconds of audio,
//! confidences, speeds and thresholds. Each is written as a decimal number, and
//! is calculated with as the binary number nearest to it.

use crate::binary;
use crate::text;
use vstd::prelude::*;

verus! {

/// The number of units that make one.
pub const UNIT: i128 = 1_000_000_000_000_000_000;

/// The number of units that make a thousandth.
pub const MILLI: i128 = 1_000_000_000_000_000;

/// A decimal number, counted in units of 10^-18.
#[derive(Debug, Clone, Copy, PartialEq, Eq, Structural)]
pub struct Decimal {
    pub atto: i128,
}

impl Decimal {
    /// The number without its sign, in units.
    pub open spec fn magnitude(self) -> nat {
        if self.atto < 0 {
            (-self.atto) as nat
        } else {
            self.atto as nat
        }
    }

    /// The digits after the point, without the zeros at their end.
    pub open spec fn fraction(self) -> Seq<char> {
        text::strip_end(text::pad_left(text::decimal(self.magnitude() % UNIT as nat), '0', 18), '0')
    }

    /// The shortest decimal notation: a sign where it is negative, the whole
    /// part, and a point with digits where there are any.
    pub open spec fn notation(self) -> Seq<char> {
        let sign = if self.atto < 0 {
            seq!['-']
        } else {
            Seq::<char>::empty()
        };
        let whole = sign + text::decimal(self.magnitude() / UNIT as nat);
        if self.magnitude() % UNIT as nat == 0 {
            whole
        } else {
            whole.push('.') + self.fraction()
        }
    }

    /// The notation with at least one digit after the point.
    pub open spec fn fractional_notation(self) -> Seq<char> {
        if self.magnitude() % UNIT as nat == 0 {
            self.notation().push('.').push('0')
        } else {
            self.notation()
        }
    }

    /// The binary number that it is calculated with, without its sign and in
    /// units of 2^-112.
    pub open spec fn binary(self) -> nat {
        binary::rounded(self.magnitude() * binary::pow2(112), UNIT as nat)
    }

    /// The binary number that it is calculated with, in units of 2^-112.
    pub open spec fn value(self) -> int {
        if self.atto < 0 {
            -(self.binary() as int)
        } else {
            self.binary() as int
        }
    }

    /// The binary number times a thousand, rounded to a whole number, a half up,
    /// from 0 up to what 64 bits hold.
    pub open spec fn thousandths(self) -> nat {
        let n = if self.atto < 0 {
            0
        } else {
            (binary::rounded(self.binary() * 1000, 1) + binary::pow2(111)) / binary::pow2(112)
        };
        if n > u64::MAX {
            u64::MAX as nat
        } else {
            n
        }
    }

    /// Whether the difference of the binary numbers, rounded to one, is more
    /// than one.
    pub open spec fn is_more_than_one_above(self, other: Decimal) -> bool {
        let difference = self.value() - other.value();
        difference > 0 && binary::rounded(difference as nat, 1) > binary::pow2(112)
    }

    fn units(&self) -> (r: u128)
        ensures
            r == self.magnitude(),
    {
        if self.atto < 0 {
            (-(self.atto + 1)) as u128 + 1
        } else {
            self.atto as u128
        }
    }

    /// The shortest decimal notation.
    pub fn to_text(&self) -> (out: String)
        ensures
            out@ == self.notation(),
    {
        let n: u128 = self.units();
        let one: u128 = UNIT as u128;
        let mut out = String::new();
        if self.atto < 0 {
            out.push('-');
            assert(out@ =~= seq!['-']);
        }
        out.append(&text::decimal_text(n / one));
        if n % one != 0 {
            let digits = text::zero_padded(n % one, 18);
            out.push('.');
            out.append(text::stripped_end(&digits, '0'));
        }
        out
    }

    /// The notation of a number that is never written as an integer.
    pub fn to_fractional_text(&self) -> (out: String)
        ensures
            out@ == self.fractional_notation(),
    {
        let mut out = self.to_text();
        if self.units() % UNIT as u128 == 0 {
            out.push('.');
            out.push('0');
        }
        out
    }

    /// The number in thousandths, as a timestamp shows it.
    pub fn to_millis(&self) -> (r: u64)
        ensures
            r == self.thousandths(),
    {
        if self.atto <= 0 {
            proof {
                lemma_no_thousandths(*self);
            }
            return 0;
        }
        let (m, e) = binary_of(self.units());
        let n: u128 = millis_of(m, e);
        if n > u64::MAX as u128 {
            u64::MAX
        } else {
            n as u64
        }
    }

    /// The binary number as whole ones and units of 2^-112.
    fn split(&self) -> (r: (i128, i128))
        ensures
            r.0 * ONE + r.1 == self.value(),
            -ONE < r.1 < ONE,
            -MANY < r.0 < MANY,
    {
        if self.atto == 0 {
            proof {
                lemma_no_thousandths(*self);
            }
            return (0, 0);
        }
        let (m, e) = binary_of(self.units());
        let (whole, rest) = ones_of(m, e);
        if self.atto < 0 {
            assert((-whole) * ONE == -(whole * ONE)) by (nonlinear_arith);
            (-(whole as i128), -(rest as i128))
        } else {
            (whole as i128, rest as i128)
        }
    }

    /// Whether this number is more than one above `other`.
    pub fn exceeds_by_more_than_one(&self, other: &Decimal) -> (r: bool)
        ensures
            r == self.is_more_than_one_above(*other),
    {
        let (a, b) = self.split();
        let (c, d) = other.split();
        let whole: i128 = a - c - 1;
        let rest: i128 = b - d - HALF_STEP;
        proof {
            binary::lemma_powers();
            let difference = self.value() - other.value();
            assert(difference == whole * ONE + ONE + rest + HALF_STEP) by (nonlinear_arith)
                requires
                    a * ONE + b - (c * ONE + d) == difference,
                    whole == a - c - 1,
                    rest == b - d - HALF_STEP,
            ;
            if difference > 0 {
                binary::lemma_more_than_one(difference as nat);
            }
            assert(whole >= 3 ==> whole * ONE >= 3 * ONE) by (nonlinear_arith)
                requires
                    ONE > 0,
            ;
            assert(whole <= -3 ==> whole * ONE <= -3 * ONE) by (nonlinear_arith)
                requires
                    ONE > 0,
            ;
        }
        if whole >= 3 {
            true
        } else if whole <= -3 {
            false
        } else {
            whole * ONE + rest > 0
        }
    }
}

// ---------------------------------------------------------------------------
// Binary numbers
// ---------------------------------------------------------------------------

/// One, in units of 2^-112.
const ONE: i128 = 5_192_296_858_534_827_628_530_496_329_220_096;

/// Half of the last digit of a binary number from one up to two, in units of
/// 2^-112.
const HALF_STEP: i128 = 576_460_752_303_423_488;

/// More ones than any number has.
const MANY: i128 = 1_180_591_620_717_411_303_424;

/// The units of 2^52.
const LEAST: u128 = 4_503_599_627_370_496_000_000_000_000_000_000;

proof fn lemma_no_thousandths(d: Decimal)
    requires
        d.atto <= 0,
    ensures
        d.thousandths() == 0,
        d.atto == 0 ==> d.value() == 0,
{
    if d.atto == 0 {
        binary::lemma_powers();
        let u = UNIT as nat;
        assert(0 * binary::pow2(112) == 0);
        assert(binary::bits(0) == 0);
        assert(0nat / u == 0 && 0nat % u == 0);
        assert(binary::pow2(0) == 1);
        assert(binary::spare(0, u) == 0);
        assert(u * 1 == u);
        assert(binary::nearest(0, u) == 0);
        assert(binary::rounded(0, u) == 0);
        assert(binary::spare(0, 1) == 0);
        assert(binary::nearest(0, 1) == 0);
        assert(binary::rounded(0, 1) == 0);
    }
}

/// The binary number nearest to a number of units: its significant bits, and how
/// far they are shifted.
fn binary_of(units: u128) -> (r: (u128, u32))
    requires
        0 < units <= 0x8000_0000_0000_0000_0000_0000_0000_0000,
    ensures
        r.0 * binary::pow2(r.1 as nat) == binary::rounded(
            units as nat * binary::pow2(112),
            UNIT as nat,
        ),
        4_503_599_627_370_496 <= r.0 <= 9_007_199_254_740_992,
        r.1 <= 128,
{
    let one: u128 = UNIT as u128;
    let mut n: u128 = units;
    let mut e: u32 = 112;
    proof {
        binary::lemma_powers();
    }
    while n < LEAST
        invariant
            0 < n <= 0x8000_0000_0000_0000_0000_0000_0000_0000,
            e <= 112,
            n * binary::pow2(e as nat) == units * binary::pow2(112),
            binary::pow2(112) == 5_192_296_858_534_827_628_530_496_329_220_096,
            units > 0,
            e < 112 ==> n < 2 * LEAST,
            e == 112 ==> n == units,
        decreases e,
    {
        proof {
            if e == 0 {
                assert(binary::pow2(0) == 1);
                assert(n >= binary::pow2(112)) by (nonlinear_arith)
                    requires
                        n * binary::pow2(0) == units * binary::pow2(112),
                        binary::pow2(0) == 1,
                        units >= 1,
                ;
            }
            let half = binary::pow2((e - 1) as nat);
            assert(n * (2 * half) == (2 * n) * half) by (nonlinear_arith);
        }
        n = n * 2;
        e = e - 1;
    }
    if n / one < 9_007_199_254_740_992 {
        proof {
            lemma_binary(units, n, one, e);
        }
        return (binary::nearest_of(n, one), e);
    }
    let mut d: u128 = one;
    while n / d >= 9_007_199_254_740_992
        invariant
            n == units <= 0x8000_0000_0000_0000_0000_0000_0000_0000,
            112 <= e <= 128,
            d == UNIT * binary::pow2((e - 112) as nat),
            0 < d,
            n >= 4_503_599_627_370_496 * d,
        decreases 128 - e,
    {
        proof {
            assert(n >= 9_007_199_254_740_992 * d) by (nonlinear_arith)
                requires
                    n / d >= 9_007_199_254_740_992,
                    d > 0,
            ;
            if e == 128 {
                assert(binary::pow2(16) == 65536) by {
                    reveal_with_fuel(binary::pow2, 17);
                }
            }
            let p = binary::pow2((e - 112) as nat);
            assert(binary::pow2((e + 1 - 112) as nat) == 2 * p);
            assert(UNIT * (2 * p) == 2 * (UNIT * p)) by (nonlinear_arith);
        }
        d = d * 2;
        e = e + 1;
    }
    proof {
        lemma_large_binary(units, d, e);
    }
    (binary::nearest_of(n, d), e)
}

proof fn lemma_mantissa(n: nat, d: nat)
    requires
        d > 0,
        4_503_599_627_370_496 * d <= n,
        n / d < 9_007_199_254_740_992,
    ensures
        n < 9_007_199_254_740_992 * d,
        4_503_599_627_370_496 <= binary::nearest(n, d) <= 9_007_199_254_740_992,
{
    binary::lemma_divided(n, d);
    let q = n / d;
    assert(n < 9_007_199_254_740_992 * d && 4_503_599_627_370_496 <= q) by (nonlinear_arith)
        requires
            n == q * d + n % d,
            0 <= n % d < d,
            q < 9_007_199_254_740_992,
            4_503_599_627_370_496 * d <= n,
    ;
}

proof fn lemma_binary(units: u128, n: u128, one: u128, e: u32)
    requires
        one == UNIT,
        LEAST <= n,
        n / one < 9_007_199_254_740_992,
        n * binary::pow2(e as nat) == units * binary::pow2(112),
    ensures
        binary::nearest(n as nat, one as nat) * binary::pow2(e as nat) == binary::rounded(
            units as nat * binary::pow2(112),
            UNIT as nat,
        ),
        4_503_599_627_370_496 <= binary::nearest(n as nat, one as nat) <= 9_007_199_254_740_992,
{
    let p = binary::pow2(e as nat);
    let u = UNIT as nat;
    let a = units as nat * binary::pow2(112);
    let m = n as nat;
    lemma_mantissa(m, u);
    binary::lemma_powers();
    binary::lemma_pow2_grows(e as nat, e as nat);
    binary::lemma_pow2_add(52, e as nat);
    binary::lemma_pow2_add(53, e as nat);
    let low = binary::pow2(52);
    let high = binary::pow2(53);
    assert((low * p) * u <= a < (high * p) * u) by (nonlinear_arith)
        requires
            a == m * p,
            low * u <= m < high * u,
            p > 0,
    ;
    binary::lemma_spare(a, u, e as nat);
    binary::lemma_nearest_scaled(m, u, p);
}

proof fn lemma_large_binary(units: u128, d: u128, e: u32)
    requires
        112 <= e <= 128,
        d == UNIT * binary::pow2((e - 112) as nat),
        d > 0,
        units >= 4_503_599_627_370_496 * d,
        units / d < 9_007_199_254_740_992,
    ensures
        binary::nearest(units as nat, d as nat) * binary::pow2(e as nat) == binary::rounded(
            units as nat * binary::pow2(112),
            UNIT as nat,
        ),
        4_503_599_627_370_496 <= binary::nearest(units as nat, d as nat) <= 9_007_199_254_740_992,
{
    let j = (e - 112) as nat;
    let p = binary::pow2(112);
    let k = binary::pow2(j);
    let u = UNIT as nat;
    let m = units as nat;
    let den = d as nat;
    lemma_mantissa(m, den);
    binary::lemma_powers();
    binary::lemma_pow2_grows(112, 112);
    binary::lemma_pow2_add(j, 112);
    binary::lemma_pow2_add(52, e as nat);
    binary::lemma_pow2_add(53, e as nat);
    let low = binary::pow2(52);
    let high = binary::pow2(53);
    let all = binary::pow2(e as nat);
    assert(u * all == den * p) by (nonlinear_arith)
        requires
            all == k * p,
            den == u * k,
    ;
    assert((low * all) * u <= m * p < (high * all) * u) by (nonlinear_arith)
        requires
            u * all == den * p,
            low * den <= m < high * den,
            p > 0,
    ;
    binary::lemma_spare(m * p, u, e as nat);
    binary::lemma_nearest_scaled(m, den, p);
}

/// A binary number times a thousand, as a whole number.
fn millis_of(m: u128, e: u32) -> (r: u128)
    requires
        4_503_599_627_370_496 <= m <= 9_007_199_254_740_992,
        e <= 128,
    ensures
        r == (binary::rounded(m as nat * binary::pow2(e as nat) * 1000, 1) + binary::pow2(111))
            / binary::pow2(112),
{
    let big: u128 = m * 1000;
    let t: u32 = if big < 4_611_686_018_427_387_904 {
        9
    } else {
        10
    };
    let step: u128 = if big < 4_611_686_018_427_387_904 {
        512
    } else {
        1024
    };
    let n: u128 = binary::nearest_of(big, step);
    let f: u32 = e + t;
    proof {
        lemma_thousandfold(m as nat, e as nat, t as nat, step as nat);
        binary::lemma_powers();
        binary::lemma_divided(big as nat, step as nat);
        assert(n <= 9_007_199_254_740_992) by (nonlinear_arith)
            requires
                big == (big / step) * step + big % step,
                0 <= big % step < step,
                n <= big / step + 1,
                big < 4_611_686_018_427_387_904 && step == 512 || big <= 9_007_199_254_740_992_000
                    && step == 1024,
        ;
    }
    if f >= 112 {
        let p: u128 = binary::power(f - 112);
        proof {
            let k = (f - 112) as nat;
            binary::lemma_pow2_add(k, 112);
            binary::lemma_pow2_grows(k, 26);
            assert(binary::pow2(26) == 67_108_864) by {
                reveal_with_fuel(binary::pow2, 27);
            }
            assert(n * p <= 9_007_199_254_740_992 * 67_108_864) by (nonlinear_arith)
                requires
                    n <= 9_007_199_254_740_992,
                    p <= 67_108_864,
            ;
            let x = binary::pow2(112);
            assert(n * (p * x) == (n * p) * x) by (nonlinear_arith);
            binary::lemma_quotient(
                (n * (p * x) + binary::pow2(111)) as nat,
                x,
                (n * p) as nat,
                binary::pow2(111),
            );
        }
        n * p
    } else {
        let g: u32 = 112 - f;
        let half: u128 = binary::power(g - 1);
        let whole: u128 = binary::power(g);
        proof {
            let c = binary::pow2(f as nat);
            binary::lemma_pow2_add((g - 1) as nat, f as nat);
            binary::lemma_pow2_add(g as nat, f as nat);
            binary::lemma_pow2_grows(f as nat, f as nat);
            binary::lemma_pow2_grows((g - 1) as nat, 111);
            assert(n * c + half * c == (n + half) * c) by (nonlinear_arith);
            lemma_quotient_scaled((n + half) as nat, whole as nat, c);
        }
        (n + half) / whole
    }
}

proof fn lemma_quotient_scaled(a: nat, b: nat, c: nat)
    requires
        b > 0,
        c > 0,
    ensures
        (a * c) / (b * c) == a / b,
{
    binary::lemma_divided(a, b);
    let q = a / b;
    let r = a % b;
    assert(a * c == q * (b * c) + r * c && 0 <= r * c < b * c) by (nonlinear_arith)
        requires
            a == q * b + r,
            0 <= r < b,
            c > 0,
    ;
    binary::lemma_quotient(a * c, b * c, q, r * c);
}

proof fn lemma_thousandfold(m: nat, e: nat, t: nat, step: nat)
    requires
        4_503_599_627_370_496 <= m <= 9_007_199_254_740_992,
        m * 1000 < 4_611_686_018_427_387_904 && t == 9 && step == 512 || m * 1000
            >= 4_611_686_018_427_387_904 && t == 10 && step == 1024,
    ensures
        binary::rounded(m * binary::pow2(e) * 1000, 1) == binary::nearest(m * 1000, step)
            * binary::pow2(e + t),
{
    let p = binary::pow2(e);
    let big = m * 1000;
    let a = m * p * 1000;
    binary::lemma_powers();
    binary::lemma_pow2_grows(e, e);
    assert(a == big * p) by (nonlinear_arith)
        requires
            a == m * p * 1000,
            big == m * 1000,
    ;
    binary::lemma_pow2_add(t, e);
    binary::lemma_pow2_add(52 + t, e);
    binary::lemma_pow2_add(53 + t, e);
    assert(binary::pow2(61) == 2 * binary::pow2(60));
    assert(binary::pow2(62) == 2 * binary::pow2(61));
    assert(binary::pow2(63) == 2 * binary::pow2(62));
    let low = binary::pow2(52 + t);
    let high = binary::pow2(53 + t);
    assert(low <= big < high);
    assert(low * p <= a < high * p) by (nonlinear_arith)
        requires
            a == big * p,
            low <= big < high,
            p > 0,
    ;
    assert(52 + t + e == 52 + (e + t));
    assert(53 + t + e == 53 + (e + t));
    binary::lemma_spare(a, 1, e + t);
    assert(binary::pow2(e + t) == step * p);
    binary::lemma_nearest_scaled(big, step, p);
    assert(1 * binary::pow2(e + t) == binary::pow2(e + t));
}

/// A binary number as whole ones and units of 2^-112.
fn ones_of(m: u128, e: u32) -> (r: (u128, u128))
    requires
        m <= 9_007_199_254_740_992,
        e <= 128,
    ensures
        r.0 * ONE + r.1 == m * binary::pow2(e as nat),
        r.1 < ONE,
        r.0 < MANY,
{
    proof {
        binary::lemma_powers();
    }
    if e >= 112 {
        let p: u128 = binary::power(e - 112);
        proof {
            let k = (e - 112) as nat;
            binary::lemma_pow2_add(k, 112);
            binary::lemma_pow2_grows(k, 16);
            assert(binary::pow2(16) == 65_536) by {
                reveal_with_fuel(binary::pow2, 17);
            }
            assert(m * p <= 9_007_199_254_740_992 * 65_536) by (nonlinear_arith)
                requires
                    m <= 9_007_199_254_740_992,
                    p <= 65_536,
            ;
            assert(m * (p * ONE) == (m * p) * ONE) by (nonlinear_arith);
        }
        (m * p, 0)
    } else {
        let g: u32 = 112 - e;
        let p: u128 = binary::power(g);
        let s: u128 = binary::power(e);
        let whole: u128 = m / p;
        let rest: u128 = m % p;
        proof {
            binary::lemma_pow2_add(g as nat, e as nat);
            binary::lemma_divided(m as nat, p as nat);
            assert(rest * s < ONE) by (nonlinear_arith)
                requires
                    rest < p,
                    p * s == ONE,
                    s > 0,
            ;
            assert(m * s == whole * ONE + rest * s) by (nonlinear_arith)
                requires
                    m == whole * p + rest,
                    p * s == ONE,
            ;
            assert(whole <= m) by (nonlinear_arith)
                requires
                    m == whole * p + rest,
                    p > 0,
                    rest >= 0,
                    whole >= 0,
            ;
        }
        (whole, rest * s)
    }
}

/// The thousandths of a number are off from it by no more than half a
/// thousandth and three parts in 2^53 of the number.
pub proof fn law_thousandths_are_close(d: Decimal)
    requires
        d.atto >= 0,
        d.thousandths() < u64::MAX,
    ensures
        ({
            let off = d.thousandths() * MILLI - d.atto;
            &&& binary::pow2(53) * (2 * off - MILLI) <= 6 * d.atto
            &&& binary::pow2(53) * (-2 * off - MILLI) <= 6 * d.atto
        }),
{
    binary::lemma_powers();
    if d.atto == 0 {
        lemma_no_thousandths(d);
    } else {
        let one = binary::pow2(112);
        let m = d.atto as nat;
        let u = UNIT as nat;
        let a = m * one;
        let x = d.binary();
        let big = binary::pow2(53);
        assert(binary::pow2(52) * u <= a) by (nonlinear_arith)
            requires
                m >= 1,
                a == m * one,
                one == 5_192_296_858_534_827_628_530_496_329_220_096,
                u == 1_000_000_000_000_000_000,
                binary::pow2(52) == 4_503_599_627_370_496,
        ;
        binary::lemma_rounded_close(a, u);
        lemma_at_least(a, u);
        let y = x * 1000;
        binary::lemma_rounded_close(y, 1);
        let p = binary::rounded(y, 1);
        assert(p * 1 == p);
        let n = d.thousandths();
        binary::lemma_divided(p + binary::pow2(111), one);
        // Each step is off by no more than what is lost there.
        assert(big * (x * u - a) <= a && big * (a - x * u) <= a);
        assert(big * (p - y) <= y && big * (y - p) <= y);
        assert(2 * (n * one - p) <= one && 2 * (p - n * one) <= one);
        lemma_steps(a as int, x as int, p as int, n as int, m as int);
    }
}

proof fn lemma_at_least(a: nat, u: nat)
    requires
        u > 0,
        binary::pow2(52) * u <= a,
    ensures
        binary::rounded(a, u) >= binary::pow2(52),
{
    binary::lemma_powers();
    let x = binary::rounded(a, u);
    let q = a / u;
    binary::lemma_divided(a, u);
    assert(q >= binary::pow2(52)) by (nonlinear_arith)
        requires
            binary::pow2(52) * u <= a,
            a == q * u + a % u,
            0 <= a % u < u,
    ;
    binary::lemma_bits_bound(q);
    let k = binary::bits(q);
    if k < 53 {
        binary::lemma_pow2_grows(k, 52);
    }
    let e = (k - 53) as nat;
    let w = binary::pow2(e);
    binary::lemma_pow2_grows(e, e);
    binary::lemma_pow2_add(52, e);
    let d = u * w;
    assert(d > 0) by (nonlinear_arith)
        requires
            u > 0,
            w > 0,
            d == u * w,
    ;
    binary::lemma_divided(a, d);
    assert(a / d >= binary::pow2(52)) by (nonlinear_arith)
        requires
            a == (a / d) * d + a % d,
            0 <= a % d < d,
            a >= q * u,
            q >= binary::pow2(52) * w,
            d == u * w,
            u > 0,
    ;
    assert(x >= binary::pow2(52)) by (nonlinear_arith)
        requires
            x == binary::nearest(a, d) * w,
            binary::nearest(a, d) >= binary::pow2(52),
            w >= 1,
    ;
}

proof fn lemma_steps(a: int, x: int, p: int, n: int, m: int)
    requires
        a == m * 5_192_296_858_534_827_628_530_496_329_220_096,
        m >= 1,
        9_007_199_254_740_992 * (x * 1_000_000_000_000_000_000 - a) <= a,
        9_007_199_254_740_992 * (a - x * 1_000_000_000_000_000_000) <= a,
        9_007_199_254_740_992 * (p - x * 1000) <= x * 1000,
        9_007_199_254_740_992 * (x * 1000 - p) <= x * 1000,
        2 * (n * 5_192_296_858_534_827_628_530_496_329_220_096 - p)
            <= 5_192_296_858_534_827_628_530_496_329_220_096,
        2 * (p - n * 5_192_296_858_534_827_628_530_496_329_220_096)
            <= 5_192_296_858_534_827_628_530_496_329_220_096,
    ensures
        9_007_199_254_740_992 * (2 * (n * 1_000_000_000_000_000 - m) - 1_000_000_000_000_000) <= 6
            * m,
        9_007_199_254_740_992 * (-2 * (n * 1_000_000_000_000_000 - m) - 1_000_000_000_000_000) <= 6
            * m,
{
}

/// The number that a digit stands for.
pub open spec fn digit_value(c: char) -> nat {
    (c as u32 - '0' as u32) as nat
}

/// Whether a text holds nothing but decimal digits.
pub open spec fn is_digits(s: Seq<char>) -> bool {
    forall|i: int| 0 <= i < s.len() ==> '0' <= #[trigger] s[i] <= '9'
}

/// The number that decimal digits stand for.
pub open spec fn digits_value(s: Seq<char>) -> nat
    decreases s.len(),
{
    if s.len() == 0 {
        0
    } else {
        digits_value(s.drop_last()) * 10 + digit_value(s.last())
    }
}

/// The first eighteen digits after the point, with zeros for those that are not
/// there.
pub open spec fn eighteen(s: Seq<char>) -> Seq<char> {
    Seq::new(
        18,
        |i: int|
            if i < s.len() {
                s[i]
            } else {
                '0'
            },
    )
}

/// The whole part from which on a number is not held.
pub const LIMIT: u128 = 100_000_000_000_000_000_000;

/// The number, without its sign and in units, that a text stands for: digits,
/// and a point with more digits where there is one. Digits beyond the
/// eighteenth after the point are left out.
pub open spec fn parsed_magnitude(s: Seq<char>) -> Option<nat> {
    let parts = text::split(s, '.');
    if parts.len() > 2 || parts[0].len() == 0 || !is_digits(parts[0]) || digits_value(parts[0])
        >= LIMIT {
        None
    } else if parts.len() == 1 {
        Some(digits_value(parts[0]) * UNIT as nat)
    } else if is_digits(parts[1]) {
        Some(digits_value(parts[0]) * UNIT as nat + digits_value(eighteen(parts[1])))
    } else {
        None
    }
}

/// The number that a text stands for.
pub open spec fn parsed(s: Seq<char>) -> Option<Decimal> {
    if s.len() > 0 && s[0] == '-' {
        match parsed_magnitude(s.skip(1)) {
            Some(n) => Some(Decimal { atto: (-(n as int)) as i128 }),
            None => None,
        }
    } else {
        match parsed_magnitude(s) {
            Some(n) => Some(Decimal { atto: n as i128 }),
            None => None,
        }
    }
}

fn all_digits(s: &Vec<char>) -> (r: bool)
    ensures
        r == is_digits(s@),
{
    let mut i: usize = 0;
    while i < s.len()
        invariant
            i <= s@.len(),
            forall|j: int| 0 <= j < i ==> '0' <= #[trigger] s@[j] <= '9',
        decreases s@.len() - i,
    {
        if !('0' <= s[i] && s[i] <= '9') {
            return false;
        }
        i = i + 1;
    }
    true
}

proof fn lemma_prefix_value(s: Seq<char>, n: int)
    requires
        0 <= n <= s.len(),
    ensures
        digits_value(s.take(n)) <= digits_value(s),
    decreases s.len() - n,
{
    if n == s.len() {
        assert(s.take(n) =~= s);
    } else {
        assert(s.take(n + 1).drop_last() =~= s.take(n));
        lemma_prefix_value(s, n + 1);
    }
}

/// The number of a whole part, where it is held.
fn whole_value(s: &Vec<char>) -> (r: Option<u128>)
    requires
        is_digits(s@),
    ensures
        match r {
            Some(n) => n == digits_value(s@) && n < LIMIT,
            None => digits_value(s@) >= LIMIT,
        },
{
    let mut n: u128 = 0;
    let mut i: usize = 0;
    while i < s.len()
        invariant
            i <= s@.len(),
            is_digits(s@),
            n == digits_value(s@.take(i as int)),
            n < LIMIT,
        decreases s@.len() - i,
    {
        assert(s@.take(i + 1).drop_last() =~= s@.take(i as int));
        n = n * 10 + (s[i] as u128 - 48);
        i = i + 1;
        if n >= LIMIT {
            proof {
                lemma_prefix_value(s@, i as int);
            }
            return None;
        }
    }
    assert(s@.take(i as int) =~= s@);
    Some(n)
}

spec fn pow10(n: nat) -> nat
    decreases n,
{
    if n == 0 {
        1
    } else {
        10 * pow10((n - 1) as nat)
    }
}

proof fn lemma_value_bound(s: Seq<char>)
    requires
        is_digits(s),
    ensures
        digits_value(s) < pow10(s.len()),
    decreases s.len(),
{
    if s.len() > 0 {
        assert(is_digits(s.drop_last())) by {
            assert forall|i: int| 0 <= i < s.drop_last().len() implies '0'
                <= #[trigger] s.drop_last()[i] <= '9' by {
                assert(s[i] == s.drop_last()[i]);
            }
        }
        assert('0' <= s[s.len() - 1] <= '9');
        lemma_value_bound(s.drop_last());
    }
}

/// The number of the digits after the point, in units.
fn fraction_value(s: &Vec<char>) -> (r: u128)
    requires
        is_digits(s@),
    ensures
        r == digits_value(eighteen(s@)),
        r < UNIT,
{
    let mut n: u128 = 0;
    let mut i: usize = 0;
    let ghost e = eighteen(s@);
    assert(is_digits(e));
    proof {
        reveal_with_fuel(pow10, 19);
        lemma_value_bound(e);
    }
    while i < 18
        invariant
            i <= 18,
            is_digits(s@),
            e == eighteen(s@),
            digits_value(e) < UNIT,
            n == digits_value(e.take(i as int)),
            n < UNIT,
        decreases 18 - i,
    {
        let c: char = if i < s.len() {
            s[i]
        } else {
            '0'
        };
        assert(e.take(i + 1).drop_last() =~= e.take(i as int));
        assert('0' <= c <= '9');
        n = n * 10 + (c as u128 - 48);
        i = i + 1;
        proof {
            lemma_prefix_value(e, i as int);
        }
    }
    assert(e.take(18) =~= e);
    n
}

fn magnitude_of(s: &str) -> (r: Option<u128>)
    ensures
        match (r, parsed_magnitude(s@)) {
            (Some(n), Some(m)) => n == m && n <= i128::MAX,
            (None, None) => true,
            _ => false,
        },
{
    let parts = text::pieces(s, '.');
    proof {
        text::lemma_split_nonempty(s@, '.');
    }
    if parts.len() > 2 {
        return None;
    }
    let ghost views = parts.deep_view();
    assert(views[0] == parts@[0]@);
    let whole = text::chars_of(&parts[0]);
    if whole.len() == 0 || !all_digits(&whole) {
        return None;
    }
    let n: u128 = match whole_value(&whole) {
        Some(n) => n,
        None => {
            return None;
        },
    };
    assert(n * UNIT < LIMIT * UNIT) by (nonlinear_arith)
        requires
            n < LIMIT,
            UNIT > 0,
    ;
    if parts.len() == 1 {
        return Some(n * UNIT as u128);
    }
    assert(views[1] == parts@[1]@);
    let fraction = text::chars_of(&parts[1]);
    if !all_digits(&fraction) {
        return None;
    }
    Some(n * UNIT as u128 + fraction_value(&fraction))
}

impl Decimal {
    /// The number that a text stands for.
    pub fn parse(s: &str) -> (r: Option<Decimal>)
        ensures
            r == parsed(s@),
    {
        let chars = text::chars_of(s);
        if chars.len() > 0 && chars[0] == '-' {
            let rest = text::string_of(&chars, 1, chars.len());
            assert(rest@ =~= s@.skip(1));
            match magnitude_of(&rest) {
                Some(n) => Some(Decimal { atto: -(n as i128) }),
                None => None,
            }
        } else {
            match magnitude_of(s) {
                Some(n) => Some(Decimal { atto: n as i128 }),
                None => None,
            }
        }
    }
}

// ---------------------------------------------------------------------------
// Reading back
// ---------------------------------------------------------------------------

proof fn lemma_push_digit(s: Seq<char>, c: char)
    requires
        is_digits(s),
        '0' <= c <= '9',
    ensures
        is_digits(s.push(c)),
        digits_value(s.push(c)) == digits_value(s) * 10 + digit_value(c),
{
    assert(s.push(c).drop_last() =~= s);
}

proof fn lemma_decimal_value(n: nat)
    ensures
        is_digits(text::decimal(n)),
        digits_value(text::decimal(n)) == n,
        text::decimal(n).len() > 0,
    decreases n,
{
    let empty = Seq::<char>::empty();
    if n < 10 {
        assert(text::decimal(n) =~= empty.push(text::digit(n)));
        lemma_push_digit(empty, text::digit(n));
    } else {
        lemma_decimal_value(n / 10);
        lemma_push_digit(text::decimal(n / 10), text::digit(n % 10));
    }
}

proof fn lemma_decimal_len(n: nat, k: nat)
    requires
        n < pow10(k),
        k > 0,
    ensures
        text::decimal(n).len() <= k,
    decreases k,
{
    if n >= 10 {
        if k == 1 {
            reveal_with_fuel(pow10, 2);
        } else {
            lemma_decimal_len(n / 10, (k - 1) as nat);
        }
    }
}

proof fn lemma_leading_zeros(s: Seq<char>, n: nat)
    requires
        is_digits(s),
    ensures
        is_digits(text::repeat('0', n) + s),
        digits_value(text::repeat('0', n) + s) == digits_value(s),
    decreases s.len(), n,
{
    let zeros = text::repeat('0', n);
    let padded = zeros + s;
    assert forall|i: int| 0 <= i < padded.len() implies '0' <= #[trigger] padded[i] <= '9' by {
        if i >= n {
            assert(s[i - n] == padded[i]);
        }
    }
    if s.len() > 0 {
        assert forall|i: int| 0 <= i < s.drop_last().len() implies '0'
            <= #[trigger] s.drop_last()[i] <= '9' by {
            assert(s[i] == s.drop_last()[i]);
        }
        lemma_leading_zeros(s.drop_last(), n);
        assert(padded.drop_last() =~= zeros + s.drop_last());
    } else if n > 0 {
        let shorter = text::repeat('0', (n - 1) as nat);
        lemma_leading_zeros(s, (n - 1) as nat);
        assert(shorter + s =~= shorter);
        assert(padded.drop_last() =~= shorter);
    }
}

proof fn lemma_stripped_digits(s: Seq<char>)
    requires
        is_digits(s),
        s.len() <= 18,
    ensures
        is_digits(text::strip_end(s, '0')),
        eighteen(text::strip_end(s, '0')) == eighteen(s),
    decreases s.len(),
{
    if s.len() > 0 && s.last() == '0' {
        assert forall|i: int| 0 <= i < s.drop_last().len() implies '0'
            <= #[trigger] s.drop_last()[i] <= '9' by {
            assert(s[i] == s.drop_last()[i]);
        }
        lemma_stripped_digits(s.drop_last());
        assert(eighteen(s.drop_last()) =~= eighteen(s));
    }
}

proof fn lemma_split_digits(s: Seq<char>)
    requires
        is_digits(s),
    ensures
        text::split(s, '.') == seq![s],
    decreases s.len(),
{
    if s.len() > 0 {
        assert forall|i: int| 0 <= i < s.drop_last().len() implies '0'
            <= #[trigger] s.drop_last()[i] <= '9' by {
            assert(s[i] == s.drop_last()[i]);
        }
        lemma_split_digits(s.drop_last());
        assert('0' <= s[s.len() - 1]);
        assert(s.drop_last().push(s.last()) =~= s);
        assert(text::split(s, '.') =~= seq![s]);
    } else {
        assert(s =~= Seq::empty());
    }
}

proof fn lemma_split_fraction(whole: Seq<char>, fraction: Seq<char>)
    requires
        is_digits(whole),
        is_digits(fraction),
    ensures
        text::split(whole.push('.') + fraction, '.') == seq![whole, fraction],
    decreases fraction.len(),
{
    let s = whole.push('.') + fraction;
    if fraction.len() == 0 {
        assert(s.drop_last() =~= whole);
        lemma_split_digits(whole);
        assert(fraction =~= Seq::empty());
        assert(text::split(s, '.') =~= seq![whole, fraction]);
    } else {
        let shorter = fraction.drop_last();
        assert forall|i: int| 0 <= i < shorter.len() implies '0' <= #[trigger] shorter[i]
            <= '9' by {
            assert(fraction[i] == shorter[i]);
        }
        lemma_split_fraction(whole, shorter);
        assert(s.drop_last() =~= whole.push('.') + shorter);
        assert('0' <= fraction[fraction.len() - 1]);
        assert(s.last() == fraction.last());
        assert(shorter.push(fraction.last()) =~= fraction);
        assert(text::split(s, '.') =~= seq![whole, fraction]);
    }
}

proof fn lemma_magnitude_reads_back(whole: nat, units: nat)
    requires
        whole < LIMIT,
        units < UNIT,
    ensures
        parsed_magnitude(text::decimal(whole)) == Some(whole * UNIT as nat),
        parsed_magnitude(
            text::decimal(whole).push('.') + text::strip_end(
                text::pad_left(text::decimal(units), '0', 18),
                '0',
            ),
        ) == Some(whole * UNIT as nat + units),
{
    let w = text::decimal(whole);
    let digits = text::decimal(units);
    lemma_decimal_value(whole);
    lemma_decimal_value(units);
    lemma_split_digits(w);
    reveal_with_fuel(pow10, 19);
    lemma_decimal_len(units, 18);
    let p = text::pad_left(digits, '0', 18);
    lemma_leading_zeros(digits, (18 - digits.len()) as nat);
    assert(text::repeat('0', 0) + digits =~= digits);
    assert(p.len() == 18);
    lemma_stripped_digits(p);
    assert(eighteen(p) =~= p);
    lemma_split_fraction(w, text::strip_end(p, '0'));
}

/// A number is read back from its notation, where its whole part is within the
/// limit.
pub proof fn law_notation_reads_back(d: Decimal)
    requires
        d.magnitude() / (UNIT as nat) < LIMIT,
    ensures
        parsed(d.notation()) == Some(d),
        parsed(d.fractional_notation()) == Some(d),
{
    let m = d.magnitude();
    let unit = UNIT as nat;
    let w = text::decimal(m / unit);
    lemma_decimal_value(m / unit);
    lemma_magnitude_reads_back(m / unit, m % unit);
    assert(m == (m / unit) * unit + m % unit) by (nonlinear_arith)
        requires
            unit > 0,
    ;
    let body = if m % unit == 0 {
        w
    } else {
        w.push('.') + d.fraction()
    };
    let zero = w.push('.').push('0');
    assert(is_digits(seq!['0']));
    lemma_split_fraction(w, seq!['0']);
    assert(w.push('.') + seq!['0'] =~= zero);
    lemma_leading_zeros(Seq::empty(), 18);
    assert(eighteen(seq!['0']) =~= text::repeat('0', 18) + Seq::<char>::empty());
    assert(parsed_magnitude(zero) == Some((m / unit) * unit));
    assert('0' <= w[0] <= '9');
    if d.atto < 0 {
        assert(d.notation() =~= seq!['-'] + body);
        assert((seq!['-'] + body).skip(1) =~= body);
        assert((seq!['-'] + zero).skip(1) =~= zero);
        if m % unit == 0 {
            assert(d.fractional_notation() =~= seq!['-'] + zero);
        }
    } else {
        assert(d.notation() =~= body);
        if m % unit == 0 {
            assert(d.fractional_notation() =~= zero);
        }
    }
}

impl DeepView for Decimal {
    type V = Decimal;

    open spec fn deep_view(&self) -> Decimal {
        *self
    }
}

// ---------------------------------------------------------------------------
// Laws of digits and gaps
// ---------------------------------------------------------------------------

/// The decimal digits of a number stand for it, the last one for its ones, and
/// none is missing or in front for nothing; zeros before them change nothing.
pub proof fn law_digits_stand_for_their_number(n: nat, width: nat)
    ensures
        is_digits(text::decimal(n)),
        digits_value(text::decimal(n)) == n,
        text::decimal(n).len() > 0,
        n > 0 ==> text::decimal(n)[0] != '0',
        is_digits(text::pad_left(text::decimal(n), '0', width)),
        digits_value(text::pad_left(text::decimal(n), '0', width)) == n,
{
    lemma_decimal_value(n);
    lemma_first_digit(n);
    if text::decimal(n).len() < width {
        lemma_leading_zeros(text::decimal(n), (width - text::decimal(n).len()) as nat);
    }
}

proof fn lemma_first_digit(n: nat)
    ensures
        text::decimal(n).len() > 0,
        n > 0 ==> text::decimal(n)[0] != '0',
    decreases n,
{
    if n >= 10 {
        lemma_first_digit(n / 10);
    }
}

/// Each digit counts ten times what the one after it counts.
pub proof fn law_value_of_digits(s: Seq<char>, c: char)
    requires
        '0' <= c <= '9',
    ensures
        digits_value(Seq::<char>::empty()) == 0,
        digits_value(s.push(c)) == 10 * digits_value(s) + (c as u32 - '0' as u32),
{
    assert(s.push(c).drop_last() =~= s);
}

/// No time is before the start: what is negative has no thousandths.
pub proof fn law_negative_has_no_thousandths(d: Decimal)
    requires
        d.atto <= 0,
    ensures
        d.thousandths() == 0,
{
    lemma_no_thousandths(d);
}

proof fn lemma_value_close(d: Decimal)
    ensures
        9_007_199_254_740_992 * (d.value() * 1_000_000_000_000_000_000 - d.atto
            * 5_192_296_858_534_827_628_530_496_329_220_096) <= d.magnitude()
            * 5_192_296_858_534_827_628_530_496_329_220_096,
        9_007_199_254_740_992 * (d.atto * 5_192_296_858_534_827_628_530_496_329_220_096
            - d.value() * 1_000_000_000_000_000_000) <= d.magnitude()
            * 5_192_296_858_534_827_628_530_496_329_220_096,
{
    binary::lemma_powers();
    if d.atto == 0 {
        lemma_no_thousandths(d);
    } else {
        let m = d.magnitude();
        let one = binary::pow2(112);
        let u = UNIT as nat;
        let a = m * one;
        assert(binary::pow2(52) * u <= a) by (nonlinear_arith)
            requires
                m >= 1,
                a == m * one,
                one == 5_192_296_858_534_827_628_530_496_329_220_096,
                u == 1_000_000_000_000_000_000,
                binary::pow2(52) == 4_503_599_627_370_496,
        ;
        binary::lemma_rounded_close(a, u);
        let x = d.binary();
        assert(binary::rounded(a, u) == x);
    }
}

/// Of two numbers one is more than one above the other where their distance is,
/// by more than what calculating in 53 bits can lose; and is not where their
/// distance is below one by that much.
pub proof fn law_gap_of_more_than_one(later: Decimal, earlier: Decimal)
    ensures
        ({
            let size = (if later.atto < 0 {
                -later.atto
            } else {
                later.atto as int
            }) + (if earlier.atto < 0 {
                -earlier.atto
            } else {
                earlier.atto as int
            });
            let above = later.atto - earlier.atto - 1_000_000_000_000_000_000;
            &&& 9_007_199_254_740_992 * above > size + 1_000_000_000_000_000_000
                ==> later.is_more_than_one_above(earlier)
            &&& 9_007_199_254_740_992 * above + size <= 1_000_000_000_000_000_000
                ==> !later.is_more_than_one_above(earlier)
        }),
{
    lemma_value_close(later);
    lemma_value_close(earlier);
    binary::lemma_powers();
    let difference = later.value() - earlier.value();
    if difference > 0 {
        binary::lemma_more_than_one(difference as nat);
    }
}

/// Ten to the power of `n`.
pub open spec fn ten_to(n: nat) -> nat
    decreases n,
{
    if n == 0 {
        1
    } else {
        10 * ten_to((n - 1) as nat)
    }
}

proof fn lemma_eighteen_value(f: Seq<char>, n: nat)
    requires
        is_digits(f),
        f.len() <= n <= 18,
    ensures
        digits_value(eighteen(f).take(n as int)) == digits_value(f) * ten_to((n - f.len()) as nat),
    decreases n,
{
    let t = eighteen(f).take(n as int);
    if n == f.len() {
        assert(t =~= f);
        let v = digits_value(f);
        assert(v * ten_to(0) == v) by (nonlinear_arith)
            requires
                ten_to(0) == 1,
        ;
    } else {
        lemma_eighteen_value(f, (n - 1) as nat);
        assert(t.drop_last() =~= eighteen(f).take(n - 1));
        assert(t.last() == '0');
        let v = digits_value(f);
        let p = ten_to((n - 1 - f.len()) as nat);
        assert(digit_value('0') == 0);
        assert(digits_value(t) == digits_value(t.drop_last()) * 10);
        assert(ten_to((n - f.len()) as nat) == 10 * p);
        assert((v * p) * 10 == v * (10 * p)) by (nonlinear_arith);
        assert(digits_value(t) == v * (10 * p));
    }
}

/// Digits are read as the whole number they stand for, digits after a point as tenths
/// and so on, and a `-` in front as the sign.
pub proof fn law_read_numbers(whole: Seq<char>, fraction: Seq<char>)
    requires
        is_digits(whole),
        whole.len() > 0,
        digits_value(whole) < 100_000_000_000_000_000_000,
        is_digits(fraction),
        fraction.len() <= 18,
    ensures
        ({
            let n = digits_value(whole) * 1_000_000_000_000_000_000;
            let m = n + digits_value(fraction) * ten_to((18 - fraction.len()) as nat);
            &&& parsed(whole) == Some(Decimal { atto: n as i128 })
            &&& parsed(whole.push('.') + fraction) == Some(Decimal { atto: m as i128 })
            &&& parsed(seq!['-'] + whole) == Some(Decimal { atto: (-n) as i128 })
            &&& parsed(seq!['-'] + (whole.push('.') + fraction)) == Some(
                Decimal { atto: (-m) as i128 },
            )
        }),
{
    let both = whole.push('.') + fraction;
    lemma_split_digits(whole);
    lemma_split_fraction(whole, fraction);
    lemma_eighteen_value(fraction, 18);
    assert(eighteen(fraction).take(18) =~= eighteen(fraction));
    assert('0' <= whole[0]);
    assert(both[0] == whole[0]);
    assert((seq!['-'] + whole).skip(1) =~= whole);
    assert((seq!['-'] + both).skip(1) =~= both);
}

/// The notation of a number has a `-` in front exactly where it is negative, a point
/// only where digits that count follow, and never a zero after them; the fractional one
/// always has a point.
pub proof fn law_notation_is_short(d: Decimal)
    ensures
        d.notation().len() > 0,
        d.notation()[0] == '-' <==> d.atto < 0,
        d.notation().contains('.') <==> (if d.atto < 0 {
            -d.atto
        } else {
            d.atto as int
        }) % 1_000_000_000_000_000_000 != 0,
        d.notation().contains('.') ==> d.notation().last() != '0',
        d.fractional_notation().contains('.'),
{
    let w = text::decimal(d.magnitude() / UNIT as nat);
    lemma_decimal_value(d.magnitude() / UNIT as nat);
    let sign = if d.atto < 0 {
        seq!['-']
    } else {
        Seq::<char>::empty()
    };
    let whole = sign + w;
    assert('0' <= w[0] <= '9');
    assert(whole[0] == '-' <==> d.atto < 0);
    lemma_no_point(sign, w);
    if d.magnitude() % UNIT as nat == 0 {
        let f = d.fractional_notation();
        assert(f[whole.len() as int] == '.');
    } else {
        let padded = text::pad_left(text::decimal(d.magnitude() % UNIT as nat), '0', 18);
        text::law_stripped_text(padded, '0');
        lemma_point(whole, d.fraction());
    }
}

proof fn lemma_no_point(sign: Seq<char>, w: Seq<char>)
    requires
        is_digits(w),
        sign.len() == 0 || sign == seq!['-'],
    ensures
        !(sign + w).contains('.'),
{
    let s = sign + w;
    assert forall|i: int| 0 <= i < s.len() implies s[i] != '.' by {
        if i >= sign.len() {
            assert('0' <= w[i - sign.len()]);
        }
    }
}

proof fn lemma_point(whole: Seq<char>, fraction: Seq<char>)
    requires
        whole.len() > 0,
        fraction.len() > 0 ==> fraction.last() != '0',
    ensures
        (whole.push('.') + fraction).contains('.'),
        (whole.push('.') + fraction).last() != '0',
        (whole.push('.') + fraction)[0] == whole[0],
{
    let s = whole.push('.') + fraction;
    assert(s[whole.len() as int] == '.');
    if fraction.len() > 0 {
        assert(s.last() == fraction.last());
    } else {
        assert(s.last() == '.');
    }
}

/// A decimal number is calculated with as the binary number of 53 bits nearest to it, in
/// units of 2^-112, with its sign.
pub proof fn law_value_is_the_nearest_binary_number(d: Decimal)
    ensures
        d.atto >= 0 ==> d.value() == binary::rounded(
            (d.atto as nat) * binary::pow2(112),
            1_000_000_000_000_000_000,
        ),
        d.atto < 0 ==> d.value() == -(binary::rounded(
            ((-d.atto) as nat) * binary::pow2(112),
            1_000_000_000_000_000_000,
        ) as int),
{
}

/// Thousandths are counted of the product of that number and a thousand, rounded to 53
/// bits: it lies no more than a half above or below, and a half is rounded up.
pub proof fn law_thousandths_round_a_half_up(d: Decimal)
    requires
        d.atto >= 0,
        d.thousandths() < u64::MAX,
    ensures
        ({
            let product = binary::rounded((d.value() * 1000) as nat, 1);
            let one = binary::pow2(112);
            let n = d.thousandths();
            &&& 2 * product >= (2 * n - 1) * one
            &&& 2 * product < (2 * n + 1) * one
        }),
{
    binary::lemma_powers();
    let product = binary::rounded((d.value() * 1000) as nat, 1);
    assert(d.value() == d.binary());
    binary::lemma_divided(product + binary::pow2(111), binary::pow2(112));
}

/// A number is more than one above another where the difference of their binary
/// numbers, rounded to 53 bits, is more than one.
pub proof fn law_gap_is_the_rounded_difference(later: Decimal, earlier: Decimal)
    ensures
        later.is_more_than_one_above(earlier) <==> {
            let difference = later.value() - earlier.value();
            difference > 0 && binary::rounded(difference as nat, 1) > binary::pow2(112)
        },
{
}

/// A text that is read as a number is, but for a `-` in front, digits with at most one
/// point among them, and begins with a digit.
pub proof fn law_number_is_digits(s: Seq<char>)
    requires
        parsed(s) is Some,
    ensures
        ({
            let m = if s.len() > 0 && s[0] == '-' {
                s.skip(1)
            } else {
                s
            };
            &&& m.len() > 0
            &&& '0' <= m[0] <= '9'
            &&& forall|i: int| 0 <= i < m.len() ==> m[i] == '.' || '0' <= #[trigger] m[i] <= '9'
            &&& forall|i: int, j: int|
                0 <= i < j < m.len() ==> #[trigger] m[i] != '.' || #[trigger] m[j] != '.'
        }),
{
    let m = if s.len() > 0 && s[0] == '-' {
        s.skip(1)
    } else {
        s
    };
    let parts = text::split(m, '.');
    text::law_pieces_make_the_text(m, '.');
    if parts.len() == 2 {
        assert(parts.drop_last() =~= seq![parts[0]]);
        assert(text::join(parts.drop_last(), seq!['.']) == parts[0]);
        assert(m == parts[0] + seq!['.'] + parts[1]);
        assert(m[0] == parts[0][0]);
    } else {
        assert(m == parts[0]);
    }
}

} // verus!
