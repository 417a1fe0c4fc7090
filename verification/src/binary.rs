//! Binary numbers with 53 significant bits: how a number is rounded to one, a
//! half to the even one. Numbers are counted in units of 2^-112, so small that
//! 10^-18 still has 53 bits.

use vstd::prelude::*;

verus! {

/// Two to the power of `n`.
pub open spec fn pow2(n: nat) -> nat
    decreases n,
{
    if n == 0 {
        1
    } else {
        2 * pow2((n - 1) as nat)
    }
}

/// The number of binary digits of `n`.
pub open spec fn bits(n: nat) -> nat
    decreases n,
{
    if n == 0 {
        0
    } else {
        1 + bits(n / 2)
    }
}

/// The whole number nearest to `a / b`, the even one of two.
pub open spec fn nearest(a: nat, b: nat) -> nat {
    let q = a / b;
    let r = a % b;
    if 2 * r > b || (2 * r == b && q % 2 == 1) {
        q + 1
    } else {
        q
    }
}

/// How many binary digits of the whole part of `a / b` are beyond the 53 that
/// are kept.
pub open spec fn spare(a: nat, b: nat) -> nat {
    if bits(a / b) > 53 {
        (bits(a / b) - 53) as nat
    } else {
        0
    }
}

/// The number nearest to `a / b` that has 53 significant bits.
pub open spec fn rounded(a: nat, b: nat) -> nat {
    nearest(a, b * pow2(spare(a, b))) * pow2(spare(a, b))
}

// ---------------------------------------------------------------------------
// Powers and digits
// ---------------------------------------------------------------------------

pub proof fn lemma_pow2_add(a: nat, b: nat)
    ensures
        pow2(a + b) == pow2(a) * pow2(b),
        pow2(a) > 0,
    decreases a,
{
    if a > 0 {
        let half = pow2((a - 1) as nat);
        lemma_pow2_add((a - 1) as nat, b);
        assert(pow2(a + b) == 2 * pow2((a - 1 + b) as nat));
        assert(2 * (half * pow2(b)) == (2 * half) * pow2(b)) by (nonlinear_arith);
    } else {
        assert(pow2(a) == 1);
        assert(1 * pow2(b) == pow2(b));
    }
}

proof fn lemma_power_product(a: nat, b: nat, x: nat, y: nat)
    requires
        pow2(a) == x,
        pow2(b) == y,
    ensures
        pow2(a + b) == x * y,
{
    lemma_pow2_add(a, b);
}

pub proof fn lemma_pow2_grows(a: nat, b: nat)
    requires
        a <= b,
    ensures
        0 < pow2(a) <= pow2(b),
        a < b ==> 2 * pow2(a) <= pow2(b),
    decreases b - a,
{
    if a < b {
        lemma_pow2_grows(a, (b - 1) as nat);
    } else {
        lemma_pow2_add(a, 0);
    }
}

/// The powers that the rounding of times needs.
pub proof fn lemma_powers()
    ensures
        pow2(9) == 512,
        pow2(10) == 1024,
        pow2(52) == 4_503_599_627_370_496,
        pow2(53) == 9_007_199_254_740_992,
        pow2(59) == 576_460_752_303_423_488,
        pow2(60) == 1_152_921_504_606_846_976,
        pow2(62) == 4_611_686_018_427_387_904,
        pow2(111) == 2_596_148_429_267_413_814_265_248_164_610_048,
        pow2(112) == 5_192_296_858_534_827_628_530_496_329_220_096,
        pow2(113) == 10_384_593_717_069_655_257_060_992_658_440_192,
{
    assert(pow2(9) == 512 && pow2(10) == 1024) by {
        reveal_with_fuel(pow2, 11);
    }
    lemma_power_product(10, 10, 1024, 1024);
    lemma_power_product(20, 20, 1_048_576, 1_048_576);
    lemma_power_product(40, 10, 1_099_511_627_776, 1024);
    lemma_power_product(50, 9, 1_125_899_906_842_624, 512);
    lemma_power_product(50, 10, 1_125_899_906_842_624, 1024);
    assert(pow2(51) == 2 * pow2(50));
    assert(pow2(52) == 2 * pow2(51));
    assert(pow2(53) == 2 * pow2(52));
    assert(pow2(61) == 2 * pow2(60));
    assert(pow2(62) == 2 * pow2(61));
    lemma_power_product(60, 50, 1_152_921_504_606_846_976, 1_125_899_906_842_624);
    assert(pow2(111) == 2 * pow2(110));
    assert(pow2(112) == 2 * pow2(111));
    assert(pow2(113) == 2 * pow2(112));
}

pub proof fn lemma_bits(n: nat, k: nat)
    requires
        k > 0,
        pow2((k - 1) as nat) <= n < pow2(k),
    ensures
        bits(n) == k,
    decreases k,
{
    if k > 1 {
        assert(pow2((k - 1) as nat) == 2 * pow2((k - 2) as nat));
        lemma_bits(n / 2, (k - 1) as nat);
    } else {
        assert(n == 1);
        reveal_with_fuel(bits, 2);
    }
}

pub proof fn lemma_bits_bound(n: nat)
    ensures
        n < pow2(bits(n)),
        n > 0 ==> bits(n) > 0 && pow2((bits(n) - 1) as nat) <= n,
    decreases n,
{
    if n > 0 {
        lemma_bits_bound(n / 2);
        if n / 2 > 0 {
            assert(pow2((bits(n) - 1) as nat) == 2 * pow2((bits(n / 2) - 1) as nat));
        }
    }
}

// ---------------------------------------------------------------------------
// Rounding
// ---------------------------------------------------------------------------

/// A fraction is rounded by its value alone.
pub proof fn lemma_nearest_scaled(a: nat, b: nat, c: nat)
    requires
        b > 0,
        c > 0,
    ensures
        nearest(a * c, b * c) == nearest(a, b),
{
    let q = a / b;
    let r = a % b;
    assert(a == q * b + r && r < b) by (nonlinear_arith)
        requires
            b > 0,
            q == a / b,
            r == a % b,
    ;
    assert(a * c == q * (b * c) + r * c) by (nonlinear_arith)
        requires
            a == q * b + r,
    ;
    assert(0 <= r * c < b * c) by (nonlinear_arith)
        requires
            0 <= r < b,
            c > 0,
    ;
    lemma_quotient(a * c, b * c, q, r * c);
    assert((2 * r > b) == (2 * (r * c) > b * c)) by (nonlinear_arith)
        requires
            c > 0,
    ;
    assert((2 * r == b) == (2 * (r * c) == b * c)) by (nonlinear_arith)
        requires
            c > 0,
    ;
}

/// Quotient and remainder are known by their sum.
pub proof fn lemma_quotient(a: nat, b: nat, q: nat, r: nat)
    requires
        r < b,
        a == q * b + r,
    ensures
        a / b == q,
        a % b == r,
{
    vstd::arithmetic::div_mod::lemma_fundamental_div_mod_converse(
        a as int,
        b as int,
        q as int,
        r as int,
    );
}

pub proof fn lemma_divided(a: nat, b: nat)
    requires
        b > 0,
    ensures
        a == (a / b) * b + a % b,
        a % b < b,
{
    assert(a == (a / b) * b + a % b && a % b < b) by (nonlinear_arith)
        requires
            b > 0,
    ;
}

/// Where the leading digit of `a / b` stands, so many digits are spare.
pub proof fn lemma_spare(a: nat, b: nat, e: nat)
    requires
        b > 0,
        pow2(52 + e) * b <= a < pow2(53 + e) * b,
    ensures
        spare(a, b) == e,
        rounded(a, b) == nearest(a, b * pow2(e)) * pow2(e),
{
    let q = a / b;
    lemma_divided(a, b);
    assert(pow2(52 + e) <= q < pow2(53 + e)) by (nonlinear_arith)
        requires
            b > 0,
            a == q * b + a % b,
            0 <= a % b < b,
            pow2(52 + e) * b <= a < pow2(53 + e) * b,
    ;
    lemma_bits(q, 53 + e);
}

/// A rounded number is off by no more than half of its last digit.
pub proof fn lemma_rounded_close(a: nat, b: nat)
    requires
        b > 0,
        pow2(52) * b <= a,
    ensures
        pow2(53) * (rounded(a, b) * b - a) <= a,
        pow2(53) * (a - rounded(a, b) * b) <= a,
{
    let q = a / b;
    lemma_divided(a, b);
    lemma_powers();
    assert(pow2(52) <= q) by (nonlinear_arith)
        requires
            b > 0,
            a == q * b + a % b,
            0 <= a % b < b,
            pow2(52) * b <= a,
    ;
    lemma_bits_bound(q);
    let k = bits(q);
    if k < 53 {
        lemma_pow2_grows(k, 52);
    }
    let e = (k - 53) as nat;
    assert(pow2((k - 1) as nat) * b <= a) by (nonlinear_arith)
        requires
            pow2((k - 1) as nat) <= q,
            a == q * b + a % b,
            a % b >= 0,
            b > 0,
    ;
    let u = pow2(e);
    lemma_pow2_add(52, e);
    lemma_pow2_grows(e, e);
    assert(52 + e == k - 1);
    let d = b * u;
    assert(d > 0) by (nonlinear_arith)
        requires
            b > 0,
            u > 0,
            d == b * u,
    ;
    lemma_divided(a, d);
    let n = nearest(a, d);
    assert(2 * (n * d - a) <= d && 2 * (a - n * d) <= d) by (nonlinear_arith)
        requires
            a == (a / d) * d + a % d,
            n == a / d && 2 * (a % d) <= d || n == a / d + 1 && 2 * (a % d) >= d,
            0 <= a % d < d,
    ;
    assert(rounded(a, b) * b == n * d) by (nonlinear_arith)
        requires
            rounded(a, b) == n * u,
            d == b * u,
    ;
    assert(pow2(52) * d <= a) by (nonlinear_arith)
        requires
            pow2((k - 1) as nat) == pow2(52) * u,
            pow2((k - 1) as nat) * b <= a,
            d == b * u,
    ;
}

/// A number is rounded to more than one exactly where it is above one by more
/// than half of the last digit.
pub proof fn lemma_more_than_one(z: nat)
    ensures
        rounded(z, 1) > pow2(112) <==> z > pow2(112) + pow2(59),
{
    lemma_powers();
    lemma_bits_bound(z);
    assert(z / 1 == z);
    let k = bits(z);
    let e = spare(z, 1);
    let u = pow2(e);
    lemma_pow2_grows(e, e);
    assert(1 * u == u);
    lemma_divided(z, u);
    let q = z / u;
    let r = z % u;
    assert(rounded(z, 1) == nearest(z, u) * u);
    if z < pow2(113) {
        if k > 113 {
            lemma_pow2_grows(113, (k - 1) as nat);
        }
        if k <= 53 {
            assert(u == 1);
            assert(z % 1 == 0);
            assert(rounded(z, 1) == z);
            lemma_pow2_grows(k, 53);
        } else if z < pow2(112) {
            if k > 112 {
                lemma_pow2_grows(112, (k - 1) as nat);
            }
            lemma_pow2_add(e, (112 - e) as nat);
            let c = pow2((112 - e) as nat);
            assert((q + 1) * u <= pow2(112)) by (nonlinear_arith)
                requires
                    z == q * u + r,
                    r >= 0,
                    z < u * c,
                    u > 0,
                    pow2(112) == u * c,
            ;
            assert(nearest(z, u) * u <= (q + 1) * u) by (nonlinear_arith)
                requires
                    nearest(z, u) <= q + 1,
                    u > 0,
            ;
        } else {
            lemma_bits(z, 113);
            assert(e == 60);
            let n = nearest(z, u);
            assert(q >= pow2(52)) by (nonlinear_arith)
                requires
                    z == q * u + r,
                    r < u,
                    u == 1_152_921_504_606_846_976,
                    pow2(52) == 4_503_599_627_370_496,
                    z >= 5_192_296_858_534_827_628_530_496_329_220_096,
            ;
            if q == pow2(52) {
                assert(z == pow2(112) + r);
                if n == q + 1 {
                    assert(n * u == q * u + u) by (nonlinear_arith)
                        requires
                            n == q + 1,
                    ;
                } else {
                    assert(n * u == pow2(112));
                }
            } else {
                assert(n * u > pow2(112) && z >= pow2(112) + u) by (nonlinear_arith)
                    requires
                        n >= q,
                        q >= pow2(52) + 1,
                        z == q * u + r,
                        r >= 0,
                        u == 1_152_921_504_606_846_976,
                        pow2(52) == 4_503_599_627_370_496,
                        pow2(112) == 5_192_296_858_534_827_628_530_496_329_220_096,
                ;
            }
        }
    } else {
        if k < 114 {
            lemma_pow2_grows(k, 113);
        }
        assert(e == k - 53);
        lemma_pow2_add(e, 52);
        lemma_pow2_grows(113, (k - 1) as nat);
        assert(q >= pow2(52)) by (nonlinear_arith)
            requires
                z == q * u + r,
                0 <= r < u,
                z >= u * pow2(52),
                u > 0,
        ;
        assert(nearest(z, u) * u >= pow2(52) * u) by (nonlinear_arith)
            requires
                nearest(z, u) >= q,
                q >= pow2(52),
                u > 0,
        ;
    }
}

// ---------------------------------------------------------------------------
// Computing
// ---------------------------------------------------------------------------

/// Two to the power of `n`.
pub fn power(n: u32) -> (r: u128)
    requires
        n <= 126,
    ensures
        r == pow2(n as nat),
        0 < r,
{
    let mut r: u128 = 1;
    let mut i: u32 = 0;
    while i < n
        invariant
            i <= n <= 126,
            r == pow2(i as nat),
            r > 0,
        decreases n - i,
    {
        proof {
            lemma_powers();
            lemma_pow2_add(113, 13);
            lemma_pow2_grows((i + 1) as nat, 126);
            assert(pow2(13) == 8192) by {
                reveal_with_fuel(pow2, 14);
            }
        }
        r = r * 2;
        i = i + 1;
    }
    r
}

/// The whole number nearest to `a / b`, the even one of two.
pub fn nearest_of(a: u128, b: u128) -> (r: u128)
    requires
        0 < b < 0x4000_0000_0000_0000_0000_0000_0000_0000,
        a <= 0x8000_0000_0000_0000_0000_0000_0000_0000,
    ensures
        r == nearest(a as nat, b as nat),
{
    let q: u128 = a / b;
    let r: u128 = a % b;
    proof {
        lemma_divided(a as nat, b as nat);
        assert(q <= a) by (nonlinear_arith)
            requires
                a == q * b + r,
                b > 0,
                r >= 0,
                q >= 0,
        ;
    }
    if 2 * r > b || (2 * r == b && q % 2 == 1) {
        q + 1
    } else {
        q
    }
}

// ---------------------------------------------------------------------------
// Laws
// ---------------------------------------------------------------------------

/// The nearest whole number is off by no more than a half, and is even where it is off
/// by exactly that.
pub proof fn law_nearest_number(a: nat, b: nat)
    requires
        b > 0,
    ensures
        2 * (nearest(a, b) * b - a) <= b,
        2 * (a - nearest(a, b) * b) <= b,
        2 * (nearest(a, b) * b - a) == b || 2 * (a - nearest(a, b) * b) == b ==> nearest(a, b) % 2
            == 0,
{
    lemma_divided(a, b);
    let q = a / b;
    let r = a % b;
    let n = nearest(a, b);
    assert((q + 1) * b == q * b + b) by (nonlinear_arith);
    if n == q {
        assert(n * b == a - r);
    } else {
        assert(n == q + 1);
        assert(n * b == a - r + b);
    }
}

/// Rounding keeps 53 significant bits: of a number with `e` bits more, the nearest
/// multiple of two to the power of `e`, and of a number without more bits the nearest
/// whole number.
pub proof fn law_rounded_number(a: nat, b: nat, e: nat)
    requires
        b > 0,
    ensures
        pow2(52 + e) * b <= a < pow2(53 + e) * b ==> rounded(a, b) == nearest(a, b * pow2(e))
            * pow2(e),
        a < 9_007_199_254_740_992 * b ==> rounded(a, b) == nearest(a, b),
        pow2(0) == 1,
        pow2(e + 1) == 2 * pow2(e),
{
    lemma_powers();
    if pow2(52 + e) * b <= a < pow2(53 + e) * b {
        lemma_spare(a, b, e);
    }
    if a < 9_007_199_254_740_992 * b {
        let q = a / b;
        lemma_divided(a, b);
        assert(q < 9_007_199_254_740_992) by (nonlinear_arith)
            requires
                a == q * b + a % b,
                0 <= a % b,
                a < 9_007_199_254_740_992 * b,
                b > 0,
        ;
        lemma_bits_bound(q);
        if bits(q) > 53 {
            lemma_pow2_grows(53, (bits(q) - 1) as nat);
        }
        assert(b * pow2(0) == b) by (nonlinear_arith)
            requires
                pow2(0) == 1,
        ;
        assert(nearest(a, b) * pow2(0) == nearest(a, b)) by (nonlinear_arith)
            requires
                pow2(0) == 1,
        ;
    }
}

} // verus!
