//! Finite double-precision numbers, held as their bit patterns.
//!
//! Every finite double is a whole multiple of 2^-1074, so its exact value is an integer once
//! it is counted in those units. Rounding, clamping and comparison are all stated over that
//! integer, and the executable functions work on the bit patterns alone.
use vstd::prelude::*;
use vstd::arithmetic::power2::*;
use vstd::arithmetic::mul::*;
use vstd::arithmetic::div_mod::*;

verus! {

/// 2^52: the weight of the bit above the stored fraction of a normal double.
pub const IMPLICIT_BIT: u64 = 0x0010_0000_0000_0000;

/// The sign bit.
pub const SIGN_BIT: u64 = 0x8000_0000_0000_0000;

/// The bit pattern of positive infinity; every finite magnitude lies below it.
pub const INFINITY_BITS: u64 = 0x7FF0_0000_0000_0000;

/// The bit pattern of one.
pub const ONE_BITS: u64 = 0x3FF0_0000_0000_0000;

/// The bit pattern of one hundred.
pub const HUNDRED_BITS: u64 = 0x4059_0000_0000_0000;

/// The bit pattern of 2^-47, half the distance from one hundred to the double below it.
pub const HALF_GAP_BITS: u64 = 0x3D00_0000_0000_0000;

/// The power of two by which the significand of the magnitude `b` is scaled, in units.
pub open spec fn scale_of(b: nat) -> nat {
    if b < IMPLICIT_BIT {
        0
    } else {
        (b / IMPLICIT_BIT as nat - 1) as nat
    }
}

/// The significand of the magnitude `b`, with its implicit bit.
pub open spec fn significand_of(b: nat) -> nat {
    if b < IMPLICIT_BIT {
        b
    } else {
        IMPLICIT_BIT as nat + b % IMPLICIT_BIT as nat
    }
}

/// The value of the double whose sign-free bit pattern is `b`, as a count of 2^-1074.
pub open spec fn units(b: nat) -> nat {
    significand_of(b) * pow2(scale_of(b))
}

/// The number one in units.
pub open spec fn one() -> nat {
    pow2(1074)
}

/// The signed value, in units, of the double with this bit pattern.
pub open spec fn signed_units(bits: u64) -> int {
    if bits >= SIGN_BIT {
        -(units((bits - SIGN_BIT) as nat) as int)
    } else {
        units(bits as nat) as int
    }
}

/// The distance between two counts of units.
pub open spec fn distance(a: nat, b: nat) -> nat {
    if a <= b {
        (b - a) as nat
    } else {
        (a - b) as nat
    }
}

/// `b` is the magnitude that rounding to nearest, ties to even, gives for the exact value `v`.
pub open spec fn is_nearest(v: nat, b: nat) -> bool {
    forall|c: nat|
        #![trigger units(c)]
        c != b ==> {
            ||| distance(units(b), v) < distance(units(c), v)
            ||| distance(units(b), v) == distance(units(c), v) && b % 2 == 0
        }
}

/// The magnitude nearest to the exact value `v`, ties to even.
pub open spec fn nearest(v: nat) -> nat {
    choose|b: nat| is_nearest(v, b)
}

/// The exact value `v` rounded to a double and held within zero and one hundred.
pub open spec fn percent_bits(v: int) -> nat {
    if v <= 0 {
        0
    } else if v >= 100 * one() {
        HUNDRED_BITS as nat
    } else {
        nearest(v as nat)
    }
}

/// The integer nearest to a magnitude, halves away from zero.
pub open spec fn rounded_magnitude(b: nat) -> nat {
    (2 * units(b) + one()) / (2 * one())
}

/// `v` held within the range from `low` to `high`.
pub open spec fn held_within(v: int, low: int, high: int) -> int {
    if v < low {
        low
    } else if v > high {
        high
    } else {
        v
    }
}

/// The integer nearest to the double with this bit pattern, halves away from zero, held
/// within the range of `i64`.
pub open spec fn rounded_i64(bits: u64) -> int {
    if bits >= SIGN_BIT {
        held_within(-rounded_magnitude((bits - SIGN_BIT) as nat), i64::MIN as int, i64::MAX as int)
    } else {
        held_within(rounded_magnitude(bits as nat) as int, i64::MIN as int, i64::MAX as int)
    }
}

/// The integer nearest to the product of an integer and the double with this bit pattern, after
/// the product is itself rounded to a double; held within the range of `i32`.
pub open spec fn scaled_i32(factor: u32, bits: u64) -> int {
    if bits >= SIGN_BIT {
        held_within(
            -rounded_magnitude(nearest(factor as nat * units((bits - SIGN_BIT) as nat))),
            i32::MIN as int,
            i32::MAX as int,
        )
    } else {
        held_within(
            rounded_magnitude(nearest(factor as nat * units(bits as nat))) as int,
            i32::MIN as int,
            i32::MAX as int,
        )
    }
}

/// The step from one magnitude to the next is one unit at the magnitude's own scale.
proof fn lemma_step(b: nat)
    ensures
        units(b + 1) == units(b) + pow2(scale_of(b)),
{
    let h: nat = IMPLICIT_BIT as nat;
    let e: nat = b / h;
    let f: nat = b % h;
    lemma_fundamental_div_mod(b as int, h as int);
    if f + 1 < h {
        lemma_fundamental_div_mod_converse((b + 1) as int, h as int, e as int, (f + 1) as int);
        if b < h {
            lemma_fundamental_div_mod_converse(b as int, h as int, 0, b as int);
        } else {
            lemma_div_is_ordered(h as int, b as int, h as int);
            lemma_div_by_self(h as int);
        }
        let s: nat = significand_of(b);
        let p: nat = pow2(scale_of(b));
        assert(significand_of(b + 1) == s + 1);
        assert(scale_of(b + 1) == scale_of(b));
        assert((s + 1) * p == s * p + p) by (nonlinear_arith);
    } else {
        assert(b + 1 == (e + 1) * h) by (nonlinear_arith)
            requires
                b == h * e + f,
                f + 1 == h,
        ;
        lemma_fundamental_div_mod_converse((b + 1) as int, h as int, (e + 1) as int, 0);
        if b < h {
            lemma_fundamental_div_mod_converse(b as int, h as int, 0, b as int);
            assert(e == 0);
            assert(units(b + 1) == h * pow2(0));
            assert(units(b) == (h - 1) * pow2(0));
            let p: nat = pow2(0);
            assert(h * p == (h - 1) * p + p) by (nonlinear_arith);
        } else {
            lemma_div_is_ordered(h as int, b as int, h as int);
            lemma_div_by_self(h as int);
            lemma_pow2_unfold(e);
            let p: nat = pow2((e - 1) as nat);
            assert(units(b + 1) == h * pow2(e));
            assert(units(b) == (2 * h - 1) * p);
            assert(h * (2 * p) == (2 * h - 1) * p + p) by (nonlinear_arith);
        }
    }
}

/// Magnitudes order as the values they stand for.
pub proof fn lemma_units_increase(b: nat, c: nat)
    requires
        b < c,
    ensures
        units(b) < units(c),
    decreases c,
{
    let d: nat = (c - 1) as nat;
    lemma_step(d);
    lemma_pow2_pos(scale_of(d));
    if b < d {
        lemma_units_increase(b, d);
    }
}

/// A significand and a scale, put together, stand for their product.
proof fn lemma_assemble(q: nat, t: nat)
    requires
        q <= 2 * IMPLICIT_BIT,
        q >= IMPLICIT_BIT || t == 0,
    ensures
        units(t * IMPLICIT_BIT as nat + q) == q * pow2(t),
{
    let h: nat = IMPLICIT_BIT as nat;
    let b: nat = t * h + q;
    if q < h {
        assert(b == q) by (nonlinear_arith)
            requires
                b == t * h + q,
                t == 0,
        ;
    } else if q < 2 * h {
        assert(b == (t + 1) * h + (q - h)) by (nonlinear_arith)
            requires
                b == t * h + q,
        ;
        lemma_fundamental_div_mod_converse(b as int, h as int, (t + 1) as int, (q - h) as int);
        assert(b >= h) by (nonlinear_arith)
            requires
                b == t * h + q,
                q >= h,
                t >= 0,
        ;
    } else {
        assert(b == (t + 2) * h) by (nonlinear_arith)
            requires
                b == t * h + q,
                q == 2 * h,
        ;
        lemma_fundamental_div_mod_converse(b as int, h as int, (t + 2) as int, 0);
        assert(b >= h) by (nonlinear_arith)
            requires
                b == t * h + q,
                q >= h,
                t >= 0,
        ;
        lemma_pow2_unfold(t + 1);
        let p: nat = pow2(t);
        assert(h * (2 * p) == (2 * h) * p) by (nonlinear_arith);
    }
}

/// Where `v` lies between two neighbouring magnitudes, the closer of them is the nearest of
/// all, and the even one of two that are equally close.
proof fn lemma_nearest_of_neighbours(v: nat, b: nat)
    requires
        units(b) <= v <= units(b + 1),
    ensures
        v - units(b) < units(b + 1) - v ==> is_nearest(v, b),
        v - units(b) > units(b + 1) - v ==> is_nearest(v, b + 1),
        v - units(b) == units(b + 1) - v && b % 2 == 0 ==> is_nearest(v, b),
        v - units(b) == units(b + 1) - v && b % 2 == 1 ==> is_nearest(v, b + 1),
{
    assert forall|c: nat| c != b && c != b + 1 implies {
        &&& #[trigger] units(c) < units(b) || units(c) > units(b + 1)
    } by {
        if c < b {
            lemma_units_increase(c, b);
        } else {
            lemma_units_increase(b + 1, c);
        }
    }
}

/// Rounding has one outcome: two magnitudes nearest to the same value are the same.
pub proof fn lemma_nearest_unique(v: nat, b: nat, c: nat)
    requires
        is_nearest(v, b),
        is_nearest(v, c),
    ensures
        b == c,
        nearest(v) == b,
{
    if b < c {
        lemma_nearest_distinct(v, b, c);
    } else if c < b {
        lemma_nearest_distinct(v, c, b);
    }
    let d: nat = nearest(v);
    if b < d {
        lemma_nearest_distinct(v, b, d);
    } else if d < b {
        lemma_nearest_distinct(v, d, b);
    }
}

/// Two different magnitudes cannot both be nearest to the same value.
proof fn lemma_nearest_distinct(v: nat, b: nat, c: nat)
    requires
        b < c,
    ensures
        !(is_nearest(v, b) && is_nearest(v, c)),
{
    if is_nearest(v, b) && is_nearest(v, c) {
        lemma_units_increase(b, c);
        assert(distance(units(b), v) == distance(units(c), v));
        assert(b % 2 == 0 && c % 2 == 0);
        lemma_units_increase(b, b + 1);
        lemma_units_increase(b + 1, c);
        assert(distance(units((b + 1) as nat), v) < distance(units(b), v));
        assert(false);
    }
}

/// A value that a double holds exactly rounds to that double.
pub proof fn lemma_exact_is_nearest(b: nat)
    ensures
        is_nearest(units(b), b),
        nearest(units(b)) == b,
{
    lemma_step(b);
    lemma_pow2_pos(scale_of(b));
    lemma_nearest_of_neighbours(units(b), b);
    lemma_nearest_unique(units(b), b, b);
}

/// The powers of two that fit a `u128`.
proof fn lemma_power_fits(n: nat)
    requires
        n <= 126,
    ensures
        0 < pow2(n),
        2 * pow2(n) <= u128::MAX,
{
    lemma_pow2_pos(n);
    if n < 126 {
        lemma_pow2_strictly_increases(n, 126);
    }
    lemma_pow2_adds(63, 63);
    assert(pow2(63) == 0x8000_0000_0000_0000) by {
        lemma2_to64_rest();
    }
}

/// Two to the power `n`.
fn power_of_two(n: u64) -> (r: u128)
    requires
        n <= 126,
    ensures
        r == pow2(n as nat),
{
    let mut r: u128 = 1;
    let mut i: u64 = 0;
    proof {
        lemma2_to64();
    }
    while i < n
        invariant
            i <= n <= 126,
            r == pow2(i as nat),
        decreases n - i,
    {
        proof {
            lemma_power_fits(i as nat);
            lemma_pow2_unfold((i + 1) as nat);
        }
        r = r * 2;
        i = i + 1;
    }
    r
}

/// The magnitude nearest to `m` times two to the power `k`, in units.
fn round_scaled(m: u128, k: u64) -> (b: u64)
    requires
        m < pow2(107),
        k <= 2045,
    ensures
        is_nearest(m as nat * pow2(k as nat), b as nat),
        nearest(m as nat * pow2(k as nat)) == b,
{
    let ghost v: nat = m as nat * pow2(k as nat);
    let mut step: u128 = 1;
    let mut s: u64 = 0;
    let h: u128 = IMPLICIT_BIT as u128;
    proof {
        lemma2_to64();
        lemma2_to64_rest();
    }
    while m / step >= 2 * h
        invariant
            h == IMPLICIT_BIT,
            m < pow2(107),
            s <= 54,
            step == pow2(s as nat),
            step > 0,
            s == 0 || m / step >= h,
        decreases 60 - s,
    {
        proof {
            lemma_power_fits(s as nat);
            lemma_pow2_unfold((s + 1) as nat);
            lemma_fundamental_div_mod(m as int, step as int);
            let q: int = (m / step) as int;
            assert(m >= 2 * h * step) by (nonlinear_arith)
                requires
                    m == step * q + m % step,
                    m % step >= 0,
                    q >= 2 * h,
                    step > 0,
            ;
            if s >= 54 {
                lemma_pow2_adds(53, 54);
                assert(pow2(53) == 2 * h) by {
                    lemma2_to64_rest();
                }
            }
            lemma_div_denominator(m as int, step as int, 2);
            assert(q / 2 >= h);
        }
        step = step * 2;
        s = s + 1;
    }
    let q0: u64 = (m / step) as u64;
    let r: u128 = m % step;
    let mut q: u64 = q0;
    let mut t: u64 = k + s;
    proof {
        lemma_fundamental_div_mod(m as int, step as int);
        lemma_pow2_adds(k as nat, s as nat);
        let p: nat = pow2(k as nat);
        let big: nat = pow2((k + s) as nat);
        assert(v == q0 * big + r * p) by (nonlinear_arith)
            requires
                v == m * p,
                m == step * q0 + r,
                big == p * step,
        ;
        if s == 0 {
            assert(r == 0) by {
                assert(step == 1);
                lemma_mod_division_less_than_divisor(m as int, 1);
            }
        }
    }
    while q < IMPLICIT_BIT && t > 0
        invariant
            q < 2 * IMPLICIT_BIT,
            t <= k + s,
            k <= 2045,
            s <= 54,
            q * pow2(t as nat) == q0 * pow2((k + s) as nat),
            s > 0 ==> q == q0 && t == k + s && q >= IMPLICIT_BIT,
        decreases t,
    {
        proof {
            lemma_pow2_unfold(t as nat);
            let p: nat = pow2((t - 1) as nat);
            assert(q * (2 * p) == (2 * q) * p) by (nonlinear_arith);
        }
        q = q * 2;
        t = t - 1;
    }
    let ghost base: nat = t as nat * IMPLICIT_BIT as nat + q as nat;
    assert(base <= 2101 * IMPLICIT_BIT) by (nonlinear_arith)
        requires
            base == t * IMPLICIT_BIT + q,
            t <= 2099,
            q < IMPLICIT_BIT * 2,
            IMPLICIT_BIT == 0x0010_0000_0000_0000,
    ;
    let b: u64 = t * IMPLICIT_BIT + q;
    proof {
        lemma_assemble(q as nat, t as nat);
        lemma_step(b as nat);
    }
    let up: bool = r > step - r || (r == step - r && b % 2 == 1);
    proof {
        if s == 0 {
            lemma_exact_is_nearest(b as nat);
            assert(v == units(b as nat)) by {
                let p: nat = pow2(k as nat);
                assert(0 * p == 0) by (nonlinear_arith);
            }
            assert(!up);
        } else {
            let p: nat = pow2(k as nat);
            let big: nat = pow2((k + s) as nat);
            lemma_assemble((q + 1) as nat, t as nat);
            assert((q + 1) * big == q * big + big) by (nonlinear_arith);
            assert(units((b + 1) as nat) == units(b as nat) + big);
            assert(v - units(b as nat) == r * p);
            assert(big - r * p == (step - r) * p) by (nonlinear_arith)
                requires
                    big == p * step,
            ;
            lemma_pow2_pos(k as nat);
            assert(r < step - r ==> r * p < (step - r) * p) by (nonlinear_arith)
                requires
                    p > 0,
            ;
            assert(r > step - r ==> r * p > (step - r) * p) by (nonlinear_arith)
                requires
                    p > 0,
            ;
            assert(r * p >= 0) by (nonlinear_arith)
                requires
                    p > 0,
                    r >= 0,
            ;
            assert((step - r) * p >= 0) by (nonlinear_arith)
                requires
                    p > 0,
                    step - r >= 0,
            ;
            lemma_nearest_of_neighbours(v, b as nat);
        }
    }
    let result: u64 = if up {
        b + 1
    } else {
        b
    };
    proof {
        lemma_nearest_unique(v, result as nat, result as nat);
    }
    result
}

/// The bit patterns of the constants, in units.
proof fn lemma_constants()
    ensures
        units(ONE_BITS as nat) == one(),
        units(HUNDRED_BITS as nat) == 100 * one(),
        units(HALF_GAP_BITS as nat) == pow2(1027),
        units((HUNDRED_BITS - 1) as nat) == 100 * one() - pow2(1028),
        units(0) == 0,
        one() > 0,
{
    assert(pow2(52) == IMPLICIT_BIT && pow2(48) == 0x1_0000_0000_0000 && pow2(46)
        == 0x4000_0000_0000 && pow2(0) == 1 && pow2(2) == 4) by {
        lemma2_to64();
        lemma2_to64_rest();
    }
    lemma_pow2_adds(52, 1022);
    lemma_pow2_adds(48, 1028);
    lemma_pow2_adds(2, 1074);
    lemma_pow2_adds(52, 975);
    lemma_pow2_pos(1074);
    assert(scale_of(ONE_BITS as nat) == 1022);
    assert(scale_of(HUNDRED_BITS as nat) == 1028);
    assert(scale_of((HUNDRED_BITS - 1) as nat) == 1028);
    assert(scale_of(HALF_GAP_BITS as nat) == 975);
    let p: nat = pow2(1028);
    assert(significand_of(HUNDRED_BITS as nat) == 25 * pow2(48));
    let w: nat = pow2(48);
    assert((25 * w) * p == 25 * (w * p)) by (nonlinear_arith);
    lemma_step((HUNDRED_BITS - 1) as nat);
    assert(0 * pow2(0) == 0);
}

/// A `u64` is far below the bound that rounding asks for.
proof fn lemma_wide_enough()
    ensures
        pow2(107) > u64::MAX,
{
    lemma_pow2_strictly_increases(64, 107);
    lemma2_to64_rest();
}

/// A magnitude is worth at least as many units as its bit pattern reads.
proof fn lemma_units_grow(b: nat)
    ensures
        units(b) >= b,
    decreases b,
{
    if b > 0 {
        lemma_units_grow((b - 1) as nat);
        lemma_units_increase((b - 1) as nat, b);
    }
}

/// A percentage lies within zero and one hundred.
pub proof fn lemma_percent_range(v: int)
    ensures
        percent_bits(v) <= HUNDRED_BITS,
{
    if 0 < v < 100 * one() {
        lemma_constants();
        lemma_nearest_exists(v as nat);
        let b: nat = nearest(v as nat);
        if b > HUNDRED_BITS {
            lemma_units_increase(HUNDRED_BITS as nat, b);
            assert(distance(units(HUNDRED_BITS as nat), v as nat) < distance(units(b), v as nat));
        }
    }
}

/// Every value has a nearest magnitude.
pub proof fn lemma_nearest_exists(v: nat)
    ensures
        is_nearest(v, nearest(v)),
{
    lemma_units_grow(v + 1);
    let b: nat = lemma_floor(v, v);
    lemma_nearest_of_neighbours(v, b);
    if is_nearest(v, b) {
        lemma_nearest_unique(v, b, b);
    } else {
        lemma_nearest_unique(v, b + 1, b + 1);
    }
}

/// The greatest magnitude whose value is at most `v`, searched downwards from `top`.
proof fn lemma_floor(v: nat, top: nat) -> (b: nat)
    requires
        v <= units(top + 1),
    ensures
        units(b) <= v <= units(b + 1),
    decreases top,
{
    if units(top) <= v {
        top
    } else if top == 0 {
        lemma_constants();
        0
    } else {
        lemma_floor(v, (top - 1) as nat)
    }
}

/// The finite bit patterns.
pub open spec fn finite_bits(bits: u64) -> bool {
    bits % SIGN_BIT < INFINITY_BITS
}

/// The factor that turns a ratio into a percentage, or one where the value is a percentage.
pub open spec fn percent_factor(hundredfold: bool) -> int {
    if hundredfold {
        100
    } else {
        1
    }
}

/// A double taken as a percentage, or as a ratio of one hundred percent, and held within
/// zero and one hundred. A negative zero stays as it is.
pub open spec fn double_percent(bits: u64, hundredfold: bool) -> u64 {
    if bits == SIGN_BIT {
        SIGN_BIT
    } else {
        percent_bits(percent_factor(hundredfold) * signed_units(bits)) as u64
    }
}

/// An integer taken as a percentage, or as a ratio of one hundred percent, and held within
/// zero and one hundred.
pub open spec fn integer_percent(n: int, hundredfold: bool) -> u64 {
    percent_bits(percent_factor(hundredfold) * n * one()) as u64
}

/// What a percentage leaves of one hundred.
pub open spec fn complement_bits(bits: u64) -> u64 {
    percent_bits(100 * one() - signed_units(bits)) as u64
}

/// The values that a percentage takes.
pub open spec fn is_percent(bits: u64) -> bool {
    bits <= HUNDRED_BITS || bits == SIGN_BIT
}

/// Equality of doubles: of their values, so that the two zeros are the same.
pub open spec fn same_double(a: u64, b: u64) -> bool {
    a == b || (a % SIGN_BIT == 0 && b % SIGN_BIT == 0)
}

/// Rounding keeps the order of values.
proof fn lemma_nearest_ordered(v: nat, w: nat)
    requires
        v <= w,
    ensures
        nearest(v) <= nearest(w),
{
    lemma_nearest_exists(v);
    lemma_nearest_exists(w);
    let b: nat = nearest(v);
    let c: nat = nearest(w);
    if b > c {
        lemma_units_increase(c, b);
        assert(distance(units(b), v) <= distance(units(c), v));
        assert(distance(units(c), w) <= distance(units(b), w));
        assert(v == w);
    }
}

/// Percentages order as the values from which they are made.
proof fn lemma_percent_ordered(v: int, w: int)
    requires
        v <= w,
    ensures
        percent_bits(v) <= percent_bits(w),
{
    lemma_percent_range(v);
    if 0 < v && w < 100 * one() {
        lemma_nearest_ordered(v as nat, w as nat);
    }
}

/// The more is used, the less is left.
pub proof fn law_more_used_less_left(a: u64, b: u64)
    requires
        signed_units(a) <= signed_units(b),
    ensures
        complement_bits(a) >= complement_bits(b),
{
    let left_a: int = 100 * one() - signed_units(a);
    let left_b: int = 100 * one() - signed_units(b);
    lemma_percent_range(left_a);
    lemma_percent_range(left_b);
    lemma_percent_ordered(left_b, left_a);
}

/// A whole number is held exactly where `shift` brings it to the length of a significand.
proof fn lemma_whole_number_is_exact(n: nat, shift: nat)
    requires
        shift <= 1074,
        IMPLICIT_BIT <= n * pow2(shift) <= 2 * IMPLICIT_BIT,
    ensures
        units(nearest(n * one())) == n * one(),
{
    let q: nat = n * pow2(shift);
    let t: nat = (1074 - shift) as nat;
    let b: nat = t * IMPLICIT_BIT as nat + q;
    lemma_assemble(q, t);
    lemma_pow2_adds(shift, t);
    let p: nat = pow2(shift);
    let r: nat = pow2(t);
    assert((n * p) * r == n * (p * r)) by (nonlinear_arith);
    lemma_exact_is_nearest(b);
}

/// Whole percentages are held exactly.
proof fn lemma_whole_percentage(n: nat)
    requires
        n <= 100,
    ensures
        integer_percent(n as int, false) <= HUNDRED_BITS,
        signed_units(integer_percent(n as int, false)) == n * one(),
{
    lemma_constants();
    lemma_percent_range((n * one()) as int);
    let o: nat = one();
    if n == 0 {
        assert(0 * o == 0) by (nonlinear_arith);
    } else if n < 100 {
        lemma2_to64();
        lemma2_to64_rest();
        assert(0 < n * o < 100 * o) by (nonlinear_arith)
            requires
                0 < n < 100,
                o > 0,
        ;
        let (shift, power): (nat, nat) = if n < 2 {
            (52, 0x0010_0000_0000_0000)
        } else if n < 4 {
            (51, 0x0008_0000_0000_0000)
        } else if n < 8 {
            (50, 0x0004_0000_0000_0000)
        } else if n < 16 {
            (49, 0x0002_0000_0000_0000)
        } else if n < 32 {
            (48, 0x0001_0000_0000_0000)
        } else if n < 64 {
            (47, 0x8000_0000_0000)
        } else {
            (46, 0x4000_0000_0000)
        };
        assert(pow2(shift) == power);
        assert(IMPLICIT_BIT <= n * power <= 2 * IMPLICIT_BIT);
        lemma_whole_number_is_exact(n, shift);
    }
}

/// Whole percentages add up: where `n` percent are used, the rest of one hundred is left.
pub proof fn law_whole_percentages_add_up(n: nat)
    requires
        n <= 100,
    ensures
        complement_bits(integer_percent(n as int, false)) == integer_percent(100 - n, false),
{
    lemma_whole_percentage(n);
    let o: nat = one();
    assert(100 * o - n * o == (100 - n) * o) by (nonlinear_arith);
}

/// A double holds a fraction of 52 bits and an exponent of 11: with the exponent zero it stands for
/// the fraction in units of 2^-1074, and with each further exponent from one on for twice as much,
/// the bit above the fraction included. The bit above those is the sign.
pub proof fn law_bits_of_a_double(exponent: nat, fraction: nat, bits: u64)
    requires
        fraction < 0x10_0000_0000_0000,
    ensures
        units(fraction) == fraction,
        exponent >= 1 ==> units(exponent * 0x10_0000_0000_0000 + fraction) == (0x10_0000_0000_0000
            + fraction) * pow2((exponent - 1) as nat),
        bits < 0x8000_0000_0000_0000 ==> signed_units(bits) == units(bits as nat),
        bits >= 0x8000_0000_0000_0000 ==> signed_units(bits) == -units(
            (bits - 0x8000_0000_0000_0000) as nat,
        ),
        finite_bits(bits) <==> (bits / 0x10_0000_0000_0000) % 0x800 != 0x7FF,
{
    assert(pow2(0) == 1) by {
        lemma2_to64();
    }
    assert(fraction * 1 == fraction);
    if exponent >= 1 {
        let q: nat = 0x10_0000_0000_0000 + fraction;
        let t: nat = (exponent - 1) as nat;
        lemma_assemble(q, t);
        assert(t * IMPLICIT_BIT as nat + q == exponent * 0x10_0000_0000_0000 + fraction)
            by (nonlinear_arith)
            requires
                q == 0x10_0000_0000_0000 + fraction,
                t == exponent - 1,
                IMPLICIT_BIT == 0x10_0000_0000_0000,
        ;
    }
}

/// What is nearest to a value from zero to one hundred is nearer than any other double, or as near
/// and even.
proof fn lemma_percent_nearest(v: int, c: nat)
    ensures
        v <= 0 ==> percent_bits(v) == 0,
        v >= 100 * pow2(1074) ==> percent_bits(v) == 0x4059_0000_0000_0000,
        0 < v < 100 * pow2(1074) && c != percent_bits(v) ==> {
            let p = units(percent_bits(v)) - v;
            let q = units(c) - v;
            let near = if p < 0 {
                -p
            } else {
                p
            };
            let far = if q < 0 {
                -q
            } else {
                q
            };
            near < far || (near == far && percent_bits(v) % 2 == 0)
        },
{
    lemma_constants();
    if 0 < v < 100 * pow2(1074) {
        lemma_nearest_exists(v as nat);
        assert(units(c) >= 0);
    }
}

/// A double taken as a percentage, or as a ratio of one hundred percent, is the double nearest to
/// the exact value, or the end of the range from zero to one hundred beyond which that lies: no
/// other double `c` is nearer, and of two that are as near the even one counts. A negative zero
/// stays one.
pub proof fn law_percentage_is_nearest(bits: u64, c: nat)
    requires
        finite_bits(bits),
    ensures
        bits == 0x8000_0000_0000_0000 ==> double_percent(bits, false) == bits && double_percent(
            bits,
            true,
        ) == bits,
        bits != 0x8000_0000_0000_0000 ==> {
            let v = signed_units(bits);
            let p = double_percent(bits, false) as nat;
            &&& v <= 0 ==> p == 0
            &&& v >= 100 * pow2(1074) ==> p == 0x4059_0000_0000_0000
            &&& 0 < v < 100 * pow2(1074) ==> p == bits
        },
        bits != 0x8000_0000_0000_0000 ==> {
            let v = 100 * signed_units(bits);
            let p = double_percent(bits, true) as nat;
            let d = units(p) - v;
            let e = units(c) - v;
            &&& v <= 0 ==> p == 0
            &&& v >= 100 * pow2(1074) ==> p == 0x4059_0000_0000_0000
            &&& 0 < v < 100 * pow2(1074) && c != p ==> -d < e && d < e || -d < -e && d < -e || ((d
                == e || d == -e) && p % 2 == 0)
        },
{
    let u: int = signed_units(bits);
    lemma_percent_range(u);
    lemma_percent_range(100 * u);
    lemma_percent_nearest(100 * u, c);
    lemma_percent_nearest(u, c);
    lemma_constants();
    if bits > SIGN_BIT {
        lemma_units_increase(0, (bits - SIGN_BIT) as nat);
    } else if 0 < bits < SIGN_BIT {
        lemma_units_increase(0, bits as nat);
        lemma_exact_is_nearest(bits as nat);
    }
}

/// What a percentage leaves of one hundred is the double nearest to the exact difference: no other
/// double `c` is nearer, and of two that are as near the even one counts. It lies within zero and
/// one hundred.
pub proof fn law_complement_is_nearest(bits: u64, c: nat)
    ensures
        ({
            let v = 100 * pow2(1074) - signed_units(bits);
            let p = complement_bits(bits) as nat;
            let d = units(p) - v;
            let e = units(c) - v;
            &&& v <= 0 ==> p == 0
            &&& v >= 100 * pow2(1074) ==> p == 0x4059_0000_0000_0000
            &&& 0 < v < 100 * pow2(1074) && c != p ==> -d < e && d < e || -d < -e && d < -e || ((d
                == e || d == -e) && p % 2 == 0)
            &&& 0 <= units(p) <= 100 * pow2(1074)
        }),
{
    let v: int = 100 * pow2(1074) - signed_units(bits);
    lemma_percent_range(v);
    lemma_percent_nearest(v, c);
    lemma_constants();
    let p: nat = complement_bits(bits) as nat;
    if p < HUNDRED_BITS {
        lemma_units_increase(p, HUNDRED_BITS as nat);
    }
}

/// An integer from zero to one hundred as a percentage, and the ends of the range beyond it.
pub proof fn lemma_integer_percentages(n: int, hundredfold: bool)
    ensures
        n <= 0 ==> integer_percent(n, hundredfold) == 0,
        n >= 1 && hundredfold ==> integer_percent(n, hundredfold) == HUNDRED_BITS,
        n >= 100 ==> integer_percent(n, hundredfold) == HUNDRED_BITS,
        0 <= n <= 100 && !hundredfold ==> signed_units(integer_percent(n, hundredfold)) == n * pow2(
            1074,
        ),
        signed_units(0) == 0,
        signed_units(HUNDRED_BITS) == 100 * pow2(1074),
{
    lemma_constants();
    let o: nat = one();
    let f: int = percent_factor(hundredfold);
    lemma_percent_range(f * n * o);
    if n <= 0 {
        assert(f * n * o <= 0) by (nonlinear_arith)
            requires
                f >= 0,
                n <= 0,
                o >= 0,
        ;
    }
    if f * n >= 100 {
        assert(f * n * o >= 100 * o) by (nonlinear_arith)
            requires
                f * n >= 100,
                o >= 0,
        ;
    }
    if n >= 1 && hundredfold {
        assert(100 * n >= 100);
    }
    if 0 <= n <= 100 && !hundredfold {
        lemma_whole_percentage(n as nat);
    }
}

/// A rounded double is an `i64`.
pub proof fn lemma_rounded_range(bits: u64)
    ensures
        i64::MIN <= rounded_i64(bits) <= i64::MAX,
{
}

/// A double is rounded to the integer nearest to it, halves away from zero, and to the end of the
/// range of `i64` beyond which it lies.
pub proof fn law_rounding_is_to_the_nearest_integer(bits: u64)
    ensures
        ({
            let o = pow2(1074) as int;
            let u = signed_units(bits);
            let r = rounded_i64(bits);
            let magnitude = if u < 0 {
                -u
            } else {
                u
            };
            let rounded = if r < 0 {
                -r
            } else {
                r
            };
            &&& r < 0 ==> u < 0
            &&& r > 0 ==> u > 0
            &&& -0x8000_0000_0000_0000 <= r <= 0x7FFF_FFFF_FFFF_FFFF
            &&& -0x8000_0000_0000_0000 < r < 0x7FFF_FFFF_FFFF_FFFF ==> 2 * rounded * o <= 2
                * magnitude + o && 2 * magnitude + o < 2 * (rounded + 1) * o
            &&& r == -0x8000_0000_0000_0000 || r == 0x7FFF_FFFF_FFFF_FFFF ==> 2 * rounded * o <= 2
                * magnitude + o
        }),
{
    lemma_pow2_pos(1074);
    let b: nat = if bits >= SIGN_BIT {
        (bits - SIGN_BIT) as nat
    } else {
        bits as nat
    };
    lemma_rounded_bounds(b);
    let o: nat = one();
    let m: nat = rounded_magnitude(b);
    if m > i64::MAX {
        let top: int = i64::MAX as int;
        assert(2 * (top + 1) * o <= 2 * m * o) by (nonlinear_arith)
            requires
                m >= top + 1,
                o > 0,
        ;
        assert(2 * top * o <= 2 * (top + 1) * o) by (nonlinear_arith)
            requires
                o > 0,
        ;
    }
}

/// The rounded magnitude is the nearest integer, halves up.
proof fn lemma_rounded_bounds(b: nat)
    ensures
        2 * rounded_magnitude(b) * one() <= 2 * units(b) + one(),
        2 * units(b) + one() < 2 * (rounded_magnitude(b) + 1) * one(),
        rounded_magnitude(b) > 0 ==> units(b) > 0,
        units(b) >= 0,
{
    lemma_pow2_pos(1074);
    let o: int = one() as int;
    let x: int = 2 * units(b) + o;
    let d: int = 2 * o;
    let q: int = x / d;
    lemma_fundamental_div_mod(x, d);
    assert(d * q == 2 * q * o) by (nonlinear_arith)
        requires
            d == 2 * o,
    ;
    assert(2 * (q + 1) * o == 2 * q * o + 2 * o) by (nonlinear_arith);
    if units(b) == 0 {
        lemma_fundamental_div_mod_converse(x, d, 0, o);
    }
}

/// The product of an integer and a double is first the double `b` nearest to the exact product and
/// then the integer nearest to that, halves away from zero, or the end of the range of `i32` beyond
/// which it lies.
pub proof fn law_scaling_rounds_twice(factor: u32, bits: u64, b: nat)
    requires
        bits < 0x8000_0000_0000_0000,
        forall|c: nat|
            #![trigger units(c)]
            c != b ==> {
                let v = factor * units(bits as nat);
                let d = units(b) - v;
                let e = units(c) - v;
                -d < e && d < e || -d < -e && d < -e || ((d == e || d == -e) && b % 2 == 0)
            },
    ensures
        ({
            let o = pow2(1074) as int;
            let r = scaled_i32(factor, bits);
            &&& 0 <= r <= 0x7FFF_FFFF
            &&& 2 * r * o <= 2 * units(b) + o
            &&& r < 0x7FFF_FFFF ==> 2 * units(b) + o < 2 * (r + 1) * o
        }),
{
    let v: nat = factor as nat * units(bits as nat);
    assert(is_nearest(v, b)) by {
        assert forall|c: nat| #![trigger units(c)] c != b implies {
            ||| distance(units(b), v) < distance(units(c), v)
            ||| distance(units(b), v) == distance(units(c), v) && b % 2 == 0
        } by {
            let d: int = units(b) - v;
            let e: int = units(c) - v;
            assert(v == factor * units(bits as nat));
        }
    }
    lemma_nearest_unique(v, b, b);
    lemma_rounded_bounds(b);
    lemma_pow2_pos(1074);
    let m: nat = rounded_magnitude(b);
    let o: nat = one();
    if m > i32::MAX {
        let top: int = i32::MAX as int;
        assert(2 * top * o <= 2 * m * o) by (nonlinear_arith)
            requires
                m >= top,
                o > 0,
        ;
    }
}

/// Scaling keeps the sign apart: a negative double gives the negative of what its magnitude gives,
/// as far as the range of `i32` goes.
pub proof fn law_scaling_keeps_the_sign(factor: u32, bits: u64)
    requires
        bits < 0x8000_0000_0000_0000,
    ensures
        ({
            let negative = (bits + 0x8000_0000_0000_0000) as u64;
            &&& scaled_i32(factor, bits) < 0x7FFF_FFFF ==> scaled_i32(factor, negative)
                == -scaled_i32(factor, bits)
            &&& scaled_i32(factor, bits) == 0x7FFF_FFFF ==> -0x8000_0000 <= scaled_i32(
                factor,
                negative,
            ) <= -0x7FFF_FFFF
        }),
{
}

/// Doubles are equal just where their values are: the two zeros are equal.
pub proof fn law_equal_doubles_have_equal_values(a: u64, b: u64)
    ensures
        same_double(a, b) <==> signed_units(a) == signed_units(b),
        is_percent(a) <==> 0 <= signed_units(a) <= 100 * pow2(1074),
{
    lemma_constants();
    lemma_sign_decides(a);
    lemma_sign_decides(b);
    let x: nat = if a >= SIGN_BIT {
        (a - SIGN_BIT) as nat
    } else {
        a as nat
    };
    let y: nat = if b >= SIGN_BIT {
        (b - SIGN_BIT) as nat
    } else {
        b as nat
    };
    if x < y {
        lemma_units_increase(x, y);
    } else if y < x {
        lemma_units_increase(y, x);
    }
    if x < HUNDRED_BITS {
        lemma_units_increase(x, HUNDRED_BITS as nat);
    } else if x > HUNDRED_BITS {
        lemma_units_increase(HUNDRED_BITS as nat, x);
    }
}

/// A pattern with the sign bit stands for a negative value unless that is zero.
proof fn lemma_sign_decides(a: u64)
    ensures
        a > SIGN_BIT ==> signed_units(a) < 0,
        0 < a < SIGN_BIT ==> signed_units(a) > 0,
        a == 0 || a == SIGN_BIT ==> signed_units(a) == 0,
        a % SIGN_BIT == 0 <==> a == 0 || a == SIGN_BIT,
{
    lemma_constants();
    if a > SIGN_BIT {
        lemma_units_increase(0, (a - SIGN_BIT) as nat);
    } else if 0 < a < SIGN_BIT {
        lemma_units_increase(0, a as nat);
    }
}

/// A finite double-precision number.
#[derive(Debug, Clone, Copy)]
pub struct Double {
    bits: u64,
}

impl View for Double {
    type V = u64;

    closed spec fn view(&self) -> u64 {
        self.bits
    }
}

impl PartialEq for Double {
    fn eq(&self, other: &Double) -> (equal: bool) {
        self.bits == other.bits || (self.bits % SIGN_BIT == 0 && other.bits % SIGN_BIT == 0)
    }
}

impl vstd::std_specs::cmp::PartialEqSpecImpl for Double {
    open spec fn obeys_eq_spec() -> bool {
        true
    }

    open spec fn eq_spec(&self, other: &Double) -> bool {
        same_double(self@, other@)
    }
}

impl Double {
    #[verifier::type_invariant]
    closed spec fn finite(self) -> bool {
        finite_bits(self.bits)
    }

    /// The double with this bit pattern, where it is a finite one.
    pub fn from_bits(bits: u64) -> (double: Option<Double>)
        ensures
            double is Some <==> finite_bits(bits),
            double is Some <==> bits % 0x8000_0000_0000_0000 < 0x7FF0_0000_0000_0000,
            double matches Some(d) ==> d@ == bits,
    {
        if bits % SIGN_BIT < INFINITY_BITS {
            Some(Double { bits })
        } else {
            None
        }
    }

    /// The bit pattern.
    pub fn to_bits(&self) -> (bits: u64)
        ensures
            bits == self@,
            finite_bits(bits),
    {
        proof {
            use_type_invariant(self);
        }
        self.bits
    }

    /// Whether the value is at most one.
    pub fn at_most_one(&self) -> (answer: bool)
        ensures
            answer == (signed_units(self@) <= one()),
    {
        proof {
            lemma_constants();
            let b: u64 = self.bits;
            if b < SIGN_BIT {
                if b < ONE_BITS {
                    lemma_units_increase(b as nat, ONE_BITS as nat);
                } else if b > ONE_BITS {
                    lemma_units_increase(ONE_BITS as nat, b as nat);
                }
            }
        }
        self.bits >= SIGN_BIT || self.bits <= ONE_BITS
    }

    /// The value as a percentage, after a hundredfold increase where it is a ratio.
    pub fn percent(&self, hundredfold: bool) -> (percent: Double)
        ensures
            percent@ == double_percent(self@, hundredfold),
            is_percent(percent@),
    {
        let b: u64 = self.bits;
        proof {
            use_type_invariant(self);
            lemma_constants();
            lemma_percent_range(percent_factor(hundredfold) * signed_units(b));
        }
        if b == SIGN_BIT {
            return Double { bits: SIGN_BIT };
        }
        if b > SIGN_BIT {
            proof {
                let u: int = signed_units(b);
                assert(percent_factor(hundredfold) * u <= 0) by (nonlinear_arith)
                    requires
                        percent_factor(hundredfold) >= 0,
                        u <= 0,
                ;
            }
            return Double { bits: 0 };
        }
        let limit: u64 = if hundredfold {
            ONE_BITS
        } else {
            HUNDRED_BITS
        };
        if b >= limit {
            proof {
                if b > limit {
                    lemma_units_increase(limit as nat, b as nat);
                }
            }
            return Double { bits: HUNDRED_BITS };
        }
        proof {
            lemma_units_increase(b as nat, limit as nat);
            if b > 0 {
                lemma_units_increase(0, b as nat);
            }
        }
        if !hundredfold {
            proof {
                lemma_exact_is_nearest(b as nat);
            }
            return Double { bits: b };
        }
        let (m, k) = parts(b);
        proof {
            lemma_wide_enough();
            let p: nat = pow2(k as nat);
            assert(100 * (m * p) == (100 * m) * p) by (nonlinear_arith);
            lemma_exact_is_nearest(0);
        }
        let rounded: u64 = round_scaled(100 * (m as u128), k);
        Double { bits: rounded }
    }

    /// The integer `n` as a percentage, after a hundredfold increase where it is a ratio.
    pub fn percent_of(n: u64, hundredfold: bool) -> (percent: Double)
        ensures
            percent@ == integer_percent(n as int, hundredfold),
            is_percent(percent@),
    {
        let factor: u64 = if hundredfold {
            100
        } else {
            1
        };
        proof {
            lemma_constants();
            lemma_percent_range(percent_factor(hundredfold) * n * one());
        }
        if n == 0 {
            proof {
                assert(factor * 0 * one() == 0) by (nonlinear_arith);
            }
            return Double { bits: 0 };
        }
        let limit: u64 = if hundredfold {
            1
        } else {
            100
        };
        if n >= limit {
            proof {
                let o: nat = one();
                assert(factor * n * o >= 100 * o) by (nonlinear_arith)
                    requires
                        factor * n >= 100,
                        o >= 0,
                ;
            }
            return Double { bits: HUNDRED_BITS };
        }
        proof {
            let o: nat = one();
            assert(factor * n * o == n * o);
            assert(0 < n * o < 100 * o) by (nonlinear_arith)
                requires
                    0 < n < 100,
                    o > 0,
            ;
            lemma_wide_enough();
        }
        let rounded: u64 = round_scaled(n as u128, 1074);
        Double { bits: rounded }
    }

    /// The integer `n` as a percentage, after a hundredfold increase where it is a ratio.
    pub fn percent_of_signed(n: i64, hundredfold: bool) -> (percent: Double)
        ensures
            percent@ == integer_percent(n as int, hundredfold),
            is_percent(percent@),
    {
        if n < 0 {
            proof {
                let f: int = percent_factor(hundredfold);
                let o: nat = one();
                assert(f * n * o <= 0) by (nonlinear_arith)
                    requires
                        f >= 0,
                        n < 0,
                        o >= 0,
                ;
            }
            Double { bits: 0 }
        } else {
            Double::percent_of(n as u64, hundredfold)
        }
    }

    /// What the value leaves of one hundred, held within zero and one hundred.
    pub fn complement(&self) -> (rest: Double)
        ensures
            rest@ == complement_bits(self@),
            rest@ <= HUNDRED_BITS,
    {
        let b: u64 = self.bits;
        proof {
            use_type_invariant(self);
            lemma_constants();
            lemma_percent_range(100 * one() - signed_units(b));
        }
        if b >= SIGN_BIT {
            return Double { bits: HUNDRED_BITS };
        }
        if b >= HUNDRED_BITS {
            proof {
                if b > HUNDRED_BITS {
                    lemma_units_increase(HUNDRED_BITS as nat, b as nat);
                }
            }
            return Double { bits: 0 };
        }
        if b == 0 {
            return Double { bits: HUNDRED_BITS };
        }
        proof {
            lemma_units_increase(0, b as nat);
            lemma_units_increase(b as nat, HUNDRED_BITS as nat);
        }
        let ghost v: nat = (100 * one() - units(b as nat)) as nat;
        if b <= HALF_GAP_BITS {
            proof {
                if b < HALF_GAP_BITS {
                    lemma_units_increase(b as nat, HALF_GAP_BITS as nat);
                }
                lemma_pow2_unfold(1028);
                let below: nat = (HUNDRED_BITS - 1) as nat;
                lemma_nearest_of_neighbours(v, below);
                assert(is_nearest(v, below + 1));
                lemma_nearest_unique(v, HUNDRED_BITS as nat, HUNDRED_BITS as nat);
            }
            return Double { bits: HUNDRED_BITS };
        }
        let (m, k) = parts(b);
        assert(975 <= k <= 1028);
        let width: u64 = 1074 - k;
        let whole: u128 = power_of_two(width);
        proof {
            lemma_pow2_adds(k as nat, width as nat);
            lemma_pow2_adds(7, 100);
            assert(pow2(7) == 128) by {
                lemma2_to64();
            }
            lemma_pow2_strictly_increases(width as nat, 100);
            lemma_power_fits(100);
            let p: nat = pow2(k as nat);
            assert(100 * (p * whole) - m * p == (100 * whole - m) * p) by (nonlinear_arith);
            assert(100 * whole > m) by {
                lemma_pow2_pos(k as nat);
                assert(100 * whole - m > 0) by (nonlinear_arith)
                    requires
                        (100 * whole - m) * p > 0,
                        p > 0,
                ;
            }
            let u: nat = pow2(100);
            assert(128 * u > 100 * whole);
            assert(100 * whole <= u128::MAX) by {
                lemma_power_fits(107);
            }
        }
        let difference: u128 = 100 * whole - m as u128;
        let rounded: u64 = round_scaled(difference, k);
        Double { bits: rounded }
    }

    /// The nearest integer, halves away from zero, held within the range of `i64`.
    pub fn round(&self) -> (integer: i64)
        ensures
            integer == rounded_i64(self@),
    {
        proof {
            use_type_invariant(self);
        }
        if self.bits >= SIGN_BIT {
            let magnitude: u64 = round_magnitude(self.bits - SIGN_BIT);
            if magnitude > i64::MAX as u64 {
                i64::MIN
            } else {
                -(magnitude as i64)
            }
        } else {
            let magnitude: u64 = round_magnitude(self.bits);
            if magnitude > i64::MAX as u64 {
                i64::MAX
            } else {
                magnitude as i64
            }
        }
    }
    /// The integer nearest to `factor` times the value, halves away from zero, held within the
    /// range of `i32`.
    pub fn scale(&self, factor: u32) -> (integer: i32)
        ensures
            integer == scaled_i32(factor, self@),
    {
        proof {
            use_type_invariant(self);
        }
        if self.bits >= SIGN_BIT {
            let magnitude: u64 = scale_magnitude(factor, self.bits - SIGN_BIT);
            if magnitude > 0x8000_0000 {
                i32::MIN
            } else {
                (-(magnitude as i64)) as i32
            }
        } else {
            let magnitude: u64 = scale_magnitude(factor, self.bits);
            if magnitude > 0x7FFF_FFFF {
                i32::MAX
            } else {
                magnitude as i32
            }
        }
    }
}

/// The integer nearest to the product of `factor` and a magnitude, after the product is itself
/// rounded to a magnitude; 2^63 for all above it.
fn scale_magnitude(factor: u32, b: u64) -> (r: u64)
    requires
        b < INFINITY_BITS,
    ensures
        r == held_within(
            rounded_magnitude(nearest(factor as nat * units(b as nat))) as int,
            0,
            0x8000_0000_0000_0000,
        ),
{
    let (m, k) = parts(b);
    proof {
        let p: nat = pow2(k as nat);
        assert(factor * (m * p) == (factor * m) * p) by (nonlinear_arith);
        assert(factor * m <= 0xFFFF_FFFF * 0x0020_0000_0000_0000) by (nonlinear_arith)
            requires
                0 <= factor <= 0xFFFF_FFFF,
                0 <= m <= 0x0020_0000_0000_0000,
        ;
        lemma_pow2_adds(53, 54);
        lemma2_to64_rest();
    }
    let product: u128 = (factor as u128) * (m as u128);
    round_magnitude(round_scaled(product, k))
}

/// The integer nearest to a magnitude, halves away from zero, and 2^63 for all above it.
fn round_magnitude(b: u64) -> (r: u64)
    ensures
        r == held_within(rounded_magnitude(b as nat) as int, 0, 0x8000_0000_0000_0000),
{
    let (m, k) = parts(b);
    let ghost o: nat = one();
    proof {
        lemma_pow2_pos(1074);
    }
    if k >= 1074 {
        let shift: u64 = k - 1074;
        proof {
            lemma_pow2_adds(1074, shift as nat);
            let p: nat = pow2(shift as nat);
            assert(2 * (m * (o * p)) + o == (2 * o) * (m * p) + o) by (nonlinear_arith);
            lemma_fundamental_div_mod_converse(
                (2 * units(b as nat) + o) as int,
                (2 * o) as int,
                (m * p) as int,
                o as int,
            );
            assert(rounded_magnitude(b as nat) == m * p);
            assert(m >= IMPLICIT_BIT);
        }
        if shift >= 11 {
            proof {
                let p: nat = pow2(shift as nat);
                lemma2_to64();
                if shift > 11 {
                    lemma_pow2_strictly_increases(11, shift as nat);
                }
                assert(m * p >= 0x8000_0000_0000_0000) by (nonlinear_arith)
                    requires
                        m >= 0x0010_0000_0000_0000,
                        p >= 0x800,
                ;
            }
            0x8000_0000_0000_0000
        } else {
            let factor: u128 = power_of_two(shift);
            proof {
                lemma2_to64();
                if shift < 10 {
                    lemma_pow2_strictly_increases(shift as nat, 10);
                }
                assert(m * factor < 0x8000_0000_0000_0000) by (nonlinear_arith)
                    requires
                        m < 0x0020_0000_0000_0000,
                        factor <= 0x400,
                ;
            }
            m * (factor as u64)
        }
    } else {
        let shift: u64 = 1074 - k;
        let ghost p: nat = pow2(k as nat);
        if shift >= 54 {
            proof {
                lemma_pow2_adds(k as nat, 54);
                lemma_pow2_pos(k as nat);
                lemma2_to64_rest();
                if shift > 54 {
                    lemma_pow2_strictly_increases((k + 54) as nat, 1074);
                }
                assert(2 * (m * p) < p * 0x0040_0000_0000_0000) by (nonlinear_arith)
                    requires
                        m < 0x0020_0000_0000_0000,
                        p > 0,
                ;
                lemma_fundamental_div_mod_converse(
                    (2 * units(b as nat) + o) as int,
                    (2 * o) as int,
                    0,
                    (2 * units(b as nat) + o) as int,
                );
            }
            0
        } else {
            let half: u128 = power_of_two(shift - 1);
            let whole: u128 = power_of_two(shift);
            proof {
                lemma_pow2_unfold(shift as nat);
                lemma_pow2_adds(k as nat, shift as nat);
                lemma_pow2_pos((shift - 1) as nat);
                lemma_pow2_pos(k as nat);
                assert(2 * (m * p) + o == (2 * p) * (m + half)) by (nonlinear_arith)
                    requires
                        o == p * (2 * half),
                ;
                assert(2 * o == (2 * p) * whole) by (nonlinear_arith)
                    requires
                        o == p * whole,
                ;
                lemma_truncate_quotient((m + half) as nat, whole as nat, 2 * p);
                lemma_pow2_strictly_increases((shift - 1) as nat, 53);
                lemma2_to64_rest();
                lemma_div_nonincreasing((m + half) as int, whole as int);
            }
            ((m as u128 + half) / whole) as u64
        }
    }
}

/// A common factor leaves a quotient as it is.
proof fn lemma_truncate_quotient(a: nat, b: nat, c: nat)
    requires
        b > 0,
        c > 0,
    ensures
        (c * a) / (c * b) == a / b,
{
    lemma_div_multiples_vanish_quotient(c as int, a as int, b as int);
}

/// The significand and the scale of a magnitude.
fn parts(b: u64) -> (r: (u64, u64))
    ensures
        r.0 == significand_of(b as nat),
        r.1 == scale_of(b as nat),
        r.0 < 2 * IMPLICIT_BIT,
        r.1 <= 4094,
        b < INFINITY_BITS ==> r.1 <= 2045,
        units(b as nat) == r.0 as nat * pow2(r.1 as nat),
{
    if b < IMPLICIT_BIT {
        (b, 0)
    } else {
        (IMPLICIT_BIT + b % IMPLICIT_BIT, b / IMPLICIT_BIT - 1)
    }
}

} // verus!
