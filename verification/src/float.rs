//! What floating-point arithmetic makes of a number, told in whole numbers.
use vstd::arithmetic::div_mod::{lemma_div_denominator, lemma_fundamental_div_mod};
use vstd::arithmetic::power2::{lemma_pow2_adds, lemma_pow2_pos, lemma_pow2_unfold, pow2};
use vstd::prelude::*;

verus! {

/// The exponent field of a double.
pub open spec fn exponent_field(bits: u64) -> int {
    (bits / 0x10_0000_0000_0000) as int % 2048
}

/// The fraction field of a double.
pub open spec fn fraction_field(bits: u64) -> int {
    bits as int % 0x10_0000_0000_0000
}

/// The double is below zero, or a zero with a sign.
pub open spec fn is_negative(bits: u64) -> bool {
    bits >= 0x8000_0000_0000_0000
}

/// The double is not a number.
pub open spec fn is_nan(bits: u64) -> bool {
    exponent_field(bits) == 2047 && fraction_field(bits) != 0
}

/// The double is infinite.
pub open spec fn is_infinite(bits: u64) -> bool {
    exponent_field(bits) == 2047 && fraction_field(bits) == 0
}

/// The digits of a finite double: its size is these, times a power of two.
pub open spec fn significand(bits: u64) -> int {
    if exponent_field(bits) == 0 {
        fraction_field(bits)
    } else {
        fraction_field(bits) + 0x10_0000_0000_0000
    }
}

/// The power of two that goes with the digits of a finite double.
pub open spec fn exponent(bits: u64) -> int {
    if exponent_field(bits) == 0 {
        -1074
    } else {
        exponent_field(bits) - 1075
    }
}

/// `m` times two to the `x`, rounded down.
pub open spec fn shifted(m: int, x: int) -> int {
    if x >= 0 {
        m * pow2(x as nat)
    } else {
        m / (pow2((-x) as nat) as int)
    }
}

/// The size of a finite double times two to the `k`, rounded down.
pub open spec fn scaled_size(bits: u64, k: int) -> int {
    shifted(significand(bits), exponent(bits) + k)
}

/// A double times two to the `k`, as a conversion to a whole number of at most
/// `top` in size gives it: rounded towards zero, kept in range, and zero where
/// it is not a number.
pub open spec fn converted(bits: u64, k: int, low: int, top: int) -> int {
    if is_nan(bits) {
        0
    } else if is_infinite(bits) {
        if is_negative(bits) {
            low
        } else {
            top
        }
    } else {
        let n = if is_negative(bits) {
            -scaled_size(bits, k)
        } else {
            scaled_size(bits, k)
        };
        if n < low {
            low
        } else if n > top {
            top
        } else {
            n
        }
    }
}

/// A double lies above zero and below a whole number.
pub open spec fn above_zero_below(bits: u64, top: int) -> bool {
    &&& !is_negative(bits)
    &&& exponent_field(bits) != 2047
    &&& significand(bits) > 0
    &&& scaled_size(bits, 0) < top
}

/// The greater of a double and a whole number, as a conversion to `u64` gives it.
pub open spec fn at_least(bits: u64, floor: int) -> int {
    let n = converted(bits, 0, 0, u64::MAX as int);
    if is_nan(bits) || n < floor {
        floor
    } else {
        n
    }
}

/// `m` times two to the `x`, rounded down; nothing where that is too large to
/// hold.
fn shift(m: u64, x: i32) -> (r: Option<u64>)
    requires
        m < 0x20_0000_0000_0000,
        -1200 <= x <= 1200,
        x > 11 ==> m >= 0x10_0000_0000_0000,
    ensures
        match r {
            Some(n) => n == shifted(m as int, x as int),
            None => shifted(m as int, x as int) > u64::MAX,
        },
{
    if x > 11 {
        proof {
            lemma_pow2_grows(12, x as nat);
            lemma_pow2_12();
            assert(m * pow2(x as nat) >= 0x10_0000_0000_0000 * 0x1000) by (nonlinear_arith)
                requires
                    m >= 0x10_0000_0000_0000,
                    pow2(x as nat) >= 0x1000,
            ;
        }
        return None;
    }
    let mut n: u64 = m;
    if x >= 0 {
        let mut i: i32 = 0;
        proof {
            lemma_pow2_unfold_zero();
            assert(m * 1 == m);
        }
        while i < x
            invariant
                0 <= i <= x <= 11,
                m < 0x20_0000_0000_0000,
                n == m * pow2(i as nat),
                pow2(i as nat) <= 0x800,
            decreases x - i,
        {
            proof {
                lemma_pow2_unfold((i + 1) as nat);
                lemma_pow2_grows((i + 1) as nat, 11);
                lemma_pow2_11();
                assert(m * pow2((i + 1) as nat) == m * pow2(i as nat) * 2) by (nonlinear_arith)
                    requires
                        pow2((i + 1) as nat) == 2 * pow2(i as nat),
                ;
                assert(m * pow2((i + 1) as nat) <= 0x1f_ffff_ffff_ffff * 0x800) by (nonlinear_arith)
                    requires
                        0 <= m <= 0x1f_ffff_ffff_ffff,
                        pow2((i + 1) as nat) <= 0x800,
                ;
            }
            n = n * 2;
            i += 1;
        }
        Some(n)
    } else {
        let mut i: i32 = 0;
        proof {
            lemma_pow2_unfold_zero();
            assert(m as int / 1 == m);
        }
        while i < -x
            invariant
                0 <= i <= -x,
                -1200 <= x < 0,
                n == m as int / pow2(i as nat) as int,
            decreases -x - i,
        {
            proof {
                lemma_pow2_unfold((i + 1) as nat);
                lemma_pow2_pos(i as nat);
                lemma_div_denominator(m as int, pow2(i as nat) as int, 2);
                assert(pow2(i as nat) as int * 2 == pow2((i + 1) as nat) as int);
            }
            n = n / 2;
            i += 1;
        }
        Some(n)
    }
}

proof fn lemma_pow2_unfold_zero()
    ensures
        pow2(0) == 1,
{
    vstd::arithmetic::power2::lemma2_to64();
}

proof fn lemma_pow2_11()
    ensures
        pow2(11) == 0x800,
{
    vstd::arithmetic::power2::lemma2_to64();
}

proof fn lemma_pow2_12()
    ensures
        pow2(12) == 0x1000,
{
    vstd::arithmetic::power2::lemma2_to64();
}

proof fn lemma_pow2_grows(a: nat, b: nat)
    requires
        a <= b,
    ensures
        pow2(a) <= pow2(b),
    decreases b - a,
{
    if a < b {
        lemma_pow2_grows(a, (b - 1) as nat);
        lemma_pow2_unfold(b);
    }
}

/// The parts of a double: its exponent field and its digits with their power of
/// two.
fn parts(bits: u64) -> (r: (u64, u64, i32))
    ensures
        r.0 == exponent_field(bits),
        r.1 == significand(bits),
        r.2 == exponent(bits),
        r.1 < 0x20_0000_0000_0000,
        -1074 <= r.2 <= 972,
        r.2 > -1074 ==> r.1 >= 0x10_0000_0000_0000,
{
    let field: u64 = (bits / 0x10_0000_0000_0000) % 2048;
    let fraction: u64 = bits % 0x10_0000_0000_0000;
    if field == 0 {
        (field, fraction, -1074)
    } else {
        (field, fraction + 0x10_0000_0000_0000, field as i32 - 1075)
    }
}

/// A double times two to the `k`, as a conversion to `i64` gives it.
pub fn to_i64(bits: u64, k: u8) -> (r: i64)
    requires
        k <= 64,
    ensures
        r == converted(bits, k as int, i64::MIN as int, i64::MAX as int),
{
    let (field, m, x) = parts(bits);
    let negative = bits >= 0x8000_0000_0000_0000;
    if field == 2047 {
        let fraction: u64 = bits % 0x10_0000_0000_0000;
        return if fraction != 0 {
            0
        } else if negative {
            i64::MIN
        } else {
            i64::MAX
        };
    }
    match shift(m, x + k as i32) {
        Some(n) => if negative {
            if n >= 0x8000_0000_0000_0000 {
                i64::MIN
            } else {
                -(n as i64)
            }
        } else if n > 0x7fff_ffff_ffff_ffff {
            i64::MAX
        } else {
            n as i64
        },
        None => if negative {
            i64::MIN
        } else {
            i64::MAX
        },
    }
}

/// The greater of a double and a whole number, as a conversion to `u64` gives it.
pub fn to_u64_at_least(bits: u64, floor: u64) -> (r: u64)
    ensures
        r == at_least(bits, floor as int),
{
    let (field, m, x) = parts(bits);
    let negative = bits >= 0x8000_0000_0000_0000;
    let n: u64 = if field == 2047 {
        let fraction: u64 = bits % 0x10_0000_0000_0000;
        if fraction != 0 || negative {
            0
        } else {
            u64::MAX
        }
    } else {
        let size = shift(m, x);
        proof {
            lemma_shifted_positive(m as int, x as int);
        }
        if negative {
            0
        } else {
            match size {
                Some(n) => n,
                None => u64::MAX,
            }
        }
    };
    if n < floor {
        floor
    } else {
        n
    }
}

proof fn lemma_shifted_positive(m: int, x: int)
    requires
        m >= 0,
    ensures
        shifted(m, x) >= 0,
{
    if x >= 0 {
        lemma_pow2_pos(x as nat);
        assert(m * pow2(x as nat) >= 0) by (nonlinear_arith)
            requires
                m >= 0,
                pow2(x as nat) > 0,
        ;
    } else {
        lemma_pow2_pos((-x) as nat);
        vstd::arithmetic::div_mod::lemma_div_pos_is_pos(m, pow2((-x) as nat) as int);
    }
}

/// A double lies above zero and below a whole number.
pub fn is_above_zero_below(bits: u64, top: u64) -> (r: bool)
    ensures
        r == above_zero_below(bits, top as int),
{
    let (field, m, x) = parts(bits);
    if bits >= 0x8000_0000_0000_0000 || field == 2047 || m == 0 {
        return false;
    }
    match shift(m, x) {
        Some(n) => n < top,
        None => false,
    }
}

/// A number that is kept from falling below another fits and does not.
pub proof fn lemma_at_least(bits: Option<u64>, floor: int)
    requires
        0 <= floor <= u64::MAX,
    ensures
        bits matches Some(b) ==> floor <= at_least(b, floor) <= u64::MAX,
{
}

/// The unit in the last of the binary digits that a single holds of a number.
pub open spec fn unit(n: nat) -> nat
    decreases n,
{
    if n < 0x100_0000 {
        1
    } else {
        2 * unit(n / 2)
    }
}

/// A quotient rounded to the nearest whole number, and to the even one of two.
pub open spec fn nearest(n: nat, d: nat) -> nat {
    if 2 * (n % d) > d || (2 * (n % d) == d && (n / d) % 2 == 1) {
        n / d + 1
    } else {
        n / d
    }
}

/// A whole number as a single holds it.
pub open spec fn single(n: nat) -> nat {
    nearest(n, unit(n)) * unit(n)
}

/// A power of two that makes `num` at least as many binary digits greater than
/// `den` as a single holds.
pub open spec fn lift(num: nat, den: nat) -> nat
    decreases (if num >= den * 0x80_0000 { 0 } else { den * 0x80_0000 - num }),
{
    if num == 0 || num >= den * 0x80_0000 {
        1
    } else {
        2 * lift(2 * num, den)
    }
}

/// The digits of a quotient as a single holds it. The quotient is these digits
/// divided by the power of two that lifts its terms.
pub open spec fn quotient(num: nat, den: nat) -> nat {
    nearest(num * lift(num, den), den)
}

/// `edge` scaled by `1280 / long`, as singles compute it, rounded to a whole
/// number, and at least one.
pub open spec fn scaled_edge(edge: nat, long: nat) -> nat {
    let d = lift(1280, single(long));
    let p = single(single(edge) * quotient(1280, single(long)));
    let n = (p + d / 2) / d;
    if n < 1 {
        1
    } else {
        n
    }
}

proof fn lemma_unit(n: nat)
    ensures
        unit(n) >= 1,
        unit(n) > 1 ==> unit(n) * 0x80_0000 <= n,
        n < unit(n) * 0x100_0000,
    decreases n,
{
    if n >= 0x100_0000 {
        lemma_unit(n / 2);
    }
}

proof fn lemma_nearest(n: nat, d: nat)
    requires
        d > 0,
    ensures
        2 * (nearest(n, d) * d) <= 2 * n + d,
        2 * n <= 2 * (nearest(n, d) * d) + d,
        nearest(n, d) <= n / d + 1,
{
    lemma_fundamental_div_mod(n as int, d as int);
    let q = n / d;
    assert((q + 1) * d == q * d + d) by (nonlinear_arith);
    assert(q * d == d * q) by (nonlinear_arith);
}

/// A single differs from the number that it stands for by less than one part in
/// sixteen million.
pub proof fn lemma_single(n: nat)
    ensures
        single(n) * 0x100_0000 <= n * 0x100_0001,
        n * 0xff_ffff <= single(n) * 0x100_0000,
        single(n) == n || n >= 0x100_0000,
        single(n) <= n + n,
{
    let u = unit(n);
    lemma_unit(n);
    lemma_nearest(n, u);
    if u == 1 {
        assert(n % 1 == 0);
        assert(n / 1 == n);
        assert(nearest(n, 1) == n);
        assert(nearest(n, 1) * 1 == n);
    }
}

fn unit_of(n: u64) -> (r: u64)
    ensures
        r == unit(n as nat),
        1 <= r <= 0x200_0000_0000,
        n / r < 0x100_0000,
{
    let mut u: u64 = 1;
    let mut m: u64 = n;
    proof {
        assert(n as int / 1 == n);
        lemma_unit(n as nat);
    }
    while m >= 0x100_0000
        invariant
            1 <= u,
            u * unit(m as nat) == unit(n as nat),
            m == n as int / u as int,
            u * m <= n,
            unit(n as nat) <= 0x200_0000_0000,
        decreases m,
    {
        proof {
            lemma_div_denominator(n as int, u as int, 2);
            assert(u * (2 * unit((m / 2) as nat)) == (u * 2) * unit((m / 2) as nat)) by (nonlinear_arith);
            lemma_unit(m as nat);
            assert(u * 2 <= u * unit(m as nat)) by (nonlinear_arith)
                requires
                    unit(m as nat) >= 2,
                    u >= 1,
            ;
            assert((u * 2) * (m / 2) <= u * m) by (nonlinear_arith)
                requires
                    u >= 1,
                    m >= 0,
            ;
        }
        u = u * 2;
        m = m / 2;
    }
    proof {
        assert(u * 1 == u);
    }
    u
}

fn nearest_of(n: u128, d: u128) -> (r: u128)
    requires
        0 < d < 0x8000_0000_0000_0000,
        n < 0x8000_0000_0000_0000_0000_0000,
    ensures
        r == nearest(n as nat, d as nat),
{
    let q: u128 = n / d;
    let rest: u128 = n % d;
    if 2 * rest > d || (2 * rest == d && q % 2 == 1) {
        proof {
            assert(q <= n) by (nonlinear_arith)
                requires
                    q == n / d,
                    d > 0,
            ;
        }
        q + 1
    } else {
        q
    }
}

/// A whole number as a single holds it.
pub fn single_of(n: u64) -> (r: u64)
    requires
        n < 0x1000_0000_0000_0000,
    ensures
        r == single(n as nat),
        r <= 2 * n,
{
    let u = unit_of(n);
    let q = nearest_of(n as u128, u as u128);
    proof {
        lemma_nearest(n as nat, u as nat);
        lemma_single(n as nat);
        assert(q * u == u * q) by (nonlinear_arith);
    }
    (q * u as u128) as u64
}

proof fn lemma_lift(num: nat, den: nat)
    requires
        num > 0,
        den > 0,
    ensures
        lift(num, den) >= 1,
        num * lift(num, den) >= den * 0x80_0000,
        num < den * 0x80_0000 ==> {
            &&& lift(num, den) % 2 == 0
            &&& num * lift(num, den) < den * 0x100_0000
        },
    decreases (if num >= den * 0x80_0000 { 0 } else { den * 0x80_0000 - num }),
{
    if num < den * 0x80_0000 {
        lemma_lift(2 * num, den);
        let l = lift(2 * num, den);
        assert(num * (2 * l) == (2 * num) * l) by (nonlinear_arith);
        assert(lift(num, den) == 2 * l);
        if 2 * num >= den * 0x80_0000 {
            assert(l == 1);
            assert((2 * num) * l == 2 * num) by (nonlinear_arith)
                requires
                    l == 1,
            ;
        }
    } else {
        assert(lift(num, den) == 1);
        assert(num * 1 == num);
    }
}

/// The power of two that lifts the terms of a quotient, and the digits of the
/// quotient.
fn divide(num: u64, den: u64) -> (r: (u64, u64))
    requires
        0 < num < 0x1_0000_0000,
        0 < den <= 0x2_0000_0000,
        num < den * 0x80_0000,
    ensures
        r.0 == lift(num as nat, den as nat),
        r.1 == quotient(num as nat, den as nat),
        r.1 <= 0x100_0000,
        2 <= r.0,
{
    let goal: u128 = den as u128 * 0x80_0000;
    let mut d: u64 = 1;
    let mut n: u128 = num as u128;
    proof {
        lemma_lift(num as nat, den as nat);
        assert(num * lift(num as nat, den as nat) >= lift(num as nat, den as nat)) by (nonlinear_arith)
            requires
                num >= 1,
        ;
        assert(1 * lift(num as nat, den as nat) == lift(num as nat, den as nat));
    }
    while n < goal
        invariant
            goal == den * 0x80_0000,
            0 < num < 0x1_0000_0000,
            0 < den <= 0x2_0000_0000,
            1 <= d,
            n == num * d,
            n > 0,
            d * lift(n as nat, den as nat) == lift(num as nat, den as nat),
            lift(num as nat, den as nat) < 0x8000_0000_0000_0000,
        decreases (if n >= goal { 0 } else { goal - n }),
    {
        proof {
            let l = lift((2 * n) as nat, den as nat);
            assert(d * (2 * l) == (2 * d) * l) by (nonlinear_arith);
            assert(num * (2 * d) == 2 * (num * d)) by (nonlinear_arith);
            lemma_lift((2 * n) as nat, den as nat);
            assert((2 * d) * l >= 2 * d) by (nonlinear_arith)
                requires
                    l >= 1,
                    d >= 1,
            ;
        }
        d = d * 2;
        n = n * 2;
    }
    proof {
        assert(d * 1 == d);
        assert(num * d == n);
        lemma_nearest(n as nat, den as nat);
        assert((n as nat) < den * 0x100_0000);
    }
    let q = nearest_of(n, den as u128);
    proof {
        if q > 0x100_0000 {
            assert(q * den >= 0x100_0001 * den) by (nonlinear_arith)
                requires
                    q >= 0x100_0001,
                    den > 0,
            ;
        }
    }
    (d, q as u64)
}

/// `edge` scaled by `1280 / long`, as singles compute it, rounded to a whole
/// number, and at least one.
pub fn scale_edge(edge: u32, long: u32) -> (r: u32)
    requires
        0 < edge <= long,
        long > 1280,
    ensures
        r == scaled_edge(edge as nat, long as nat),
        1 <= r <= 1280,
{
    proof {
        lemma_single(edge as nat);
        lemma_single(long as nat);
    }
    let w = single_of(edge as u64);
    let l = single_of(long as u64);
    let (d, m) = divide(1280, l);
    proof {
        assert(w * m <= 0x2_0000_0000 * 0x100_0000) by (nonlinear_arith)
            requires
                0 <= w <= 0x2_0000_0000,
                0 <= m <= 0x100_0000,
        ;
        law_long_edge_is_capped(edge as nat, long as nat);
    }
    let p = single_of(w * m);
    let n: u64 = ((p as u128 + (d / 2) as u128) / d as u128) as u64;
    if n < 1 {
        1
    } else {
        n as u32
    }
}

/// An edge that is no longer than the long one is scaled to at most the length
/// that the long one is to have.
pub proof fn law_long_edge_is_capped(edge: nat, long: nat)
    requires
        0 < edge <= long,
        1280 < long <= u32::MAX,
    ensures
        1 <= scaled_edge(edge, long) <= 1280,
{
    let w = single(edge);
    let l = single(long);
    lemma_single(edge);
    lemma_single(long);
    let d = lift(1280, l);
    lemma_lift(1280, l);
    let m = quotient(1280, l);
    let n = 1280 * d;
    lemma_nearest(n, l);
    let p = single(w * m);
    lemma_single(w * m);
    // The bounds of the single steps, multiplied up.
    assert(m * l == nearest(n, l) * l);
    assert(2 * (m * l) <= 2 * n + l);
    assert(m * l * 0x100_0000 <= n * 0x100_0001);
    assert(w * 0xff_ffff <= l * 0x100_0001) by {
        assert(w * 0x100_0000 <= edge * 0x100_0001);
        assert(long * 0xff_ffff <= l * 0x100_0000);
    }
    assert((w * m) * 0xff_ffff <= (m * l) * 0x100_0001) by (nonlinear_arith)
        requires
            w * 0xff_ffff <= l * 0x100_0001,
            m >= 0,
    ;
    assert(p * 0x100_0000 <= (w * m) * 0x100_0001);
    assert(2 * p < 2561 * d);
    assert(2 * (d / 2) == d);
    assert(p + d / 2 < 1281 * d);
    assert((p + d / 2) / d <= 1280) by (nonlinear_arith)
        requires
            p + d / 2 < 1281 * d,
            d > 0,
    ;
}

/// Scaling down does not make an edge longer.
pub proof fn law_edge_does_not_grow(edge: nat, long: nat)
    requires
        0 < edge <= long,
        1280 < long <= u32::MAX,
    ensures
        scaled_edge(edge, long) <= edge,
{
    let w = single(edge);
    let l = single(long);
    lemma_single(edge);
    lemma_single(long);
    let d = lift(1280, l);
    lemma_lift(1280, l);
    let m = quotient(1280, l);
    let n = 1280 * d;
    lemma_nearest(n, l);
    let p = single(w * m);
    lemma_single(w * m);
    let em = edge * m;
    let e = edge * d;
    assert(m * l * 0x100_0000 <= n * 0x100_0001);
    assert((w * m) * 0x100_0000 <= em * 0x100_0001) by (nonlinear_arith)
        requires
            w * 0x100_0000 <= edge * 0x100_0001,
            em == edge * m,
    ;
    assert((em * l) * 0x100_0000 <= e * 1280 * 0x100_0001) by (nonlinear_arith)
        requires
            m * l * 0x100_0000 <= n * 0x100_0001,
            em == edge * m,
            e == edge * d,
            n == 1280 * d,
    ;
    assert(em * (1281 * 0xff_ffff) <= (em * l) * 0x100_0000) by (nonlinear_arith)
        requires
            1281 * 0xff_ffff <= l * 0x100_0000,
    ;
    let wm = w * m;
    assert(p * 0x100_0000 <= wm * 0x100_0001);
    assert(wm * 0x100_0000 <= em * 0x100_0001);
    assert(em * (1281 * 0xff_ffff) <= e * 1280 * 0x100_0001);
    assert(p <= e) by (nonlinear_arith)
        requires
            p * 0x100_0000 <= wm * 0x100_0001,
            wm * 0x100_0000 <= em * 0x100_0001,
            em * (1281 * 0xff_ffff) <= e * 1280 * 0x100_0001,
            e >= 0,
    ;
    assert(p + d / 2 < (edge + 1) * d) by (nonlinear_arith)
        requires
            p <= e,
            e == edge * d,
            d > 0,
    ;
    assert((p + d / 2) / d <= edge) by (nonlinear_arith)
        requires
            p + d / 2 < (edge + 1) * d,
            d > 0,
    ;
}

/// A double that stands for a whole number above zero, with its leading binary digit at
/// place fifty-two once it is moved up by `x` places, is read as that number:
/// times a power of two where one is asked for, below zero with the sign, within
/// the range that is asked for, and not below a floor.
pub proof fn law_whole_numbers_are_read(bits: u64, n: int, x: nat, k: nat, low: int, top: int)
    requires
        x <= 52,
        0x10_0000_0000_0000 <= n * pow2(x) < 0x20_0000_0000_0000,
        bits == (1075 - x) * 0x10_0000_0000_0000 + (n * pow2(x) - 0x10_0000_0000_0000),
        low <= 0 <= top,
    ensures
        converted(bits, 0, low, top) == (if n <= top { n } else { top }),
        k <= 52 ==> converted(bits, k as int, low, top) == (if n * pow2(k) <= top { n * pow2(k) } else { top }),
        converted((bits + 0x8000_0000_0000_0000) as u64, 0, low, top) == (if -n >= low { -n } else { low }),
        above_zero_below(bits, top) <==> n < top,
        !above_zero_below((bits + 0x8000_0000_0000_0000) as u64, top),
        n <= u64::MAX ==> at_least(bits, top) == (if n >= top { n } else { top }),
        at_least((bits + 0x8000_0000_0000_0000) as u64, top) == top,
{
    let f = n * pow2(x) - 0x10_0000_0000_0000;
    let neg = (bits + 0x8000_0000_0000_0000) as u64;
    assert(0 <= f < 0x10_0000_0000_0000);
    assert((bits / 0x10_0000_0000_0000) as int == 1075 - x);
    assert(bits as int % 0x10_0000_0000_0000 == f);
    assert(bits < 0x8000_0000_0000_0000);
    assert(neg as int == bits + 0x8000_0000_0000_0000);
    assert((neg / 0x10_0000_0000_0000) as int == 2048 + 1075 - x);
    assert(neg as int % 0x10_0000_0000_0000 == f);
    assert(exponent_field(bits) == 1075 - x && exponent_field(neg) == 1075 - x);
    assert(significand(bits) == n * pow2(x) && significand(neg) == n * pow2(x));
    lemma_pow2_pos(x);
    lemma_pow2_pos(k);
    assert(n > 0) by (nonlinear_arith)
        requires
            n * pow2(x) > 0,
            pow2(x) > 0,
    ;
    lemma_whole_shift(n, x, 0);
    lemma_whole_shift(n, x, k);
    assert(pow2(0) == 1) by {
        lemma_pow2_unfold_zero();
    }
    assert(n * pow2(0) == n);
    assert(n * pow2(k) > 0) by (nonlinear_arith)
        requires
            n > 0,
            pow2(k) > 0,
    ;
}

proof fn lemma_whole_shift(n: int, x: nat, k: nat)
    requires
        n > 0,
    ensures
        shifted(n * pow2(x), k - x) == n * pow2(k),
{
    lemma_pow2_pos(x);
    lemma_pow2_pos(k);
    if k >= x {
        let d = (k - x) as nat;
        lemma_pow2_adds(x, d);
        assert(n * pow2(x) * pow2(d) == n * (pow2(x) * pow2(d))) by (nonlinear_arith);
        if k == x {
            lemma_pow2_unfold_zero();
        }
    } else {
        let d = (x - k) as nat;
        lemma_pow2_pos(d);
        lemma_pow2_adds(k, d);
        assert(n * pow2(x) == (n * pow2(k)) * pow2(d)) by (nonlinear_arith)
            requires
                pow2(x) == pow2(k) * pow2(d),
        ;
        let q = n * pow2(k);
        let e = pow2(d) as int;
        assert((q * e) / e == q) by (nonlinear_arith)
            requires
                e > 0,
        ;
    }
}

/// No number and nothing are read as zero, and what is infinite as the end of the
/// range on its side.
pub proof fn law_what_is_no_whole_number(bits: u64, low: int, top: int)
    requires
        low <= 0 < top,
    ensures
        bits == 0 ==> converted(bits, 0, low, top) == 0 && !above_zero_below(bits, top),
        bits == 0x7ff0_0000_0000_0000 ==> converted(bits, 0, low, top) == top && !above_zero_below(bits, top),
        bits == 0xfff0_0000_0000_0000 ==> converted(bits, 0, low, top) == low && !above_zero_below(bits, top),
        0x7ff0_0000_0000_0000 < bits < 0x8000_0000_0000_0000 ==> converted(bits, 0, low, top) == 0
            && !above_zero_below(bits, top) && at_least(bits, top) == top,
{
    if bits == 0 {
        assert(significand(bits) == 0);
        assert(shifted(0, -1074) == 0) by {
            lemma_pow2_pos(1074);
            let e = pow2(1074) as int;
            assert(0int / e == 0) by (nonlinear_arith)
                requires
                    e > 0,
            ;
        }
    }
    if 0x7ff0_0000_0000_0000 <= bits < 0x8000_0000_0000_0000 {
        assert((bits / 0x10_0000_0000_0000) as int == 2047);
    }
    if bits == 0xfff0_0000_0000_0000 {
        assert((bits / 0x10_0000_0000_0000) as int == 4095);
    }
}

/// An edge is scaled in proportion: the result is less than one pixel off the
/// exact length.
pub proof fn law_edges_keep_their_proportion(edge: nat, long: nat)
    requires
        0 < edge <= long,
        1280 < long <= u32::MAX,
    ensures
        (scaled_edge(edge, long) - 1) * long < edge * 1280,
        edge * 1280 < (scaled_edge(edge, long) + 1) * long,
        edge == long ==> scaled_edge(edge, long) == 1280,
{
    let w = single(edge);
    let l = single(long);
    lemma_single(edge);
    lemma_single(long);
    let d = lift(1280, l);
    lemma_lift(1280, l);
    let m = quotient(1280, l);
    let n = 1280 * d;
    lemma_nearest(n, l);
    let wm = w * m;
    let p = single(wm);
    lemma_single(wm);
    let s = (p + d / 2) / d;
    assert(m * l * 0x100_0000 <= n * 0x100_0001);
    assert(n * 0xff_ffff <= m * l * 0x100_0000) by {
        assert(2 * n <= 2 * (m * l) + l);
        assert(n >= l * 0x80_0000);
    }
    let ml = m * l;
    // The two sides of `wm * long` against `edge * n`.
    lemma_scaled_bounds(edge, long, w, l, m, n);
    assert(p * 0x100_0000 <= wm * 0x100_0001);
    assert(wm * 0xff_ffff <= p * 0x100_0000);
    assert(2 * (d / 2) == d);
    lemma_fundamental_div_mod((p + d / 2) as int, d as int);
    assert(s * d <= p + d / 2 < (s + 1) * d) by (nonlinear_arith)
        requires
            d > 0,
            p + d / 2 == d * s + (p + d / 2) % d,
            0 <= (p + d / 2) % d < d,
    ;
    lemma_scaled_result(edge, long, wm, p, s, d);
    if s < 1 {
        assert((s + 1) * long == long) by (nonlinear_arith)
            requires
                s == 0,
        ;
        assert((1 - 1) * long == 0) by (nonlinear_arith);
        assert((1 + 1) * long == 2 * long) by (nonlinear_arith);
    }
}

proof fn lemma_scaled_bounds(edge: nat, long: nat, w: nat, l: nat, m: nat, n: nat)
    requires
        w * 0x100_0000 <= edge * 0x100_0001,
        edge * 0xff_ffff <= w * 0x100_0000,
        l * 0x100_0000 <= long * 0x100_0001,
        long * 0xff_ffff <= l * 0x100_0000,
        m * l * 0x100_0000 <= n * 0x100_0001,
        n * 0xff_ffff <= m * l * 0x100_0000,
    ensures
        (w * m) * long * 0xffff_ff00_0000 <= (edge * n) * 0x1_0000_0200_0001,
        (edge * n) * 0xffff_fe00_0001 <= (w * m) * long * 0x1_0000_0100_0000,
{
    let wm = w * m;
    let ml = m * l;
    let en = edge * n;
    let wl = wm * long;
    let k = wm * l;
    assert(wm * (long * 0xff_ffff) <= wm * (l * 0x100_0000)) by (nonlinear_arith)
        requires
            long * 0xff_ffff <= l * 0x100_0000,
            wm >= 0,
    ;
    assert(wm * (l * 0x100_0000) <= wm * (long * 0x100_0001)) by (nonlinear_arith)
        requires
            l * 0x100_0000 <= long * 0x100_0001,
            wm >= 0,
    ;
    assert(wm * (long * 0xff_ffff) == wl * 0xff_ffff && wm * (l * 0x100_0000) == k * 0x100_0000 && wm * (long
        * 0x100_0001) == wl * 0x100_0001) by (nonlinear_arith)
        requires
            wl == wm * long,
            k == wm * l,
    ;
    assert(k == w * ml) by (nonlinear_arith)
        requires
            k == wm * l,
            wm == w * m,
            ml == m * l,
    ;
    let wn = w * n;
    assert(k * 0x100_0000 <= wn * 0x100_0001) by (nonlinear_arith)
        requires
            k == w * ml,
            wn == w * n,
            ml * 0x100_0000 <= n * 0x100_0001,
            w >= 0,
    ;
    assert(wn * 0xff_ffff <= k * 0x100_0000) by (nonlinear_arith)
        requires
            k == w * ml,
            wn == w * n,
            n * 0xff_ffff <= ml * 0x100_0000,
            w >= 0,
    ;
    assert(wn * 0x100_0000 <= en * 0x100_0001) by (nonlinear_arith)
        requires
            w * 0x100_0000 <= edge * 0x100_0001,
            wn == w * n,
            en == edge * n,
            n >= 0,
    ;
    assert(en * 0xff_ffff <= wn * 0x100_0000) by (nonlinear_arith)
        requires
            edge * 0xff_ffff <= w * 0x100_0000,
            wn == w * n,
            en == edge * n,
            n >= 0,
    ;
    // wl * 0xff_ffff <= k * 2^24 <= wn * (2^24 + 1), and wn * 2^24 <= en * (2^24 + 1).
    assert(wl * 0xff_ffff <= wn * 0x100_0001);
    assert(wl * 0xffff_ff00_0000 <= en * 0x1_0000_0200_0001);
    assert(wn * 0xff_ffff <= wl * 0x100_0001);
    assert(en * 0xffff_fe00_0001 <= wl * 0x1_0000_0100_0000);
}

proof fn lemma_scaled_result(edge: nat, long: nat, wm: nat, p: nat, s: nat, d: nat)
    requires
        0 < edge <= long,
        d > 0,
        wm * long * 0xffff_ff00_0000 <= (edge * (1280 * d)) * 0x1_0000_0200_0001,
        (edge * (1280 * d)) * 0xffff_fe00_0001 <= wm * long * 0x1_0000_0100_0000,
        p * 0x100_0000 <= wm * 0x100_0001,
        wm * 0xff_ffff <= p * 0x100_0000,
        2 * (s * d) <= 2 * p + d,
        2 * p + d < 2 * ((s + 1) * d),
    ensures
        (s - 1) * long < edge * 1280 < (s + 1) * long,
        edge == long ==> s == 1280,
{
    let pl = p * long;
    let wl = wm * long;
    let ed = (edge * 1280) * d;
    let ld = long * d;
    assert(edge * (1280 * d) == ed) by (nonlinear_arith)
        requires
            ed == (edge * 1280) * d,
    ;
    assert(pl * 0x100_0000 <= wl * 0x100_0001) by (nonlinear_arith)
        requires
            p * 0x100_0000 <= wm * 0x100_0001,
            pl == p * long,
            wl == wm * long,
            long >= 0,
    ;
    assert(wl * 0xff_ffff <= pl * 0x100_0000) by (nonlinear_arith)
        requires
            wm * 0xff_ffff <= p * 0x100_0000,
            pl == p * long,
            wl == wm * long,
            long >= 0,
    ;
    assert(ed <= 1280 * ld) by (nonlinear_arith)
        requires
            edge <= long,
            ed == (edge * 1280) * d,
            ld == long * d,
            d > 0,
    ;
    assert(ld > 0) by (nonlinear_arith)
        requires
            long > 0,
            d > 0,
            ld == long * d,
    ;
    let sl = s * ld;
    assert(2 * sl <= 2 * pl + ld) by (nonlinear_arith)
        requires
            2 * (s * d) <= 2 * p + d,
            sl == s * ld,
            ld == long * d,
            pl == p * long,
            long >= 0,
    ;
    assert(2 * pl + ld < 2 * (sl + ld)) by (nonlinear_arith)
        requires
            2 * p + d < 2 * ((s + 1) * d),
            sl == s * ld,
            ld == long * d,
            pl == p * long,
            long > 0,
    ;
    // A few parts in sixteen million of at most 1280 times `ld` are less than a
    // tenth of it.
    assert(10 * pl < 10 * ed + ld);
    assert(10 * ed < 10 * pl + ld);
    assert(sl - ld < ed < sl + ld);
    assert((s - 1) * long < edge * 1280) by (nonlinear_arith)
        requires
            sl - ld < ed,
            sl == s * ld,
            ld == long * d,
            ed == (edge * 1280) * d,
            d > 0,
    ;
    assert(edge * 1280 < (s + 1) * long) by (nonlinear_arith)
        requires
            ed < sl + ld,
            sl == s * ld,
            ld == long * d,
            ed == (edge * 1280) * d,
            d > 0,
    ;
    if edge == long {
        assert(ed == 1280 * ld) by (nonlinear_arith)
            requires
                edge == long,
                ed == (edge * 1280) * d,
                ld == long * d,
        ;
        assert(10 * sl <= 10 * pl + 5 * ld);
        assert(10 * sl < 12_806 * ld);
        assert(12_794 * ld < 10 * sl);
        assert(s == 1280) by (nonlinear_arith)
            requires
                10 * sl < 12_806 * ld,
                12_794 * ld < 10 * sl,
                sl == s * ld,
                ld > 0,
        ;
    }
}

} // verus!
