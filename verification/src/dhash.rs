//! A fingerprint of a picture by which a frame is told from the one before it.
use crate::float::{self, lemma_single, single};
use vstd::arithmetic::power2::{lemma2_to64, lemma_pow2_unfold, pow2};
use vstd::prelude::*;

verus! {

/// The position on an edge of `size` pixels that the `k`th of eight samples is
/// taken at.
pub open spec fn sample(k: nat, size: nat) -> nat {
    let v = single((2 * k + 1) * single(size)) / 16;
    if v < size {
        v
    } else {
        (size - 1) as nat
    }
}

/// The brightness of a pixel.
pub open spec fn luma(r: u8, g: u8, b: u8) -> int {
    (r * 30 + g * 59 + b * 11) / 100
}

/// The brightness of one of the samples, counted row by row.
pub open spec fn brightness(rgba: Seq<u8>, width: nat, height: nat, i: int) -> int {
    let at = ((sample((i / 8) as nat, height) * width + sample((i % 8) as nat, width)) * 4) as int;
    luma(rgba[at], rgba[at + 1], rgba[at + 2])
}

/// The brightness of all samples together, up to one of them.
pub open spec fn total_brightness(rgba: Seq<u8>, width: nat, height: nat, n: nat) -> int
    decreases n,
{
    if n == 0 {
        0
    } else {
        total_brightness(rgba, width, height, (n - 1) as nat) + brightness(rgba, width, height, n - 1)
    }
}

/// The mean brightness of the samples.
pub open spec fn mean_brightness(rgba: Seq<u8>, width: nat, height: nat) -> int {
    total_brightness(rgba, width, height, 64) / 64
}

/// There is a picture of this size.
pub open spec fn has_picture(rgba: Seq<u8>, width: nat, height: nat) -> bool {
    width > 0 && height > 0 && rgba.len() >= width * height * 4
}

/// Bit `i` of a number.
pub open spec fn bit(x: u64, i: u64) -> bool {
    (x >> i) & 1 == 1
}

fn sample_at(k: u32, size: u32) -> (r: u32)
    requires
        k < 8,
        size > 0,
    ensures
        r == sample(k as nat, size as nat),
        r < size,
{
    let s = float::single_of(size as u64);
    proof {
        assert((2 * k + 1) * s <= 15 * 0x2_0000_0000) by (nonlinear_arith)
            requires
                k < 8,
                0 <= s <= 0x2_0000_0000,
        ;
    }
    let v: u64 = float::single_of((2 * k as u64 + 1) * s) / 16;
    if v < size as u64 {
        v as u32
    } else {
        size - 1
    }
}

fn luma_of(r: u8, g: u8, b: u8) -> (v: u32)
    ensures
        v == luma(r, g, b),
        v <= 255,
{
    (r as u32 * 30 + g as u32 * 59 + b as u32 * 11) / 100
}

fn brightness_at(rgba: &[u8], width: u32, height: u32, i: u32) -> (r: u32)
    requires
        i < 64,
        has_picture(rgba@, width as nat, height as nat),
        width * height * 4 <= u32::MAX,
    ensures
        r == brightness(rgba@, width as nat, height as nat, i as int),
        r <= 255,
{
    let y = sample_at(i / 8, height);
    let x = sample_at(i % 8, width);
    proof {
        assert(y * width + x < width * height) by (nonlinear_arith)
            requires
                0 <= y,
                y + 1 <= height,
                0 <= x < width,
        ;
        assert(y * width >= 0) by (nonlinear_arith)
            requires
                y >= 0,
                width >= 0,
        ;
    }
    let at: usize = ((y * width + x) * 4) as usize;
    luma_of(rgba[at], rgba[at + 1], rgba[at + 2])
}

/// A number is the fingerprint of a picture: the mean brightness in the top byte,
/// and below it one bit to each sample that is brighter than the mean. Zero
/// without a picture.
pub open spec fn is_fingerprint(rgba: Seq<u8>, width: nat, height: nat, r: u64) -> bool {
    if has_picture(rgba, width, height) {
        let mean = mean_brightness(rgba, width, height);
        &&& r >> 56 == mean
        &&& forall|i: u64| i < 56 ==> (#[trigger] bit(r, i) <==> brightness(rgba, width, height, i as int) > mean)
    } else {
        r == 0
    }
}

/// The fingerprint of a picture.
pub fn compute(rgba: &[u8], width: u32, height: u32) -> (r: u64)
    requires
        width * height * 4 <= u32::MAX,
    ensures
        is_fingerprint(rgba@, width as nat, height as nat, r),
{
    if width == 0 || height == 0 {
        return 0;
    }
    proof {
        assert(width * height >= 0) by (nonlinear_arith)
            requires
                width > 0,
                height > 0,
        ;
    }
    let need: u32 = width * height * 4;
    if rgba.len() < need as usize {
        return 0;
    }
    let ghost w = width as nat;
    let ghost h = height as nat;
    let mut sum: u32 = 0;
    let mut i: u32 = 0;
    while i < 64
        invariant
            i <= 64,
            w == width,
            h == height,
            has_picture(rgba@, w, h),
            width * height * 4 <= u32::MAX,
            sum == total_brightness(rgba@, w, h, i as nat),
            sum <= 255 * i,
        decreases 64 - i,
    {
        sum += brightness_at(rgba, width, height, i);
        i += 1;
    }
    let mean: u32 = sum / 64;
    let mut hash: u64 = 0;
    let mut k: u64 = 0;
    proof {
        assert forall|j: u64| j < 64 implies !#[trigger] bit(0, j) by {
            assert((0u64 >> j) & 1 == 0) by (bit_vector);
        }
    }
    while k < 56
        invariant
            k <= 56,
            w == width,
            h == height,
            mean == mean_brightness(rgba@, w, h),
            has_picture(rgba@, w, h),
            width * height * 4 <= u32::MAX,
            forall|j: u64| k <= j < 64 ==> !#[trigger] bit(hash, j),
            forall|j: u64| j < k ==> (#[trigger] bit(hash, j) <==> brightness(rgba@, w, h, j as int) > mean),
        decreases 56 - k,
    {
        if brightness_at(rgba, width, height, k as u32) > mean {
            let next = hash | (1u64 << k);
            proof {
                assert forall|j: u64| j < 64 implies (#[trigger] bit(next, j) <==> j == k || bit(hash, j)) by {
                    assert((((hash | (1u64 << k)) >> j) & 1 == 1) <==> (j == k || ((hash >> j) & 1 == 1)))
                        by (bit_vector)
                        requires
                            j < 64,
                            k < 64,
                    ;
                }
            }
            hash = next;
        }
        k += 1;
    }
    let top: u64 = mean as u64;
    let r = hash | (top << 56);
    proof {
        assert(bit(hash, 56) == false);
        assert(!bit(hash, 57) && !bit(hash, 58) && !bit(hash, 59) && !bit(hash, 60) && !bit(hash, 61) && !bit(hash, 62)
            && !bit(hash, 63));
        assert(hash >> 56 == 0) by (bit_vector)
            requires
                (hash >> 56) & 1 != 1,
                (hash >> 57) & 1 != 1,
                (hash >> 58) & 1 != 1,
                (hash >> 59) & 1 != 1,
                (hash >> 60) & 1 != 1,
                (hash >> 61) & 1 != 1,
                (hash >> 62) & 1 != 1,
                (hash >> 63) & 1 != 1,
        ;
        assert(r >> 56 == top) by (bit_vector)
            requires
                r == hash | (top << 56),
                hash >> 56 == 0,
                top <= 255,
        ;
        assert forall|j: u64| j < 56 implies (#[trigger] bit(r, j) <==> bit(hash, j)) by {
            assert((((hash | (top << 56)) >> j) & 1 == 1) <==> ((hash >> j) & 1 == 1)) by (bit_vector)
                requires
                    j < 56,
            ;
        }
    }
    r
}

/// The number of ones in a number.
pub open spec fn ones(x: u64) -> nat
    decreases x,
{
    if x == 0 {
        0
    } else {
        (x % 2) as nat + ones(x / 2)
    }
}

proof fn lemma_ones(x: u64, k: nat)
    requires
        x < pow2(k),
    ensures
        ones(x) <= k,
    decreases k,
{
    if x > 0 {
        if k == 0 {
            lemma2_to64();
        } else {
            lemma_pow2_unfold(k);
            lemma_ones(x / 2, (k - 1) as nat);
        }
    }
}

/// The number of bits in which two fingerprints differ.
pub fn distance(a: u64, b: u64) -> (r: u32)
    ensures
        r == ones(a ^ b),
        r <= 64,
{
    let mut x: u64 = a ^ b;
    let mut n: u32 = 0;
    proof {
        lemma2_to64();
        lemma_ones(x, 64);
    }
    while x > 0
        invariant
            n + ones(x) == ones(a ^ b),
            ones(a ^ b) <= 64,
        decreases x,
    {
        n += (x % 2) as u32;
        x = x / 2;
    }
    n
}

/// Two frames count as the same: both have a fingerprint, and these differ in
/// few bits.
pub fn unchanged(a: u64, b: u64, threshold: u32) -> (r: bool)
    ensures
        r == (a != 0 && b != 0 && ones(a ^ b) <= threshold),
{
    a != 0 && b != 0 && distance(a, b) <= threshold
}

/// The distance of two fingerprints is the same either way round, and zero
/// where they are equal and nowhere else.
pub proof fn law_distance(a: u64, b: u64)
    ensures
        ones(a ^ b) == ones(b ^ a),
        ones(a ^ b) == 0 <==> a == b,
{
    assert(a ^ b == b ^ a) by (bit_vector);
    assert(a ^ b == 0 <==> a == b) by (bit_vector);
    lemma_ones_zero(a ^ b);
}

proof fn lemma_ones_zero(x: u64)
    ensures
        ones(x) == 0 <==> x == 0,
    decreases x,
{
    if x != 0 {
        lemma_ones_zero(x / 2);
    }
}

fn solid(value: u8) -> (r: Vec<u8>)
    ensures
        r@.len() == 1024,
        forall|k: int| 0 <= k < 1024 ==> #[trigger] r@[k] == (if k % 4 == 3 { 255u8 } else { value }),
{
    let mut v: Vec<u8> = Vec::new();
    let mut i: usize = 0;
    while i < 256
        invariant
            i <= 256,
            v@.len() == 4 * i,
            forall|k: int| 0 <= k < 4 * i ==> #[trigger] v@[k] == (if k % 4 == 3 { 255u8 } else { value }),
        decreases 256 - i,
    {
        v.push(value);
        v.push(value);
        v.push(value);
        v.push(255);
        i += 1;
    }
    v
}

proof fn lemma_solid(rgba: Seq<u8>, value: u8, n: nat)
    requires
        n <= 64,
        rgba.len() == 1024,
        forall|k: int| 0 <= k < 1024 ==> #[trigger] rgba[k] == (if k % 4 == 3 { 255u8 } else { value }),
    ensures
        total_brightness(rgba, 16, 16, n) == n * value,
    decreases n,
{
    if n > 0 {
        lemma_solid(rgba, value, (n - 1) as nat);
        let i = n - 1;
        lemma_single(16);
        let y = sample((i / 8) as nat, 16);
        let x = sample((i % 8) as nat, 16);
        let at = ((y * 16 + x) * 4) as int;
        assert(rgba[at] == value && rgba[at + 1] == value && rgba[at + 2] == value);
        assert(brightness(rgba, 16, 16, i) == value);
        assert(n * value == (n - 1) * value + value) by (nonlinear_arith);
    } else {
        assert(0 * value == 0);
    }
}

/// A dark and a light picture have different fingerprints, and one picture has
/// one.
pub fn self_test() -> (r: Result<(), String>)
    ensures
        r is Ok,
{
    let dark = solid(0);
    let light = solid(255);
    let a = compute(dark.as_slice(), 16, 16);
    let b = compute(light.as_slice(), 16, 16);
    proof {
        lemma_solid(dark@, 0, 64);
        lemma_solid(light@, 255, 64);
    }
    if a == b {
        return Err("dhash collapsed light vs dark".to_string());
    }
    let c = compute(dark.as_slice(), 16, 16);
    proof {
        law_fingerprint_is_brightness(a, c);
    }
    if a != c {
        return Err("dhash not deterministic".to_string());
    }
    Ok(())
}

/// A fingerprint is told by the mean brightness and by which samples are
/// brighter than it: nothing else of a picture matters.
pub proof fn law_fingerprint_is_brightness(a: u64, b: u64)
    requires
        a >> 56 == b >> 56,
        forall|i: u64| i < 56 ==> (#[trigger] bit(a, i) <==> bit(b, i)),
    ensures
        a == b,
{
    assert forall|i: u64| i < 56 implies (a >> i) & 1 == #[trigger] ((b >> i) & 1) by {
        assert(bit(a, i) <==> bit(b, i));
        assert((a >> i) & 1 == 0 || (a >> i) & 1 == 1) by (bit_vector);
        assert((b >> i) & 1 == 0 || (b >> i) & 1 == 1) by (bit_vector);
    }
    lemma_low_bits(a, b, 56);
    assert(a == b) by (bit_vector)
        requires
            a >> 56 == b >> 56,
            (a ^ b) << 8 == 0,
    ;
}

proof fn lemma_low_bits(a: u64, b: u64, n: u64)
    requires
        n <= 56,
        forall|i: u64| i < n ==> (a >> i) & 1 == #[trigger] ((b >> i) & 1),
    ensures
        (a ^ b) << ((64 - n) as u64) == 0,
    decreases n,
{
    if n == 0 {
        assert((a ^ b) << 64u64 == 0) by (bit_vector);
    } else {
        let m = (n - 1) as u64;
        lemma_low_bits(a, b, m);
        let wide = (64 - m) as u64;
        let narrow = (64 - n) as u64;
        assert((a >> m) & 1 == ((b >> m) & 1));
        assert((a ^ b) << narrow == 0) by (bit_vector)
            requires
                m < 56,
                wide == 64 - m,
                narrow == 63 - m,
                (a ^ b) << wide == 0,
                (a >> m) & 1 == (b >> m) & 1,
        ;
    }
}

/// Each of the eight samples along an edge lies in its own eighth of it, so that
/// the samples are spread over the whole picture. No two of them trade places.
pub proof fn law_samples_cover_the_edge(k: nat, size: nat)
    requires
        k < 8,
        0 < size < 0x10_0000,
    ensures
        sample(k, size) < size,
        k * size <= 8 * sample(k, size) + 7,
        8 * sample(k, size) <= (k + 1) * size,
        16 * sample(k, size) <= (2 * k + 1) * size < 16 * sample(k, size) + 16,
{
    lemma_single(size);
    let n = (2 * k + 1) * size;
    assert(n < 0x100_0000 && n <= 15 * size) by (nonlinear_arith)
        requires
            n == (2 * k + 1) * size,
            k < 8,
            size < 0x10_0000,
    ;
    lemma_single(n);
    assert(2 * (k * size) + size == n) by (nonlinear_arith)
        requires
            n == (2 * k + 1) * size,
    ;
    assert((k + 1) * size == k * size + size) by (nonlinear_arith);
}

/// A sample is as bright as the pixel in its place: three parts in ten of its red,
/// about six of its green and one of its blue.
pub proof fn law_brightness_of_a_sample(rgba: Seq<u8>, width: nat, height: nat, x: int, y: int)
    requires
        0 <= x < 8,
        0 <= y < 8,
    ensures
        ({
            let at = ((sample(y as nat, height) * width + sample(x as nat, width)) * 4) as int;
            let b = brightness(rgba, width, height, 8 * y + x);
            100 * b <= 30 * rgba[at] + 59 * rgba[at + 1] + 11 * rgba[at + 2] < 100 * b + 100
        }),
{
    let i = 8 * y + x;
    assert(i / 8 == y && i % 8 == x);
}

/// The mean lies between the darkest and the brightest sample, and it is their
/// common brightness where all are alike.
pub proof fn law_the_mean_is_between(rgba: Seq<u8>, width: nat, height: nat, low: int, high: int)
    requires
        forall|i: int| 0 <= i < 64 ==> low <= #[trigger] brightness(rgba, width, height, i) <= high,
    ensures
        low <= mean_brightness(rgba, width, height) <= high,
{
    lemma_total_between(rgba, width, height, low, high, 64);
}

proof fn lemma_total_between(rgba: Seq<u8>, width: nat, height: nat, low: int, high: int, n: nat)
    requires
        n <= 64,
        forall|i: int| 0 <= i < 64 ==> low <= #[trigger] brightness(rgba, width, height, i) <= high,
    ensures
        n * low <= total_brightness(rgba, width, height, n) <= n * high,
    decreases n,
{
    if n > 0 {
        lemma_total_between(rgba, width, height, low, high, (n - 1) as nat);
        let b = brightness(rgba, width, height, n - 1);
        assert(low <= b <= high);
        let m = n - 1;
        assert(n * low == m * low + low && n * high == m * high + high) by (nonlinear_arith)
            requires
                n == m + 1,
        ;
    } else {
        assert(n * low == 0 && n * high == 0) by (nonlinear_arith)
            requires
                n == 0,
        ;
    }
}

/// Sixty-four times the mean is the sum of all sixty-four samples, but for what
/// the division leaves over; making one sample brighter by so much makes the sum
/// greater by as much.
pub proof fn law_all_samples_count(a: Seq<u8>, b: Seq<u8>, width: nat, height: nat, i: int)
    requires
        0 <= i < 64,
        forall|j: int|
            0 <= j < 64 && j != i ==> #[trigger] brightness(a, width, height, j) == brightness(b, width, height, j),
    ensures
        64 * mean_brightness(a, width, height) <= total_brightness(a, width, height, 64) < 64 * mean_brightness(
            a,
            width,
            height,
        ) + 64,
        total_brightness(b, width, height, 64) - total_brightness(a, width, height, 64) == brightness(b, width, height, i)
            - brightness(a, width, height, i),
{
    lemma_one_sample(a, b, width, height, i, 64);
}

proof fn lemma_one_sample(a: Seq<u8>, b: Seq<u8>, width: nat, height: nat, i: int, n: nat)
    requires
        0 <= i < 64,
        n <= 64,
        forall|j: int|
            0 <= j < 64 && j != i ==> #[trigger] brightness(a, width, height, j) == brightness(b, width, height, j),
    ensures
        total_brightness(b, width, height, n) - total_brightness(a, width, height, n) == (if i < n {
            brightness(b, width, height, i) - brightness(a, width, height, i)
        } else {
            0
        }),
    decreases n,
{
    if n > 0 {
        lemma_one_sample(a, b, width, height, i, (n - 1) as nat);
        if n - 1 != i {
            assert(brightness(a, width, height, n - 1) == brightness(b, width, height, n - 1));
        }
    }
}

/// A picture has one fingerprint, and the mean brightness and each of the samples
/// but the last eight can be told from it.
pub proof fn law_what_a_fingerprint_tells(rgba: Seq<u8>, width: nat, height: nat, r: u64, other: u64, x: int, y: int)
    requires
        width > 0,
        height > 0,
        rgba.len() >= width * height * 4,
        is_fingerprint(rgba, width, height, r),
        is_fingerprint(rgba, width, height, other),
        0 <= x < 8,
        0 <= y < 7,
    ensures
        r == other,
        r / 0x100_0000_0000_0000 == mean_brightness(rgba, width, height),
        (r >> ((8 * y + x) as u64)) & 1 == 1 <==> brightness(rgba, width, height, 8 * y + x) > mean_brightness(
            rgba,
            width,
            height,
        ),
{
    law_fingerprint_is_brightness(r, other);
    assert(r >> 56 == r / 0x100_0000_0000_0000) by (bit_vector);
    let i = (8 * y + x) as u64;
    assert(bit(r, i) <==> brightness(rgba, width, height, i as int) > mean_brightness(rgba, width, height));
}

/// Where there is no picture, or fewer bytes than it needs, the fingerprint is
/// zero.
pub proof fn law_no_picture_no_fingerprint(rgba: Seq<u8>, width: nat, height: nat, r: u64)
    requires
        is_fingerprint(rgba, width, height, r),
        width == 0 || height == 0 || rgba.len() < width * height * 4,
    ensures
        r == 0,
{
}

/// The bits below the `n`th that are set.
pub open spec fn set_below(x: u64, n: nat) -> nat
    decreases n,
{
    if n == 0 {
        0
    } else {
        set_below(x, (n - 1) as nat) + (if (x >> ((n - 1) as u64)) & 1 == 1 {
            1nat
        } else {
            0nat
        })
    }
}

/// The distance of two fingerprints is the number of places in which their bits
/// differ.
pub proof fn law_distance_counts_bits(a: u64, b: u64)
    ensures
        ones(a ^ b) == set_below(a ^ b, 64),
{
    lemma2_to64();
    lemma_ones_set(a ^ b, 64);
}

proof fn lemma_ones_set(x: u64, n: nat)
    requires
        x < pow2(n),
        n <= 64,
    ensures
        ones(x) == set_below(x, n),
    decreases n,
{
    lemma2_to64();
    if n == 0 {
        assert(x == 0);
    } else {
        lemma_pow2_unfold(n);
        lemma_ones_set(x / 2, (n - 1) as nat);
        lemma_set_half(x, n);
        assert((x >> 0u64) & 1 == x % 2) by (bit_vector);
    }
}

proof fn lemma_set_half(x: u64, n: nat)
    requires
        0 < n <= 64,
    ensures
        set_below(x, n) == (if (x >> 0u64) & 1 == 1 {
            1nat
        } else {
            0nat
        }) + set_below(x / 2, (n - 1) as nat),
    decreases n,
{
    if n == 1 {
        assert(set_below(x, 0) == 0);
        assert(set_below(x / 2, 0) == 0);
    } else {
        lemma_set_half(x, (n - 1) as nat);
        let i = (n - 1) as u64;
        let h = (n - 2) as u64;
        assert(x >> i == (x / 2) >> h) by (bit_vector)
            requires
                i == h + 1,
                i < 64,
        ;
    }
}

} // verus!
