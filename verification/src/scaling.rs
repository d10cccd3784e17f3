//! The size to which an avatar is shrunk where it does not fit.
//!
//! The scale is the smaller of the two ratios of room to size, taken in
//! double precision; each side is multiplied by it in double precision and
//! cut to a whole number. The functions here say in whole numbers what that
//! arithmetic gives, rounding to the nearest value of 53 significant bits,
//! a tie going to the even one.

use vstd::prelude::*;

verus! {

/// Two to the power 52: the least number of 53 bits.
pub open spec fn mantissa_low() -> nat {
    0x10_0000_0000_0000
}

/// Two to the power 53: the least number of more than 53 bits.
pub open spec fn mantissa_high() -> nat {
    0x20_0000_0000_0000
}

/// `n / d` rounded to the nearest whole number, a tie going to the even one.
pub open spec fn nearest(n: nat, d: nat) -> nat {
    let q = n / d;
    let r = n % d;
    if 2 * r < d || (2 * r == d && q % 2 == 0) {
        q
    } else {
        q + 1
    }
}

/// The least power of two that brings `n / d`, multiplied by it, to at least
/// two to the power 52.
pub open spec fn lift(n: nat, d: nat) -> nat
    decreases
        if n < d * mantissa_low() {
            d * mantissa_low() - n
        } else {
            0
        },
{
    if n == 0 || n >= d * mantissa_low() {
        1
    } else {
        2 * lift(2 * n, d)
    }
}

/// The least power of two that brings `n`, divided by it, below two to the
/// power 53.
pub open spec fn surplus(n: nat) -> nat
    decreases n,
{
    if n < mantissa_high() {
        1
    } else {
        2 * surplus(n / 2)
    }
}

/// `n` rounded to 53 significant bits.
pub open spec fn rounded(n: nat) -> nat {
    nearest(n, surplus(n)) * surplus(n)
}

/// The whole part of `extent` times the quotient of `num` by `den`, where the
/// quotient and then the product are each rounded to 53 significant bits.
pub open spec fn scaled_extent(extent: nat, num: nat, den: nat) -> nat {
    let mantissa = nearest(num * lift(num, den), den);
    rounded(extent * mantissa) / lift(num, den)
}

/// `v`, or the greatest `u32` where `v` is beyond it.
pub open spec fn saturated(v: nat) -> u32 {
    if v > u32::MAX {
        u32::MAX
    } else {
        v as u32
    }
}

/// The size to which an image of `width` by `height` is shrunk to go into a
/// room of `room_w` by `room_h`: both sides scaled by the smaller of
/// `room_w / width` and `room_h / height`. An empty image and an empty room
/// give the empty size.
pub open spec fn scaled_dims(width: u32, height: u32, room_w: u32, room_h: u32) -> (u32, u32) {
    if width == 0 || height == 0 || room_w == 0 || room_h == 0 {
        (0u32, 0u32)
    } else if room_w * height <= room_h * width {
        (
            saturated(scaled_extent(width as nat, room_w as nat, width as nat)),
            saturated(scaled_extent(height as nat, room_w as nat, width as nat)),
        )
    } else {
        (
            saturated(scaled_extent(width as nat, room_h as nat, height as nat)),
            saturated(scaled_extent(height as nat, room_h as nat, height as nat)),
        )
    }
}

proof fn lemma_nearest_bounds(n: nat, d: nat)
    requires
        d > 0,
    ensures
        2 * (nearest(n, d) * d) <= 2 * n + d,
        2 * n <= 2 * (nearest(n, d) * d) + d,
{
    let q = n / d;
    let r = n % d;
    vstd::arithmetic::div_mod::lemma_fundamental_div_mod(n as int, d as int);
    assert(n == d * q + r);
    assert(d * q == q * d) by (nonlinear_arith);
    assert((q + 1) * d == q * d + d) by (nonlinear_arith);
}

proof fn lemma_lift_bounds(n: nat, d: nat)
    requires
        n > 0,
        d > 0,
    ensures
        lift(n, d) >= 1,
        n * lift(n, d) >= d * mantissa_low(),
        n < d * mantissa_low() ==> n * lift(n, d) < 2 * (d * mantissa_low()),
    decreases
        if n < d * mantissa_low() {
            d * mantissa_low() - n
        } else {
            0
        },
{
    if n < d * mantissa_low() {
        lemma_lift_bounds(2 * n, d);
        let inner = lift(2 * n, d);
        assert(lift(n, d) == 2 * inner);
        assert(n * (2 * inner) == (2 * n) * inner) by (nonlinear_arith);
        if 2 * n >= d * mantissa_low() {
            assert(inner == 1);
            assert((2 * n) * inner == 2 * n) by (nonlinear_arith)
                requires
                    inner == 1,
            ;
        }
    } else {
        assert(lift(n, d) == 1);
        assert(n * lift(n, d) == n) by (nonlinear_arith)
            requires
                lift(n, d) == 1,
        ;
    }
}

proof fn lemma_surplus_bounds(p: nat)
    ensures
        surplus(p) >= 1,
        surplus(p) == 1 || surplus(p) * mantissa_low() <= p,
    decreases p,
{
    if p >= mantissa_high() {
        lemma_surplus_bounds(p / 2);
    }
}

/// Scaling in double precision stays within one of scaling exactly: with the
/// quotient at most one, the scaled extent is at most any whole number that
/// the exact product does not exceed, and at least one less than any whole
/// number that does not exceed the exact product.
pub proof fn lemma_scaled_extent_bounds(extent: nat, num: nat, den: nat, m: int)
    requires
        0 < num <= den <= u32::MAX,
        extent <= u32::MAX,
    ensures
        extent * num <= m * den ==> scaled_extent(extent, num, den) <= m,
        m * den <= extent * num ==> scaled_extent(extent, num, den) >= m - 1,
{
    let low = mantissa_low() as int;
    let e = extent as int;
    let n = num as int;
    let d = den as int;
    let f = lift(num, den) as int;
    let mantissa = nearest(num * lift(num, den), den) as int;
    let product = e * mantissa;
    let unit = surplus(product as nat) as int;
    let kept = nearest(product as nat, unit as nat) as int;
    let whole = kept * unit;
    lemma_lift_bounds(num, den);
    assert(f >= low) by (nonlinear_arith)
        requires
            n * f >= d * low,
            0 < n <= d,
            f >= 1,
            low > 0,
    ;
    lemma_nearest_bounds(num * lift(num, den), den);
    assert(0 <= mantissa <= 2 * low) by (nonlinear_arith)
        requires
            2 * (mantissa * d) <= 2 * (n * f) + d,
            n * f < 2 * (d * low),
            d > 0,
            mantissa >= 0,
    ;
    assert(0 <= product <= e * (2 * low)) by (nonlinear_arith)
        requires
            product == e * mantissa,
            0 <= mantissa <= 2 * low,
            e >= 0,
    ;
    lemma_surplus_bounds(product as nat);
    assert(e * (2 * low) == (2 * e) * low) by (nonlinear_arith);
    assert(unit == 1 || unit <= 2 * e) by (nonlinear_arith)
        requires
            unit == 1 || unit * low <= product,
            product <= (2 * e) * low,
            low > 0,
    ;
    assert(e + unit < 2 * f);
    lemma_nearest_bounds(product as nat, unit as nat);
    assert(scaled_extent(extent, num, den) == whole / f);
    vstd::arithmetic::div_mod::lemma_fundamental_div_mod(whole, f);
    let q = whole / f;
    assert(0 <= whole % f < f);
    if e * n <= m * d {
        assert(d * (2 * product) <= d * (2 * (m * f) + e)) by (nonlinear_arith)
            requires
                product == e * mantissa,
                2 * (mantissa * d) <= 2 * (n * f) + d,
                e * n <= m * d,
                e >= 0,
                f >= 0,
                d > 0,
        ;
        assert(2 * product <= 2 * (m * f) + e) by (nonlinear_arith)
            requires
                d * (2 * product) <= d * (2 * (m * f) + e),
                d > 0,
        ;
        assert(q <= m) by (nonlinear_arith)
            requires
                whole == f * q + whole % f,
                0 <= whole % f,
                2 * whole <= 2 * product + unit,
                2 * product <= 2 * (m * f) + e,
                e + unit < 2 * f,
                f > 0,
        ;
    }
    if m * d <= e * n {
        assert(d * (2 * (m * f)) <= d * (2 * product + e)) by (nonlinear_arith)
            requires
                product == e * mantissa,
                2 * (n * f) <= 2 * (mantissa * d) + d,
                m * d <= e * n,
                e >= 0,
                f >= 0,
                d > 0,
        ;
        assert(2 * (m * f) <= 2 * product + e) by (nonlinear_arith)
            requires
                d * (2 * (m * f)) <= d * (2 * product + e),
                d > 0,
        ;
        assert(q >= m - 1) by (nonlinear_arith)
            requires
                whole == f * q + whole % f,
                whole % f < f,
                2 * product <= 2 * whole + unit,
                2 * (m * f) <= 2 * product + e,
                e + unit < 2 * f,
                f > 0,
        ;
    }
}

/// An image that is shrunk to go into a room goes into it, and is no larger
/// than it was.
pub proof fn lemma_shrunk_size_fits(width: u32, height: u32, room_w: u32, room_h: u32)
    requires
        room_w < width || room_h < height || width == 0 || height == 0,
    ensures
        scaled_dims(width, height, room_w, room_h).0 <= room_w,
        scaled_dims(width, height, room_w, room_h).1 <= room_h,
        scaled_dims(width, height, room_w, room_h).0 <= width,
        scaled_dims(width, height, room_w, room_h).1 <= height,
{
    if width == 0 || height == 0 || room_w == 0 || room_h == 0 {
    } else if room_w * height <= room_h * width {
        assert(room_w < width) by (nonlinear_arith)
            requires
                room_w * height <= room_h * width,
                room_w < width || room_h < height,
                width > 0,
                height > 0,
                room_w > 0,
                room_h > 0,
        ;
        let (n, d) = (room_w as nat, width as nat);
        lemma_scaled_extent_bounds(width as nat, n, d, room_w as int);
        lemma_scaled_extent_bounds(width as nat, n, d, width as int);
        lemma_scaled_extent_bounds(height as nat, n, d, room_h as int);
        lemma_scaled_extent_bounds(height as nat, n, d, height as int);
        assert(width * room_w <= width * width) by (nonlinear_arith)
            requires
                room_w <= width,
        ;
        assert(height * room_w <= height * width) by (nonlinear_arith)
            requires
                room_w <= width,
        ;
        assert(width * room_w == room_w * width) by (nonlinear_arith);
        assert(height * room_w == room_w * height) by (nonlinear_arith);
    } else {
        assert(room_h < height) by (nonlinear_arith)
            requires
                room_w * height > room_h * width,
                room_w < width || room_h < height,
                width > 0,
                height > 0,
                room_w > 0,
                room_h > 0,
        ;
        let (n, d) = (room_h as nat, height as nat);
        lemma_scaled_extent_bounds(width as nat, n, d, room_w as int);
        lemma_scaled_extent_bounds(width as nat, n, d, width as int);
        lemma_scaled_extent_bounds(height as nat, n, d, room_h as int);
        lemma_scaled_extent_bounds(height as nat, n, d, height as int);
        assert(width * room_h <= width * height) by (nonlinear_arith)
            requires
                room_h <= height,
        ;
        assert(height * room_h <= height * height) by (nonlinear_arith)
            requires
                room_h <= height,
        ;
        assert(width * room_h == room_h * width) by (nonlinear_arith);
        assert(height * room_h == room_h * height) by (nonlinear_arith);
    }
}

/// A square that is shrunk stays a square, and its side is the smaller side
/// of the room or one less.
pub proof fn lemma_shrunk_square(size: u32, room_w: u32, room_h: u32)
    requires
        room_w > 0,
        room_h > 0,
        room_w < size || room_h < size,
    ensures
        scaled_dims(size, size, room_w, room_h).0 == scaled_dims(size, size, room_w, room_h).1,
        room_w <= room_h ==> room_w - 1 <= scaled_dims(size, size, room_w, room_h).0 <= room_w,
        room_h <= room_w ==> room_h - 1 <= scaled_dims(size, size, room_w, room_h).0 <= room_h,
{
    if room_w * size <= room_h * size {
        assert(room_w <= room_h) by (nonlinear_arith)
            requires
                room_w * size <= room_h * size,
                size > 0,
        ;
        assert(size * room_w == room_w * size) by (nonlinear_arith);
        lemma_scaled_extent_bounds(size as nat, room_w as nat, size as nat, room_w as int);
    } else {
        assert(room_h < room_w) by (nonlinear_arith)
            requires
                room_w * size > room_h * size,
                size > 0,
        ;
        assert(size * room_h == room_h * size) by (nonlinear_arith);
        lemma_scaled_extent_bounds(size as nat, room_h as nat, size as nat, room_h as int);
    }
}

fn nearest_div(n: u128, d: u128) -> (q: u128)
    requires
        0 < d <= 0x4000_0000_0000_0000_0000_0000_0000_0000,
        n <= 0x4000_0000_0000_0000_0000_0000_0000_0000,
    ensures
        q == nearest(n as nat, d as nat),
        q <= n / d + 1,
{
    let quot = n / d;
    let rem = n % d;
    if 2 * rem < d || (2 * rem == d && quot % 2 == 0) {
        quot
    } else {
        quot + 1
    }
}

fn scale_extent(extent: u32, num: u32, den: u32) -> (out: u32)
    requires
        num > 0,
        den > 0,
    ensures
        out == saturated(scaled_extent(extent as nat, num as nat, den as nat)),
{
    let limit: u128 = (den as u128) * 0x10_0000_0000_0000;
    let mut lifted: u128 = num as u128;
    let mut factor: u128 = 1;
    while lifted < limit
        invariant
            num > 0,
            den > 0,
            limit == den * mantissa_low(),
            lifted == num * factor,
            factor >= 1,
            lifted >= 1,
            lifted < 2 * limit,
            lift(num as nat, den as nat) == factor * lift(lifted as nat, den as nat),
        decreases
            if lifted < limit {
                limit - lifted
            } else {
                0
            },
    {
        proof {
            let f = factor as int;
            let l = lift((2 * lifted) as nat, den as nat) as int;
            assert(f * (2 * l) == (2 * f) * l) by (nonlinear_arith);
            assert(num * (2 * f) == 2 * (num * f)) by (nonlinear_arith);
            assert(f <= num * f) by (nonlinear_arith)
                requires
                    num >= 1,
                    f >= 1,
            ;
        }
        lifted = lifted * 2;
        factor = factor * 2;
    }
    assert(factor == lift(num as nat, den as nat)) by {
        let l = lift(lifted as nat, den as nat);
        assert(factor * l == factor) by (nonlinear_arith)
            requires
                l == 1,
        ;
    }
    let mantissa = nearest_div(lifted, den as u128);
    proof {
        let d = den as int;
        let l = lifted as int;
        assert(l / d < 0x20_0000_0000_0000) by (nonlinear_arith)
            requires
                d > 0,
                l < d * 0x20_0000_0000_0000,
        ;
        assert(0 <= extent * mantissa <= 0xFFFF_FFFF * 0x20_0000_0000_0000) by (nonlinear_arith)
            requires
                0 <= extent <= 0xFFFF_FFFF,
                0 <= mantissa <= 0x20_0000_0000_0000,
        ;
    }
    let product: u128 = (extent as u128) * mantissa;
    let mut rest: u128 = product;
    let mut unit: u128 = 1;
    while rest >= 0x20_0000_0000_0000
        invariant
            unit >= 1,
            unit <= product + 1,
            unit * rest <= product,
            product <= 0xFFFF_FFFF * 0x20_0000_0000_0000,
            surplus(product as nat) == unit * surplus(rest as nat),
        decreases rest,
    {
        proof {
            let u = unit as int;
            let r = rest as int;
            let s = surplus((r / 2) as nat) as int;
            assert(u * (2 * s) == (2 * u) * s) by (nonlinear_arith);
            assert((2 * u) * (r / 2) <= u * r) by (nonlinear_arith)
                requires
                    u >= 1,
                    2 * (r / 2) <= r,
            ;
            assert(2 * u <= u * r) by (nonlinear_arith)
                requires
                    u >= 1,
                    r >= 2,
            ;
        }
        rest = rest / 2;
        unit = unit * 2;
    }
    assert(unit == surplus(product as nat)) by {
        let s = surplus(rest as nat);
        assert(unit * s == unit) by (nonlinear_arith)
            requires
                s == 1,
        ;
    }
    proof {
        let u = unit as int;
        let p = product as int;
        assert((p / u + 1) * u <= p + u) by (nonlinear_arith)
            requires
                u >= 1,
                p >= 0,
        ;
    }
    let kept = nearest_div(product, unit);
    proof {
        assert(kept * unit <= (product / unit + 1) * unit) by (nonlinear_arith)
            requires
                kept <= product / unit + 1,
                unit >= 1,
        ;
    }
    let whole: u128 = (kept * unit) / factor;
    if whole > u32::MAX as u128 {
        u32::MAX
    } else {
        whole as u32
    }
}

/// The size to which an image of `width` by `height` is shrunk to go into a
/// room of `room_w` by `room_h`.
pub fn scaled_size(width: u32, height: u32, room_w: u32, room_h: u32) -> (dims: (u32, u32))
    ensures
        dims == scaled_dims(width, height, room_w, room_h),
{
    if width == 0 || height == 0 || room_w == 0 || room_h == 0 {
        return (0, 0);
    }
    assert(0 <= room_w * height <= 0xFFFF_FFFF * 0xFFFF_FFFF) by (nonlinear_arith)
        requires
            0 <= room_w <= 0xFFFF_FFFF,
            0 <= height <= 0xFFFF_FFFF,
    ;
    assert(0 <= room_h * width <= 0xFFFF_FFFF * 0xFFFF_FFFF) by (nonlinear_arith)
        requires
            0 <= room_h <= 0xFFFF_FFFF,
            0 <= width <= 0xFFFF_FFFF,
    ;
    if (room_w as u64) * (height as u64) <= (room_h as u64) * (width as u64) {
        (scale_extent(width, room_w, width), scale_extent(height, room_w, width))
    } else {
        (scale_extent(width, room_h, height), scale_extent(height, room_h, height))
    }
}

} // verus!
