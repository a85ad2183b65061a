//! The sizes of downscaled images.
//!
//! A side is multiplied by a scale factor in double precision. Doubles are modelled
//! by integers here: a quotient or a product keeps 53 significant bits, and a tie
//! between two neighbours goes to the even one.

use vstd::prelude::*;

verus! {

/// `n / d`, rounded to the nearest integer, ties to even.
pub open spec fn half_even(n: int, d: int) -> int {
    let q = n / d;
    let r = n % d;
    if 2 * r > d || (2 * r == d && q % 2 == 1) { q + 1 } else { q }
}

/// The power of two by which `n / d` is multiplied to have 53 integer bits, for a
/// positive quotient below that.
pub open spec fn scale_unit(n: int, d: int) -> int
    decreases 0x20_0000_0000_0000 * d - n,
{
    if n <= 0 || n >= 0x10_0000_0000_0000 * d {
        1
    } else {
        2 * scale_unit(2 * n, d)
    }
}

/// The power of two of which an integer beyond 53 bits keeps only multiples.
pub open spec fn excess_unit(p: int) -> int
    decreases p,
{
    if p < 0x20_0000_0000_0000 { 1 } else { 2 * excess_unit(p / 2) }
}

/// `side` times the scale factor `max / long`, in multiples of one `unit`-th.
pub open spec fn scaled_product(side: int, long: int, max: int, unit: int) -> int {
    let exact = side * half_even(max * unit, long);
    half_even(exact, excess_unit(exact)) * excess_unit(exact)
}

/// `side` scaled by `max / long`, rounded to the nearest integer with ties away
/// from zero, at least one.
pub open spec fn scaled(side: u32, long: u32, max: u32) -> int {
    let unit = scale_unit(max as int, long as int);
    let rounded = (2 * scaled_product(side as int, long as int, max as int, unit) + unit) / (2 * unit);
    if rounded < 1 { 1 } else { rounded }
}

proof fn lemma_half_even(n: int, d: int)
    requires
        n >= 0,
        d > 0,
    ensures
        0 <= half_even(n, d),
        -d <= 2 * (half_even(n, d) * d - n) <= d,
        d == 1 ==> half_even(n, d) == n,
{
    let q = n / d;
    let r = n % d;
    assert(n == d * q + r && 0 <= r < d && 0 <= q) by (nonlinear_arith)
        requires
            q == n / d,
            r == n % d,
            n >= 0,
            d > 0,
    ;
    assert((q + 1) * d == d * q + d && q * d == d * q) by (nonlinear_arith);
}

proof fn lemma_scale_unit(n: int, d: int)
    requires
        0 < n < 0x20_0000_0000_0000 * d,
    ensures
        scale_unit(n, d) >= 1,
        0x10_0000_0000_0000 * d <= n * scale_unit(n, d) < 0x20_0000_0000_0000 * d,
    decreases 0x20_0000_0000_0000 * d - n,
{
    if n < 0x10_0000_0000_0000 * d {
        lemma_scale_unit(2 * n, d);
        let u = scale_unit(2 * n, d);
        assert((2 * n) * u == n * (2 * u)) by (nonlinear_arith);
    }
}

proof fn lemma_excess_unit(p: int)
    requires
        p >= 0,
    ensures
        excess_unit(p) >= 1,
        excess_unit(p) == 1 || excess_unit(p) * 0x10_0000_0000_0000 <= p,
    decreases p,
{
    if p >= 0x20_0000_0000_0000 {
        lemma_excess_unit(p / 2);
    }
}

/// Rounding to 53 bits changes a value by less than one part in 2^53.
proof fn lemma_rounded(p: int)
    requires
        p >= 0,
    ensures
        ({
            let product = half_even(p, excess_unit(p)) * excess_unit(p);
            &&& 0 <= product
            &&& 0x20_0000_0000_0000 * (product - p) <= p
            &&& 0x20_0000_0000_0000 * (p - product) <= p
        }),
{
    let v = excess_unit(p);
    lemma_excess_unit(p);
    lemma_half_even(p, v);
    let h = half_even(p, v);
    assert(h * v >= 0) by (nonlinear_arith)
        requires
            h >= 0,
            v >= 1,
    ;
    if v == 1 {
        assert(h * v == h) by (nonlinear_arith)
            requires
                v == 1,
        ;
    }
}

/// How far the scale factor and the product can be off.
proof fn lemma_product(side: int, long: int, max: int)
    requires
        0 <= side <= long,
        0 < max < long,
        long <= u32::MAX,
    ensures
        ({
            let unit = scale_unit(max, long);
            let factor = half_even(max * unit, long);
            let product = scaled_product(side, long, max, unit);
            &&& 0x10_0000_0000_0000 <= unit <= max * unit < 0x20_0000_0000_0000 * long
            &&& 0 <= factor <= unit
            &&& 0 <= side * factor <= long * unit
            &&& 0 <= product
            &&& 2 * product < 2 * (max * unit) + unit
            &&& 2 * product < 2 * (side * unit) + unit
            &&& side == long ==> 2 * product >= 2 * (max * unit) - unit
        }),
{
    let unit = scale_unit(max, long);
    let x = max * unit;
    lemma_scale_unit(max, long);
    assert(unit <= x) by (nonlinear_arith)
        requires
            x == max * unit,
            max >= 1,
            unit >= 1,
    ;
    assert(unit >= 0x10_0000_0000_0000) by (nonlinear_arith)
        requires
            0x10_0000_0000_0000 * long <= max * unit,
            0 < max < long,
            unit >= 1,
    ;
    assert(x <= 0x1_0000_0000 * unit) by (nonlinear_arith)
        requires
            x == max * unit,
            max < 0x1_0000_0000,
            unit >= 1,
    ;
    let factor = half_even(x, long);
    lemma_half_even(x, long);
    assert(factor <= unit) by (nonlinear_arith)
        requires
            2 * (factor * long - x) <= long,
            x == max * unit,
            max + 1 <= long,
            2 * unit > long,
            long > 0,
    ;
    let exact = side * factor;
    assert(0 <= exact <= long * factor) by (nonlinear_arith)
        requires
            exact == side * factor,
            0 <= side <= long,
            factor >= 0,
    ;
    assert(long * factor == factor * long) by (nonlinear_arith);
    let y = side * unit;
    assert(exact <= y && y <= long * unit && y <= 0x1_0000_0000 * unit) by (nonlinear_arith)
        requires
            exact == side * factor,
            y == side * unit,
            0 <= factor <= unit,
            0 <= side <= long,
            long <= 0x1_0000_0000,
    ;
    lemma_rounded(exact);
    let product = scaled_product(side, long, max, unit);
    assert(0x20_0000_0000_0000 * (product - exact) <= exact);
    assert(2 * exact <= 2 * x + long);
    if side == long {
        assert(exact == factor * long);
    }
}

/// The bounds that a scaled side keeps.
proof fn lemma_scaled(side: u32, long: u32, max: u32)
    requires
        side <= long,
        0 < long,
        max < long,
    ensures
        1 <= scaled(side, long, max),
        max >= 1 ==> scaled(side, long, max) <= max,
        max == 0 ==> scaled(side, long, max) == 1,
        side == long && max >= 1 ==> scaled(side, long, max) == max,
        scaled(side, long, max) == 1 || scaled(side, long, max) <= side,
{
    let s = side as int;
    let l = long as int;
    let m = max as int;
    let unit = scale_unit(m, l);
    let product = scaled_product(s, l, m, unit);
    if max == 0 {
        assert(unit == 1);
        assert(m * unit == 0);
        assert(half_even(0, l) == 0) by {
            lemma_half_even(0, l);
            let h = half_even(0, l);
            assert(h == 0) by (nonlinear_arith)
                requires
                    h >= 0,
                    2 * (h * l - 0) <= l,
                    l > 0,
            ;
        }
        assert(s * 0 == 0);
        assert(product == 0);
    } else {
        lemma_product(s, l, m);
        let n = 2 * product + unit;
        let r = n / (2 * unit);
        assert(r <= m && r <= s) by (nonlinear_arith)
            requires
                r == n / (2 * unit),
                n == 2 * product + unit,
                2 * product < 2 * (m * unit) + unit,
                2 * product < 2 * (s * unit) + unit,
                unit >= 1,
                product >= 0,
        ;
        if side == long {
            assert(r >= m) by (nonlinear_arith)
                requires
                    r == n / (2 * unit),
                    n == 2 * product + unit,
                    2 * product >= 2 * (m * unit) - unit,
                    unit >= 1,
            ;
        }
    }
}

/// The long side of a downscaled image is the cap (or one, for a cap of zero),
/// and the other side is not longer.
pub proof fn law_downscaled_long_side_is_the_cap(width: u32, height: u32, max: u32)
    requires
        max < if width >= height { width } else { height },
    ensures
        ({
            let long = if width >= height { width } else { height };
            let cap = if max == 0 { 1int } else { max as int };
            &&& scaled(long, long, max) == cap
            &&& 1 <= scaled(width, long, max) <= cap
            &&& 1 <= scaled(height, long, max) <= cap
        }),
{
    let long = if width >= height { width } else { height };
    lemma_scaled(width, long, max);
    lemma_scaled(height, long, max);
    lemma_scaled(long, long, max);
}

proof fn lemma_within(x: int, y: int, u: int)
    requires
        u > 0,
        x * u <= y * u,
    ensures
        x <= y,
{
    assert(x <= y) by (nonlinear_arith)
        requires
            u > 0,
            x * u <= y * u,
    ;
}

/// The three ways in which a scaled side is off, added up.
proof fn lemma_error(side: int, long: int, max: int, u: int, f: int, p: int, r: int)
    requires
        0 <= side <= long,
        0 < long <= 0x1_0000_0000,
        0x10_0000_0000_0000 <= u,
        0 <= f <= u,
        -long <= 2 * (f * long - max * u) <= long,
        0x20_0000_0000_0000 * (p - side * f) <= side * f,
        0x20_0000_0000_0000 * (side * f - p) <= side * f,
        -u <= 2 * u * r - 2 * p <= u,
    ensures
        0x8_0000 * (2 * (r * long - side * max)) <= 0x8_0001 * long,
        0x8_0000 * (2 * (side * max - r * long)) <= 0x8_0001 * long,
{
    let a = long * (2 * u * r - 2 * p);
    let b = 2 * long * (p - side * f);
    let c = 2 * side * (f * long - max * u);
    let x = 2 * (r * long - side * max);
    let lu = long * u;
    let lur = long * (u * r);
    let lp = long * p;
    let lsf = long * (side * f);
    let smu = side * (max * u);
    assert(a == 2 * lur - 2 * lp) by (nonlinear_arith)
        requires
            a == long * (2 * u * r - 2 * p),
            lur == long * (u * r),
            lp == long * p,
    ;
    assert(b == 2 * lp - 2 * lsf) by (nonlinear_arith)
        requires
            b == 2 * long * (p - side * f),
            lp == long * p,
            lsf == long * (side * f),
    ;
    assert(side * (f * long) == lsf) by (nonlinear_arith)
        requires
            lsf == long * (side * f),
    ;
    let sfl = side * (f * long);
    assert(c == 2 * sfl - 2 * smu) by (nonlinear_arith)
        requires
            c == 2 * side * (f * long - max * u),
            sfl == side * (f * long),
            smu == side * (max * u),
    ;
    let rl = r * long;
    let sm = side * max;
    assert(rl * u == lur) by (nonlinear_arith)
        requires
            rl == r * long,
            lur == long * (u * r),
    ;
    assert(sm * u == smu) by (nonlinear_arith)
        requires
            sm == side * max,
            smu == side * (max * u),
    ;
    assert(x * u == 2 * (rl * u) - 2 * (sm * u)) by (nonlinear_arith)
        requires
            x == 2 * (rl - sm),
    ;
    assert(x * u == a + b + c);
    assert(-lu <= a <= lu) by (nonlinear_arith)
        requires
            a == long * (2 * u * r - 2 * p),
            lu == long * u,
            long > 0,
            -u <= 2 * u * r - 2 * p <= u,
    ;
    let e = side * f;
    let le = long * e;
    assert(-2 * le <= 0x20_0000_0000_0000 * b <= 2 * le) by (nonlinear_arith)
        requires
            b == 2 * long * (p - side * f),
            e == side * f,
            le == long * e,
            long > 0,
            0x20_0000_0000_0000 * (p - side * f) <= side * f,
            0x20_0000_0000_0000 * (side * f - p) <= side * f,
    ;
    let slu = side * lu;
    assert(0 <= le <= slu) by (nonlinear_arith)
        requires
            e == side * f,
            le == long * e,
            lu == long * u,
            slu == side * lu,
            0 <= f <= u,
            0 <= side,
            0 < long,
    ;
    let sl = side * long;
    assert(-sl <= c <= sl) by (nonlinear_arith)
        requires
            c == 2 * side * (f * long - max * u),
            sl == side * long,
            0 <= side,
            -long <= 2 * (f * long - max * u) <= long,
    ;
    assert(0x10_0000_0000_0000 * sl <= slu) by (nonlinear_arith)
        requires
            sl == side * long,
            lu == long * u,
            slu == side * lu,
            0 <= side,
            0 < long,
            0x10_0000_0000_0000 <= u,
    ;
    assert(slu <= 0x1_0000_0000 * lu) by (nonlinear_arith)
        requires
            slu == side * lu,
            lu == long * u,
            0 <= side <= 0x1_0000_0000,
            0 < long,
            0 < u,
    ;
    let xu = x * u;
    assert(0x8_0000 * xu <= 0x8_0001 * lu);
    assert(-0x8_0000 * xu <= 0x8_0001 * lu);
    assert((0x8_0000 * x) * u <= (0x8_0001 * long) * u) by (nonlinear_arith)
        requires
            xu == x * u,
            lu == long * u,
            0x8_0000 * xu <= 0x8_0001 * lu,
    ;
    assert((-0x8_0000 * x) * u <= (0x8_0001 * long) * u) by (nonlinear_arith)
        requires
            xu == x * u,
            lu == long * u,
            -0x8_0000 * xu <= 0x8_0001 * lu,
    ;
    lemma_within(0x8_0000 * x, 0x8_0001 * long, u);
    lemma_within(-0x8_0000 * x, 0x8_0001 * long, u);
}

/// A side is scaled in the ratio of the long sides: it is off by no more than half a pixel
/// and the inexactness of the arithmetic, unless it would vanish.
pub proof fn law_downscaled_sides_keep_the_ratio(side: u32, long: u32, max: u32)
    requires
        side <= long,
        0 < max < long,
    ensures
        ({
            let off = 2 * (scaled(side, long, max) * long - side * max);
            &&& scaled(side, long, max) > 1 ==> 0x8_0000 * off <= 0x8_0001 * long
            &&& -0x8_0000 * off <= 0x8_0001 * long
        }),
{
    let unit = scale_unit(max as int, long as int);
    let factor = half_even(max * unit, long as int);
    let product = scaled_product(side as int, long as int, max as int, unit);
    let rounded = (2 * product + unit) / (2 * unit);
    lemma_product(side as int, long as int, max as int);
    lemma_half_even(max * unit, long as int);
    lemma_rounded(side * factor);
    assert(-unit <= 2 * unit * rounded - 2 * product <= unit) by (nonlinear_arith)
        requires
            unit > 0,
            rounded == (2 * product + unit) / (2 * unit),
    ;
    lemma_error(
        side as int,
        long as int,
        max as int,
        unit,
        factor,
        product,
        rounded,
    );
    let s = scaled(side, long, max);
    assert(s == rounded || (s == 1 && rounded < 1));
    if s != rounded {
        assert(s * long >= rounded * long) by (nonlinear_arith)
            requires
                s >= rounded,
                long > 0,
        ;
    }
}

fn round_half_even(n: u128, d: u128) -> (r: u128)
    requires
        d > 0,
        n < 0x8000_0000_0000_0000_0000_0000_0000_0000,
        d < 0x4000_0000_0000_0000_0000_0000_0000_0000,
    ensures
        r == half_even(n as int, d as int),
{
    let q = n / d;
    let r = n % d;
    assert(q <= n) by (nonlinear_arith)
        requires
            q == n / d,
            d > 0,
    ;
    if 2 * r > d || (2 * r == d && q % 2 == 1) {
        q + 1
    } else {
        q
    }
}

fn find_scale_unit(max: u32, long: u32) -> (unit: u128)
    requires
        0 < max < long,
    ensures
        unit == scale_unit(max as int, long as int),
{
    let top: u128 = 0x10_0000_0000_0000 * (long as u128);
    let mut n: u128 = max as u128;
    let mut unit: u128 = 1;
    proof {
        lemma_scale_unit(max as int, long as int);
    }
    while n < top
        invariant
            0 < max < long,
            top == 0x10_0000_0000_0000 * long,
            0 < n < 2 * top,
            1 <= unit <= n,
            unit * scale_unit(n as int, long as int) == scale_unit(max as int, long as int),
        decreases 2 * top - n,
    {
        let ghost next = scale_unit(2 * n, long as int);
        assert(unit * (2 * next) == (2 * unit) * next) by (nonlinear_arith);
        n = 2 * n;
        unit = 2 * unit;
    }
    unit
}

fn find_excess_unit(p: u128) -> (unit: u128)
    ensures
        unit == excess_unit(p as int),
{
    let mut q: u128 = p;
    let mut unit: u128 = 1;
    while q >= 0x20_0000_0000_0000
        invariant
            1 <= unit,
            unit * q <= p,
            unit * excess_unit(q as int) == excess_unit(p as int),
        decreases q,
    {
        let ghost half = (q / 2) as int;
        let ghost next = excess_unit(half);
        assert(unit * (2 * next) == (2 * unit) * next) by (nonlinear_arith);
        assert((2 * unit) * half <= unit * q) by (nonlinear_arith)
            requires
                2 * half <= q,
                unit >= 1,
        ;
        assert(2 * unit <= unit * q) by (nonlinear_arith)
            requires
                q >= 2,
                unit >= 1,
        ;
        q = q / 2;
        unit = 2 * unit;
    }
    unit
}

/// Scales a side.
pub fn scale_side(side: u32, long: u32, max: u32) -> (r: u32)
    requires
        side <= long,
        0 < long,
        max < long,
    ensures
        r == scaled(side, long, max),
        r == 1 || (1 <= r && r <= side),
{
    proof {
        lemma_scaled(side, long, max);
    }
    if max == 0 {
        return 1;
    }
    let unit = find_scale_unit(max, long);
    let ghost exact = side * half_even(max * unit, long as int);
    proof {
        let l = long as int;
        let u = unit as int;
        lemma_product(side as int, l, max as int);
        assert(l * u <= 0x1_0000_0000 * u) by (nonlinear_arith)
            requires
                0 <= l <= 0x1_0000_0000,
                u >= 0,
        ;
        lemma_excess_unit(exact);
        lemma_rounded(exact);
    }
    let factor = round_half_even(max as u128 * unit, long as u128);
    let p: u128 = side as u128 * factor;
    let v = find_excess_unit(p);
    let product: u128 = round_half_even(p, v) * v;
    let rounded: u128 = (2 * product + unit) / (2 * unit);
    if rounded < 1 {
        1
    } else {
        rounded as u32
    }
}

} // verus!
