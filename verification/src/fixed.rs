//! Fixed-point turtle math. No floating-point trig anywhere: movement uses an integer sine table
//! in Q12 (×4096) with quadrant symmetry, so the exact pixels drawn are identical on every
//! target. Positions are stored in Q8 fixed point (×256) so repeated sub-pixel moves accumulate;
//! only integer pixels are ever emitted.

use vstd::prelude::*;

use crate::number::{round_half_away, Getal};

verus! {

pub const FRAC_BITS: i64 = 8;

/// 1.0 logical pixel in Q8.
pub const ONE: i64 = 256;

/// Turtle positions stay within this many Q8 units of the origin (2^53 ≈ 3.5·10^13 px).
pub const POS_LIMIT: i64 = 0x20_0000_0000_0000;

/// sin(d°)·4096 rounded, for d in 0..=90.
pub open spec fn sin_table(d: int) -> int {
    if d == 0 { 0 }
    else if d == 1 { 71 }
    else if d == 2 { 143 }
    else if d == 3 { 214 }
    else if d == 4 { 286 }
    else if d == 5 { 357 }
    else if d == 6 { 428 }
    else if d == 7 { 499 }
    else if d == 8 { 570 }
    else if d == 9 { 641 }
    else if d == 10 { 711 }
    else if d == 11 { 782 }
    else if d == 12 { 852 }
    else if d == 13 { 921 }
    else if d == 14 { 991 }
    else if d == 15 { 1060 }
    else if d == 16 { 1129 }
    else if d == 17 { 1198 }
    else if d == 18 { 1266 }
    else if d == 19 { 1334 }
    else if d == 20 { 1401 }
    else if d == 21 { 1468 }
    else if d == 22 { 1534 }
    else if d == 23 { 1600 }
    else if d == 24 { 1666 }
    else if d == 25 { 1731 }
    else if d == 26 { 1796 }
    else if d == 27 { 1860 }
    else if d == 28 { 1923 }
    else if d == 29 { 1986 }
    else if d == 30 { 2048 }
    else if d == 31 { 2110 }
    else if d == 32 { 2171 }
    else if d == 33 { 2231 }
    else if d == 34 { 2290 }
    else if d == 35 { 2349 }
    else if d == 36 { 2408 }
    else if d == 37 { 2465 }
    else if d == 38 { 2522 }
    else if d == 39 { 2578 }
    else if d == 40 { 2633 }
    else if d == 41 { 2687 }
    else if d == 42 { 2741 }
    else if d == 43 { 2793 }
    else if d == 44 { 2845 }
    else if d == 45 { 2896 }
    else if d == 46 { 2946 }
    else if d == 47 { 2996 }
    else if d == 48 { 3044 }
    else if d == 49 { 3091 }
    else if d == 50 { 3138 }
    else if d == 51 { 3183 }
    else if d == 52 { 3228 }
    else if d == 53 { 3271 }
    else if d == 54 { 3314 }
    else if d == 55 { 3355 }
    else if d == 56 { 3396 }
    else if d == 57 { 3435 }
    else if d == 58 { 3474 }
    else if d == 59 { 3511 }
    else if d == 60 { 3547 }
    else if d == 61 { 3582 }
    else if d == 62 { 3617 }
    else if d == 63 { 3650 }
    else if d == 64 { 3681 }
    else if d == 65 { 3712 }
    else if d == 66 { 3742 }
    else if d == 67 { 3770 }
    else if d == 68 { 3798 }
    else if d == 69 { 3824 }
    else if d == 70 { 3849 }
    else if d == 71 { 3873 }
    else if d == 72 { 3896 }
    else if d == 73 { 3917 }
    else if d == 74 { 3937 }
    else if d == 75 { 3956 }
    else if d == 76 { 3974 }
    else if d == 77 { 3991 }
    else if d == 78 { 4006 }
    else if d == 79 { 4021 }
    else if d == 80 { 4034 }
    else if d == 81 { 4046 }
    else if d == 82 { 4056 }
    else if d == 83 { 4065 }
    else if d == 84 { 4074 }
    else if d == 85 { 4080 }
    else if d == 86 { 4086 }
    else if d == 87 { 4090 }
    else if d == 88 { 4094 }
    else if d == 89 { 4095 }
    else { 4096 }
}

/// sin(deg) in Q12 for any integer degree, by quadrant symmetry from the table.
pub open spec fn sin_q12_spec(deg: int) -> int {
    let d = deg % 360;
    if d <= 90 {
        sin_table(d)
    } else if d <= 180 {
        sin_table(180 - d)
    } else if d <= 270 {
        -sin_table(d - 180)
    } else {
        -sin_table(360 - d)
    }
}

pub open spec fn cos_q12_spec(deg: int) -> int {
    sin_q12_spec(deg + 90)
}

fn sin_table_at(d: usize) -> (r: i64)
    requires
        d <= 90,
    ensures
        r == sin_table(d as int),
{
    match d {
        0 => 0,
        1 => 71,
        2 => 143,
        3 => 214,
        4 => 286,
        5 => 357,
        6 => 428,
        7 => 499,
        8 => 570,
        9 => 641,
        10 => 711,
        11 => 782,
        12 => 852,
        13 => 921,
        14 => 991,
        15 => 1060,
        16 => 1129,
        17 => 1198,
        18 => 1266,
        19 => 1334,
        20 => 1401,
        21 => 1468,
        22 => 1534,
        23 => 1600,
        24 => 1666,
        25 => 1731,
        26 => 1796,
        27 => 1860,
        28 => 1923,
        29 => 1986,
        30 => 2048,
        31 => 2110,
        32 => 2171,
        33 => 2231,
        34 => 2290,
        35 => 2349,
        36 => 2408,
        37 => 2465,
        38 => 2522,
        39 => 2578,
        40 => 2633,
        41 => 2687,
        42 => 2741,
        43 => 2793,
        44 => 2845,
        45 => 2896,
        46 => 2946,
        47 => 2996,
        48 => 3044,
        49 => 3091,
        50 => 3138,
        51 => 3183,
        52 => 3228,
        53 => 3271,
        54 => 3314,
        55 => 3355,
        56 => 3396,
        57 => 3435,
        58 => 3474,
        59 => 3511,
        60 => 3547,
        61 => 3582,
        62 => 3617,
        63 => 3650,
        64 => 3681,
        65 => 3712,
        66 => 3742,
        67 => 3770,
        68 => 3798,
        69 => 3824,
        70 => 3849,
        71 => 3873,
        72 => 3896,
        73 => 3917,
        74 => 3937,
        75 => 3956,
        76 => 3974,
        77 => 3991,
        78 => 4006,
        79 => 4021,
        80 => 4034,
        81 => 4046,
        82 => 4056,
        83 => 4065,
        84 => 4074,
        85 => 4080,
        86 => 4086,
        87 => 4090,
        88 => 4094,
        89 => 4095,
        _ => 4096,
    }
}

/// `d mod 360` in `0..360` for any `d` (Euclidean remainder).
pub fn norm_deg(d: i64) -> (r: i64)
    ensures
        r == d % 360,
        0 <= r < 360,
{
    let m = d % 360;
    if m < 0 { m + 360 } else { m }
}

/// sin(deg) in Q12 (×4096), exact integer, for any integer degree.
pub fn sin_q12(deg: i64) -> (r: i64)
    ensures
        r == sin_q12_spec(deg as int),
        -4096 <= r <= 4096,
{
    let d = norm_deg(deg);
    proof {
        lemma_table_bounds();
    }
    if d <= 90 {
        sin_table_at(d as usize)
    } else if d <= 180 {
        sin_table_at((180 - d) as usize)
    } else if d <= 270 {
        -sin_table_at((d - 180) as usize)
    } else {
        -sin_table_at((360 - d) as usize)
    }
}

/// cos(deg) in Q12, as sin(deg + 90).
pub fn cos_q12(deg: i64) -> (r: i64)
    ensures
        r == cos_q12_spec(deg as int),
        -4096 <= r <= 4096,
{
    let d = norm_deg(deg);
    let r = sin_q12(d + 90);
    proof {
        lemma_sin_periodic(deg as int + 90, (d + 90) as int);
    }
    r
}

proof fn lemma_table_bounds()
    ensures
        forall|i: int| 0 <= i <= 90 ==> 0 <= #[trigger] sin_table(i) <= 4096,
{
}

proof fn lemma_sin_periodic(a: int, b: int)
    requires
        a % 360 == b % 360,
    ensures
        sin_q12_spec(a) == sin_q12_spec(b),
{
}

/// A turtle position in Q8 fixed point.
#[derive(Debug, Clone, Copy)]
pub struct FixedPos {
    pub x: i64,
    pub y: i64,
}

/// Round a Q8 coordinate to the nearest pixel, halves away from zero.
pub open spec fn round_to_px_spec(q8: int) -> int {
    round_half_away(q8, 256)
}

pub open spec fn within_limit(v: int) -> bool {
    -POS_LIMIT <= v <= POS_LIMIT
}

/// `v` pixels in Q8, as the 64-bit shift by eight bits gives it: the low 64 bits of `v * 256`
/// read as a signed number.
pub open spec fn q8_of(v: int) -> int {
    let m = (v * 256) % 0x1_0000_0000_0000_0000;
    if m > i64::MAX { m - 0x1_0000_0000_0000_0000 } else { m }
}

/// Q8 coordinates that can be rounded to a pixel without overflow.
pub open spec fn px_in_range(v: int) -> bool {
    i64::MIN + 129 <= v <= i64::MAX - 128
}

impl FixedPos {
    pub fn from_px(x: i64, y: i64) -> (r: FixedPos)
        ensures
            r.x == q8_of(x as int),
            r.y == q8_of(y as int),
            -0x80_0000_0000_0000 <= x < 0x80_0000_0000_0000 ==> r.x == x * 256,
            -0x80_0000_0000_0000 <= y < 0x80_0000_0000_0000 ==> r.y == y * 256,
    {
        FixedPos { x: x.wrapping_mul(256), y: y.wrapping_mul(256) }
    }

    pub fn px_x(&self) -> (r: i64)
        requires
            px_in_range(self.x as int),
        ensures
            r == round_to_px_spec(self.x as int),
    {
        round_to_px(self.x)
    }

    pub fn px_y(&self) -> (r: i64)
        requires
            px_in_range(self.y as int),
        ensures
            r == round_to_px_spec(self.y as int),
    {
        round_to_px(self.y)
    }
}

fn round_to_px(q8: i64) -> (r: i64)
    requires
        px_in_range(q8 as int),
    ensures
        r == round_to_px_spec(q8 as int),
        within_limit(q8 as int) ==> -0x2000_0000_0000 <= r <= 0x2000_0000_0000,
{
    // round half away from zero
    if q8 >= 0 {
        proof {
            lemma_halves(q8 as int);
        }
        (q8 + 128) / 256
    } else {
        let m = -q8;
        proof {
            lemma_halves(m as int);
        }
        -((m + 128) / 256)
    }
}

proof fn lemma_halves(n: int)
    requires
        n >= 0,
    ensures
        (2 * n + 256) / 512 == (n + 128) / 256,
{
    let a = n + 128;
    let q = a / 256;
    let r = a % 256;
    assert(a == 256 * q + r && 0 <= r < 256);
    assert(2 * a == 512 * q + 2 * r);
    assert((2 * a) / 512 == q) by (nonlinear_arith)
        requires
            2 * a == 512 * q + 2 * r,
            0 <= 2 * r < 512,
    ;
}

/// The position reached by going `dist` logical pixels along `heading` degrees, or `None`
/// when it would leave the position range. dx = dist·cos(h), dy = dist·sin(h) (y grows
/// downward), with the distance first rounded to 1/256 px.
pub open spec fn advance_spec(pos: FixedPos, heading: int, dist_q8: int) -> Option<(int, int)> {
    let dx = (dist_q8 * cos_q12_spec(heading)) as i128 >> 12i128;
    let dy = (dist_q8 * sin_q12_spec(heading)) as i128 >> 12i128;
    let nx = pos.x + dx;
    let ny = pos.y + dy;
    if within_limit(nx) && within_limit(ny) { Some((nx, ny)) } else { None }
}

pub open spec fn dist_q8_of(dist: Getal) -> int {
    round_half_away(dist@.0 * 256, dist@.1)
}

/// Advance `pos` by `dist` logical pixels along `heading` degrees.
pub fn advance(pos: FixedPos, heading: i64, dist: &Getal) -> (r: Option<FixedPos>)
    requires
        within_limit(pos.x as int),
        within_limit(pos.y as int),
    ensures
        match advance_spec(pos, heading as int, dist_q8_of(*dist)) {
            Some((nx, ny)) => r matches Some(p) && p.x == nx && p.y == ny,
            None => r is None,
        },
{
    let dist_q8 = dist.round_scaled(256);
    let c = cos_q12(heading) as i128;
    let s = sin_q12(heading) as i128;
    assert(-0x1_0000_0000_0000_0000_0000 * 4096 <= dist_q8 * c <= 0x1_0000_0000_0000_0000_0000 * 4096) by (nonlinear_arith)
        requires
            -0x1_0000_0000_0000_0000_0000 <= dist_q8 <= 0x1_0000_0000_0000_0000_0000,
            -4096 <= c <= 4096,
    ;
    assert(-0x1_0000_0000_0000_0000_0000 * 4096 <= dist_q8 * s <= 0x1_0000_0000_0000_0000_0000 * 4096) by (nonlinear_arith)
        requires
            -0x1_0000_0000_0000_0000_0000 <= dist_q8 <= 0x1_0000_0000_0000_0000_0000,
            -4096 <= s <= 4096,
    ;
    let vx = dist_q8 * c;
    let vy = dist_q8 * s;
    let dx = vx >> 12i128;
    let dy = vy >> 12i128;
    assert(-0x1_0000_0000_0000_0000_0000 <= dx <= 0x1_0000_0000_0000_0000_0000) by (bit_vector)
        requires
            -0x1000_0000_0000_0000_0000_0000 <= vx <= 0x1000_0000_0000_0000_0000_0000,
            dx == vx >> 12i128,
    ;
    assert(-0x1_0000_0000_0000_0000_0000 <= dy <= 0x1_0000_0000_0000_0000_0000) by (bit_vector)
        requires
            -0x1000_0000_0000_0000_0000_0000 <= vy <= 0x1000_0000_0000_0000_0000_0000,
            dy == vy >> 12i128,
    ;
    let nx = pos.x as i128 + dx;
    let ny = pos.y as i128 + dy;
    if nx < -(POS_LIMIT as i128) || nx > POS_LIMIT as i128 || ny < -(POS_LIMIT as i128) || ny > POS_LIMIT as i128 {
        None
    } else {
        Some(FixedPos { x: nx as i64, y: ny as i64 })
    }
}

/// Wrap a pixel coordinate into `[0, dim)` (torus topology).
pub fn wrap(p: i64, dim: i64) -> (r: i64)
    ensures
        dim <= 0 ==> r == 0,
        dim > 0 ==> r == p % dim && 0 <= r < dim,
{
    if dim <= 0 {
        return 0;
    }
    let m = p % dim;
    proof {
        if p < 0 {
            lemma_truncated_mod(p as int, dim as int);
        }
    }
    if m < 0 { m + dim } else { m }
}

/// Rust's remainder truncates toward zero; the Euclidean remainder differs by `dim` when
/// the truncated one is negative.
proof fn lemma_truncated_mod(p: int, dim: int)
    requires
        dim > 0,
        p < 0,
    ensures
        (-p) % dim == 0 ==> p % dim == 0,
        (-p) % dim != 0 ==> p % dim == dim - (-p) % dim,
{
    let q = (-p) / dim;
    let r = (-p) % dim;
    vstd::arithmetic::div_mod::lemma_fundamental_div_mod(-p, dim);
    vstd::arithmetic::div_mod::lemma_mod_pos_bound(-p, dim);
    if r == 0 {
        assert(p == (-q) * dim + 0) by (nonlinear_arith)
            requires
                -p == dim * q + r,
                r == 0,
        ;
        vstd::arithmetic::div_mod::lemma_fundamental_div_mod_converse_mod(p, dim, -q, 0);
    } else {
        assert(p == (-q - 1) * dim + (dim - r)) by (nonlinear_arith)
            requires
                -p == dim * q + r,
        ;
        vstd::arithmetic::div_mod::lemma_fundamental_div_mod_converse_mod(p, dim, -q - 1, dim - r);
    }
}

/// Clamp a pixel coordinate into `[0, dim-1]` (the `klem` policy).
pub fn clamp(p: i64, dim: i64) -> (r: i64)
    ensures
        dim <= 0 ==> r == 0,
        dim > 0 ==> r == (if p < 0 { 0 } else if p > dim - 1 { dim - 1 } else { p as int }),
{
    if dim <= 0 {
        return 0;
    }
    let lo = if p < 0 { 0 } else { p };
    if lo > dim - 1 { dim - 1 } else { lo }
}

// ---- laws -----------------------------------------------------------------------------------

/// Wrapping lands inside the buffer, leaves in-range coordinates alone, and is periodic.
pub proof fn law_wrap(p: int, dim: int)
    requires
        dim > 0,
    ensures
        0 <= p % dim < dim,
        0 <= p < dim ==> p % dim == p,
        (p + dim) % dim == p % dim,
        (p % dim) % dim == p % dim,
{
    vstd::arithmetic::div_mod::lemma_mod_add_multiples_vanish(p, dim);
    vstd::arithmetic::div_mod::lemma_mod_twice(p, dim);
    vstd::arithmetic::div_mod::lemma_small_mod(if 0 <= p < dim { p as nat } else { 0 }, dim as nat);
}

/// The sine table's symmetries: period 360, sin(180 − d) = sin(d), sin(d + 180) = −sin(d),
/// and the cardinal headings are exact.
pub proof fn law_sin_symmetry(d: int)
    ensures
        sin_q12_spec(d + 360) == sin_q12_spec(d),
        sin_q12_spec(180 - d) == sin_q12_spec(d),
        sin_q12_spec(d + 180) == -sin_q12_spec(d),
        sin_q12_spec(0) == 0,
        sin_q12_spec(90) == 4096,
        sin_q12_spec(180) == 0,
        sin_q12_spec(270) == -4096,
        cos_q12_spec(0) == 4096,
{
    lemma_table_bounds();
    let m = d % 360;
    let k = d / 360;
    vstd::arithmetic::div_mod::lemma_fundamental_div_mod(d, 360);
    vstd::arithmetic::div_mod::lemma_mod_multiples_vanish(1, d, 360);
    vstd::arithmetic::div_mod::lemma_mod_multiples_vanish(-k, 180 - m, 360);
    vstd::arithmetic::div_mod::lemma_mod_multiples_vanish(k, m + 180, 360);
    assert(360 * (-k) + (180 - m) == 180 - d) by (nonlinear_arith)
        requires
            d == 360 * k + m,
    ;
    assert(360 * k + (m + 180) == d + 180) by (nonlinear_arith)
        requires
            d == 360 * k + m,
    ;
    vstd::arithmetic::div_mod::lemma_mod_multiples_vanish(1, 180 - m, 360);
    vstd::arithmetic::div_mod::lemma_mod_multiples_vanish(-1, m + 180, 360);
    if 0 <= 180 - m {
        vstd::arithmetic::div_mod::lemma_small_mod((180 - m) as nat, 360);
    } else {
        vstd::arithmetic::div_mod::lemma_small_mod((540 - m) as nat, 360);
    }
    if m + 180 < 360 {
        vstd::arithmetic::div_mod::lemma_small_mod((m + 180) as nat, 360);
    } else {
        vstd::arithmetic::div_mod::lemma_small_mod((m - 180) as nat, 360);
    }
    vstd::arithmetic::div_mod::lemma_small_mod(0, 360);
    vstd::arithmetic::div_mod::lemma_small_mod(90, 360);
    vstd::arithmetic::div_mod::lemma_small_mod(180, 360);
    vstd::arithmetic::div_mod::lemma_small_mod(270, 360);
}

} // verus!
