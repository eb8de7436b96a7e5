//! Unit vectors in fixed point.
//!
//! A vector of whole coordinates cannot have length one unless it lies along
//! an axis, so a direction is stored in binary fixed point, with 52 bits
//! behind the point, as many as a double-precision fraction has: a unit
//! vector has length [`UNIT`]. A multiplier counts the same fraction, so
//! that a vector can be scaled by a number that is not whole.

use vstd::prelude::*;
use vstd::arithmetic::div_mod::{lemma_fundamental_div_mod, lemma_mod_pos_bound};
use vstd::arithmetic::power2::{pow2, lemma_pow2_unfold, lemma_pow2_strictly_increases, lemma2_to64, lemma2_to64_rest};
use crate::camera::{Camera_, GeometryError, frame_dir, frame_right, frame_down};
use crate::vector::{Triple, Vect_, floor_sqrt, triple_dot, triple_cross, triple_zero, pack, pack_scalar};
use crate::vector::{lemma_cross_is_orthogonal, lemma_cross_length};
use crate::vector::lemma_square_length_positive;

verus! {

/// The coordinate that stands for one.
pub const UNIT: i64 = 0x10_0000_0000_0000;

/// The largest coordinate, in absolute value, that [`Vect_::normalize`]
/// works on: a longer vector is first halved until it is within this limit.
pub const NORMALIZE_LIMIT: i64 = 0xffff_ffff;

/// The absolute value of `n`.
pub open spec fn modulus(n: int) -> int {
    if n < 0 {
        -n
    } else {
        n
    }
}

/// Whether every coordinate of `v` is within [`NORMALIZE_LIMIT`] of zero.
pub open spec fn within_limit(v: Triple) -> bool {
    &&& modulus(v.x) <= NORMALIZE_LIMIT
    &&& modulus(v.y) <= NORMALIZE_LIMIT
    &&& modulus(v.z) <= NORMALIZE_LIMIT
}

/// Half of `c`, rounded toward zero.
pub open spec fn halved_coordinate(c: int) -> int {
    if c >= 0 {
        c / 2
    } else {
        -((-c) / 2)
    }
}

/// Half of `v`, each coordinate rounded toward zero.
pub open spec fn halved(v: Triple) -> Triple {
    Triple {
        x: halved_coordinate(v.x),
        y: halved_coordinate(v.y),
        z: halved_coordinate(v.z),
    }
}

/// `v` halved as often as it takes to bring every coordinate within
/// [`NORMALIZE_LIMIT`]: `v` itself where it is within the limit already.
pub open spec fn reduced(v: Triple) -> Triple
    decreases modulus(v.x) + modulus(v.y) + modulus(v.z),
{
    if within_limit(v) {
        v
    } else {
        reduced(halved(v))
    }
}

/// `n / p`, rounded toward zero.
pub open spec fn toward_zero(n: int, p: int) -> int {
    if n >= 0 {
        n / p
    } else {
        -((-n) / p)
    }
}

/// `v` times `k / UNIT`, each coordinate rounded toward zero.
pub open spec fn triple_scaled_fixed(v: Triple, k: int) -> Triple {
    Triple {
        x: toward_zero(v.x * k, UNIT as int),
        y: toward_zero(v.y * k, UNIT as int),
        z: toward_zero(v.z * k, UNIT as int),
    }
}

/// Whether `q` is `c * UNIT / sqrt(d)`, rounded toward zero. The square root
/// is never taken: `|q|` is the largest whole number whose square, times `d`,
/// is at most the square of `c * UNIT`.
pub open spec fn is_scaled_coordinate(c: int, d: int, q: int) -> bool {
    &&& c >= 0 ==> q >= 0
    &&& c <= 0 ==> q <= 0
    &&& (q * q) * d <= (c * c) * (UNIT * UNIT)
    &&& (c * c) * (UNIT * UNIT) < ((modulus(q) + 1) * (modulus(q) + 1)) * d
}

/// Whether `r` is `v` scaled to length [`UNIT`], each coordinate rounded
/// toward zero.
pub open spec fn is_unit_direction(v: Triple, r: Triple) -> bool {
    &&& is_scaled_coordinate(v.x, triple_dot(v, v), r.x)
    &&& is_scaled_coordinate(v.y, triple_dot(v, v), r.y)
    &&& is_scaled_coordinate(v.z, triple_dot(v, v), r.z)
}

/// One coordinate of a unit vector: `c * UNIT / sqrt(d)`, rounded toward zero.
fn scaled_coordinate(c: i64, d: u128) -> (q: i64)
    requires
        modulus(c as int) <= NORMALIZE_LIMIT,
        0 < d <= 3 * (0xffff_ffff * 0xffff_ffff),
        c * c <= d,
    ensures
        is_scaled_coordinate(c as int, d as int, q as int),
{
    let a: u128 = if c < 0 {
        (-c) as u128
    } else {
        c as u128
    };
    assert(a * a == c * c && a * a <= 0xffff_ffff * 0xffff_ffff) by (nonlinear_arith)
        requires
            a == modulus(c as int),
            0 <= a <= 0xffff_ffff,
    ;
    let aa: u128 = a * a;
    let h: u128 = 0x10_0000_0000_0000;
    assert(aa * h <= (0xffff_ffff * 0xffff_ffff) * 0x10_0000_0000_0000) by (nonlinear_arith)
        requires
            0 <= aa <= 0xffff_ffff * 0xffff_ffff,
            h == 0x10_0000_0000_0000,
    ;
    // the quotient of `aa * h * h` by `d`, in two steps of 52 bits each
    let x1: u128 = aa * h;
    let t1: u128 = x1 / d;
    let r1: u128 = x1 % d;
    proof {
        lemma_fundamental_div_mod(x1 as int, d as int);
        lemma_mod_pos_bound(x1 as int, d as int);
        assert(r1 * h <= (3 * (0xffff_ffff * 0xffff_ffff)) * 0x10_0000_0000_0000)
            by (nonlinear_arith)
            requires
                0 <= r1 <= 3 * (0xffff_ffff * 0xffff_ffff),
                h == 0x10_0000_0000_0000,
        ;
        assert(t1 <= h) by (nonlinear_arith)
            requires
                x1 == d * t1 + r1,
                r1 >= 0,
                x1 == aa * h,
                aa <= d,
                d > 0,
                h > 0,
                t1 >= 0,
        ;
        assert(t1 * h <= 0x10_0000_0000_0000 * 0x10_0000_0000_0000) by (nonlinear_arith)
            requires
                0 <= t1 <= h,
                h == 0x10_0000_0000_0000,
        ;
    }
    let x2: u128 = r1 * h;
    let t2: u128 = x2 / d;
    proof {
        lemma_fundamental_div_mod(x2 as int, d as int);
        lemma_mod_pos_bound(x2 as int, d as int);
        assert(t2 <= h) by (nonlinear_arith)
            requires
                x2 == d * t2 + (x2 % d),
                (x2 % d) >= 0,
                x2 == r1 * h,
                r1 < d,
                d > 0,
                h > 0,
                t2 >= 0,
        ;
    }
    let t: u128 = t1 * h + t2;
    let m: u64 = floor_sqrt(t);
    proof {
        assert(UNIT * UNIT == 0x100_0000_0000_0000_0000_0000_0000) by (nonlinear_arith)
            requires
                UNIT == 0x10_0000_0000_0000,
        ;
        assert(h * h == 0x100_0000_0000_0000_0000_0000_0000) by (nonlinear_arith)
            requires
                h == 0x10_0000_0000_0000,
        ;
        let x: int = (c * c) * (UNIT * UNIT);
        let r2: int = (x2 % d) as int;
        assert(x == t * d + r2) by (nonlinear_arith)
            requires
                x == aa * (h * h),
                x1 == aa * h,
                x1 == d * t1 + r1,
                x2 == r1 * h,
                x2 == d * t2 + r2,
                t == t1 * h + t2,
        ;
        assert(t * d <= x < (t + 1) * d) by (nonlinear_arith)
            requires
                x == t * d + r2,
                0 <= r2 < d,
        ;
        let mm = m * m;
        let nn = (m + 1) * (m + 1);
        assert(mm * d <= t * d) by (nonlinear_arith)
            requires
                mm <= t,
                d > 0,
        ;
        assert(nn * d >= (t + 1) * d) by (nonlinear_arith)
            requires
                nn >= t + 1,
                d > 0,
        ;
        assert(mm <= 0x100_0000_0000_0000_0000_0000_0000) by (nonlinear_arith)
            requires
                mm * d <= aa * 0x100_0000_0000_0000_0000_0000_0000,
                aa <= d,
                d > 0,
        ;
        assert(m <= 0x10_0000_0000_0000) by (nonlinear_arith)
            requires
                m * m <= 0x100_0000_0000_0000_0000_0000_0000,
                m >= 0,
        ;
    }
    let q: i64 = m as i64;
    let signed: i64 = if c < 0 {
        -q
    } else {
        q
    };
    proof {
        assert(signed * signed == m * m) by (nonlinear_arith)
            requires
                signed == m || signed == -m,
        ;
        if c == 0 {
            assert(m == 0) by (nonlinear_arith)
                requires
                    m * m <= t,
                    t * d <= (c * c) * (UNIT * UNIT),
                    c == 0,
                    d > 0,
                    t >= 0,
                    m >= 0,
            ;
        }
    }
    signed
}

/// The coordinate `m` or `-m`, as `negative` says.
pub open spec fn signed(negative: bool, m: int) -> int {
    if negative {
        -m
    } else {
        m
    }
}

/// A vector that is not zero stays so when it is reduced, and is then
/// within [`NORMALIZE_LIMIT`].
pub proof fn lemma_reduced_is_nonzero(v: Triple)
    ensures
        within_limit(reduced(v)),
        v != triple_zero() ==> reduced(v) != triple_zero(),
    decreases modulus(v.x) + modulus(v.y) + modulus(v.z),
{
    if !within_limit(v) {
        lemma_reduced_is_nonzero(halved(v));
    }
}

/// The power of two that [`reduced`] divides a vector by: one where the
/// vector is within [`NORMALIZE_LIMIT`] as it is.
pub open spec fn reduction_factor(v: Triple) -> int
    decreases modulus(v.x) + modulus(v.y) + modulus(v.z),
{
    if within_limit(v) {
        1
    } else {
        2 * reduction_factor(halved(v))
    }
}

/// Whether `r` times `p` is `c` but for what rounding toward zero drops:
/// less than `p`, and never the sign.
pub open spec fn is_close_coordinate(c: int, p: int, r: int) -> bool {
    &&& modulus(c - p * r) < p
    &&& c >= 0 ==> r >= 0
    &&& c <= 0 ==> r <= 0
}

/// How far a reduced vector is from the vector it came from: times the
/// factor, each coordinate is off by less than the factor; and where the
/// vector was halved at all, its largest coordinate is still more than half
/// of [`NORMALIZE_LIMIT`], so what is dropped is less than one part in `2^31`
/// of it.
pub proof fn lemma_reduced_is_close(v: Triple)
    ensures
        reduction_factor(v) >= 1,
        is_close_coordinate(v.x, reduction_factor(v), reduced(v).x),
        is_close_coordinate(v.y, reduction_factor(v), reduced(v).y),
        is_close_coordinate(v.z, reduction_factor(v), reduced(v).z),
        reduction_factor(v) == 1 <==> within_limit(v),
        reduction_factor(v) > 1 ==> 2 * modulus(reduced(v).x) > NORMALIZE_LIMIT || 2 * modulus(
            reduced(v).y,
        ) > NORMALIZE_LIMIT || 2 * modulus(reduced(v).z) > NORMALIZE_LIMIT,
    decreases modulus(v.x) + modulus(v.y) + modulus(v.z),
{
    if !within_limit(v) {
        let h = halved(v);
        lemma_reduced_is_close(h);
        let q = reduction_factor(h);
        let r = reduced(h);
        assert((2 * q) * r.x == 2 * (q * r.x) && (2 * q) * r.y == 2 * (q * r.y) && (2 * q) * r.z
            == 2 * (q * r.z)) by (nonlinear_arith);
    }
}

/// The absolute value of a wide coordinate.
fn magnitude_of(c: i128) -> (a: u128)
    ensures
        a == modulus(c as int),
{
    if c < 0 {
        let below: i128 = -(c + 1);
        (below as u128) + 1
    } else {
        c as u128
    }
}

/// The coordinate of absolute value `a`, negative if `c` is.
fn with_sign_of(c: i128, a: u128) -> (r: i64)
    requires
        a <= NORMALIZE_LIMIT,
    ensures
        r == signed(c < 0, a as int),
{
    let m: i64 = a as i64;
    if c < 0 {
        -m
    } else {
        m
    }
}

/// Halves the vector `(x, y, z)` until every coordinate is within
/// [`NORMALIZE_LIMIT`].
fn reduce(x: i128, y: i128, z: i128) -> (r: Vect_)
    ensures
        r@ == reduced(Triple { x: x as int, y: y as int, z: z as int }),
        within_limit(r@),
{
    let mut ax: u128 = magnitude_of(x);
    let mut ay: u128 = magnitude_of(y);
    let mut az: u128 = magnitude_of(z);
    let limit: u128 = 0xffff_ffff;
    while ax > limit || ay > limit || az > limit
        invariant
            limit == NORMALIZE_LIMIT,
            ax <= 0x8000_0000_0000_0000_0000_0000_0000_0000,
            ay <= 0x8000_0000_0000_0000_0000_0000_0000_0000,
            az <= 0x8000_0000_0000_0000_0000_0000_0000_0000,
            reduced(Triple { x: x as int, y: y as int, z: z as int }) == reduced(
                Triple {
                    x: signed(x < 0, ax as int),
                    y: signed(y < 0, ay as int),
                    z: signed(z < 0, az as int),
                },
            ),
        decreases ax + ay + az,
    {
        ax = ax / 2;
        ay = ay / 2;
        az = az / 2;
    }
    Vect_ { x: with_sign_of(x, ax), y: with_sign_of(y, ay), z: with_sign_of(z, az) }
}

/// The unit direction of the vector `(x, y, z)`, which is not zero.
fn unit_of(x: i128, y: i128, z: i128) -> (r: Vect_)
    requires
        (Triple { x: x as int, y: y as int, z: z as int }) != triple_zero(),
    ensures
        is_unit_direction(reduced(Triple { x: x as int, y: y as int, z: z as int }), r@),
{
    let v = reduce(x, y, z);
    let d: u128 = v.magnitude_squared();
    proof {
        lemma_reduced_is_nonzero(Triple { x: x as int, y: y as int, z: z as int });
        lemma_square_length_positive(v@);
        assert(0 <= v.x * v.x <= 0xffff_ffff * 0xffff_ffff) by (nonlinear_arith)
            requires
                -0xffff_ffff <= v.x <= 0xffff_ffff,
        ;
        assert(0 <= v.y * v.y <= 0xffff_ffff * 0xffff_ffff) by (nonlinear_arith)
            requires
                -0xffff_ffff <= v.y <= 0xffff_ffff,
        ;
        assert(0 <= v.z * v.z <= 0xffff_ffff * 0xffff_ffff) by (nonlinear_arith)
            requires
                -0xffff_ffff <= v.z <= 0xffff_ffff,
        ;
    }
    Vect_ {
        x: scaled_coordinate(v.x, d),
        y: scaled_coordinate(v.y, d),
        z: scaled_coordinate(v.z, d),
    }
}

/// `c * k / UNIT`, rounded toward zero, if it fits in a coordinate.
fn scaled_fixed(c: i64, k: i64) -> (r: Option<i64>)
    ensures
        r == pack_scalar(toward_zero(c * k, UNIT as int)),
{
    assert(-0x4000_0000_0000_0000_0000_0000_0000_0000 <= c * k
        <= 0x4000_0000_0000_0000_0000_0000_0000_0000) by (nonlinear_arith)
        requires
            -0x8000_0000_0000_0000 <= c <= 0x7fff_ffff_ffff_ffff,
            -0x8000_0000_0000_0000 <= k <= 0x7fff_ffff_ffff_ffff,
    ;
    let wc: i128 = c as i128;
    let wk: i128 = k as i128;
    let p: i128 = wc * wk;
    if p >= 0 {
        let q: u128 = (p as u128) / 0x10_0000_0000_0000;
        if q > 0x7fff_ffff_ffff_ffff {
            None
        } else {
            Some(q as i64)
        }
    } else {
        let q: u128 = ((-p) as u128) / 0x10_0000_0000_0000;
        if q > 0x8000_0000_0000_0000 {
            None
        } else {
            let w: i128 = q as i128;
            Some((-w) as i64)
        }
    }
}

impl Vect_ {
    /// The vector times `k / UNIT`: `k` counts the fraction that [`UNIT`]
    /// stands for one of, so `5 * UNIT / 2` scales by two and a half. Each
    /// coordinate is rounded toward zero.
    pub fn scale(&self, k: i64) -> (r: Option<Vect_>)
        ensures
            r == pack(triple_scaled_fixed(self@, k as int)),
    {
        match (scaled_fixed(self.x, k), scaled_fixed(self.y, k), scaled_fixed(self.z, k)) {
            (Some(a), Some(b), Some(c)) => Some(Vect_ { x: a, y: b, z: c }),
            _ => None,
        }
    }

    /// The vector that points the same way and has length [`UNIT`], each
    /// coordinate rounded toward zero. Every vector but the zero vector has
    /// one; a vector with a coordinate beyond [`NORMALIZE_LIMIT`] is reduced
    /// first.
    pub fn normalize(&self) -> (r: Result<Vect_, GeometryError>)
        ensures
            self@ == triple_zero() ==> r == Err::<Vect_, GeometryError>(
                GeometryError::DegenerateVectorError,
            ),
            self@ != triple_zero() ==> r is Ok && is_unit_direction(reduced(self@), r.unwrap()@),
    {
        if self.is_zero() {
            return Err(GeometryError::DegenerateVectorError);
        }
        Ok(unit_of(self.x as i128, self.y as i128, self.z as i128))
    }
}

impl Vect_ {
    /// The length in units of [`UNIT`], rounded down: `UNIT` times the
    /// length of the vector in its own coordinates.
    pub fn length(&self) -> (m: u128)
        ensures
            m * m <= triple_dot(self@, self@) * (UNIT * UNIT) < (m + 1) * (m + 1),
    {
        let n: u128 = self.magnitude_squared();
        let whole: u64 = floor_sqrt(n);
        let mut s: u128 = whole as u128;
        assert(s * s <= n && n < s * s + 2 * s + 1) by (nonlinear_arith)
            requires
                s * s <= n < (s + 1) * (s + 1),
        ;
        let mut r: u128 = n - s * s;
        let mut scale: u64 = 1;
        let mut i: u32 = 0;
        proof {
            lemma2_to64();
            assert(s * s + r == n * (scale * scale)) by (nonlinear_arith)
                requires
                    scale == 1,
                    r == n - s * s,
            ;
        }
        while i < 52
            invariant
                i <= 52,
                scale == pow2(i as nat),
                scale <= 0x10_0000_0000_0000,
                i < 52 ==> scale <= 0x8_0000_0000_0000,
                s < 0x1_0000_0000_0000_0000 * scale,
                0 <= r <= 2 * s,
                s * s + r == n * (scale * scale),
            decreases 52 - i,
        {
            proof {
                lemma_pow2_unfold((i + 1) as nat);
                lemma2_to64_rest();
                if i + 1 < 51 {
                    lemma_pow2_strictly_increases((i + 1) as nat, 51);
                }
            }
            let ghost before = s * s + r;
            let ghost s0 = s;
            let ghost r0 = r;
            let four: u128 = 4 * r;
            let step: u128 = 4 * s + 1;
            if four >= step {
                r = four - step;
                s = 2 * s + 1;
            } else {
                r = four;
                s = 2 * s;
            }
            assert(s * s + r == 4 * before) by (nonlinear_arith)
                requires
                    before == s0 * s0 + r0,
                    (s == 2 * s0 + 1 && r == 4 * r0 - (4 * s0 + 1)) || (s == 2 * s0 && r == 4 * r0),
            ;
            assert(n * ((2 * scale) * (2 * scale)) == 4 * (n * (scale * scale)))
                by (nonlinear_arith);
            scale = 2 * scale;
            i = i + 1;
        }
        proof {
            lemma2_to64_rest();
            assert(scale == UNIT);
            assert(n * (scale * scale) == triple_dot(self@, self@) * (UNIT * UNIT));
            assert((s + 1) * (s + 1) == s * s + 2 * s + 1) by (nonlinear_arith);
        }
        s
    }
}

/// Whether one of the three axes of `c` is the zero vector.
pub open spec fn has_zero_axis(c: Camera_) -> bool {
    c.dir@ == triple_zero() || c.right@ == triple_zero() || c.down@ == triple_zero()
}

impl Camera_ {
    /// The same camera with each axis scaled to length [`UNIT`]. Only a frame
    /// with a zero axis has none: it has no orientation.
    pub fn unit_axes(&self) -> (r: Result<Camera_, GeometryError>)
        ensures
            has_zero_axis(*self) ==> r == Err::<Camera_, GeometryError>(
                GeometryError::DegenerateCameraOrientation,
            ),
            !has_zero_axis(*self) ==> r is Ok && ({
                let c = r.unwrap();
                &&& c.pos == self.pos
                &&& is_unit_direction(reduced(self.dir@), c.dir@)
                &&& is_unit_direction(reduced(self.right@), c.right@)
                &&& is_unit_direction(reduced(self.down@), c.down@)
            }),
    {
        if self.dir.is_zero() || self.right.is_zero() || self.down.is_zero() {
            return Err(GeometryError::DegenerateCameraOrientation);
        }
        let dir = match self.dir.normalize() {
            Ok(v) => v,
            Err(_) => { return Err(GeometryError::DegenerateCameraOrientation); },
        };
        let right = match self.right.normalize() {
            Ok(v) => v,
            Err(_) => { return Err(GeometryError::DegenerateCameraOrientation); },
        };
        let down = match self.down.normalize() {
            Ok(v) => v,
            Err(_) => { return Err(GeometryError::DegenerateCameraOrientation); },
        };
        Ok(Camera_ { pos: self.pos, dir, right, down })
    }
}

/// Whether `n` fits in 128 bits, the widest that an exact axis is held in
/// while a frame is derived.
pub open spec fn wide(n: int) -> bool {
    i128::MIN <= n <= i128::MAX
}

/// `a * b - c * d`, where the two products and their difference fit in 128
/// bits.
pub open spec fn wide_difference(a: int, b: int, c: int, d: int) -> Option<int> {
    if wide(a * b) && wide(c * d) && wide(a * b - c * d) {
        Some(a * b - c * d)
    } else {
        None
    }
}

/// The cross product of `a` and `b`, where it can be worked out in 128 bits.
pub open spec fn wide_cross(a: Triple, b: Triple) -> Option<Triple> {
    match (
        wide_difference(a.y, b.z, a.z, b.y),
        wide_difference(a.z, b.x, a.x, b.z),
        wide_difference(a.x, b.y, a.y, b.x),
    ) {
        (Some(x), Some(y), Some(z)) => Some(Triple { x, y, z }),
        _ => None,
    }
}

/// Whether `r` is the viewing frame of a camera at `campos` that looks at
/// `look_point`. The exact axes are the viewing direction, the up reference
/// crossed with it, and that crossed with the viewing direction again; the
/// frame holds each of them scaled to length [`UNIT`]. There is none where
/// the camera stands on its target, none where the up reference crossed with
/// the viewing direction is zero, and none where a cross product cannot be
/// worked out in 128 bits.
pub open spec fn is_unit_frame_of(
    campos: Vect_,
    look_point: Vect_,
    world_up: Vect_,
    r: Result<Camera_, GeometryError>,
) -> bool {
    let dir = frame_dir(campos@, look_point@);
    if dir == triple_zero() {
        r == Err::<Camera_, GeometryError>(GeometryError::DegenerateVectorError)
    } else if triple_cross(world_up@, dir) == triple_zero() {
        r == Err::<Camera_, GeometryError>(GeometryError::DegenerateCameraOrientation)
    } else {
        match wide_cross(world_up@, dir) {
            None => r == Err::<Camera_, GeometryError>(GeometryError::CoordinateOverflow),
            Some(right) => match wide_cross(right, dir) {
                None => r == Err::<Camera_, GeometryError>(GeometryError::CoordinateOverflow),
                Some(down) => r is Ok && ({
                    let c = r.unwrap();
                    &&& c.pos == campos
                    &&& is_unit_direction(reduced(dir), c.dir@)
                    &&& is_unit_direction(reduced(right), c.right@)
                    &&& is_unit_direction(reduced(down), c.down@)
                }),
            },
        }
    }
}

/// `a * b - c * d`, where the two products and their difference fit in 128
/// bits.
fn difference_of_products(a: i128, b: i128, c: i128, d: i128) -> (r: Option<i128>)
    ensures
        r == match wide_difference(a as int, b as int, c as int, d as int) {
            Some(n) => Some(n as i128),
            None => None::<i128>,
        },
{
    match (a.checked_mul(b), c.checked_mul(d)) {
        (Some(p), Some(q)) => p.checked_sub(q),
        _ => None,
    }
}

/// The product of two numbers is bounded by the product of their bounds.
proof fn lemma_product_bound(a: int, b: int, m: int, n: int)
    requires
        -m <= a <= m,
        -n <= b <= n,
    ensures
        -(m * n) <= a * b <= m * n,
{
    assert(-(m * n) <= a * b <= m * n) by (nonlinear_arith)
        requires
            -m <= a <= m,
            -n <= b <= n,
    ;
}

/// Where the cross product of an up reference with a viewing direction
/// cannot be worked out in 128 bits, it is not zero.
proof fn lemma_unworkable_cross_is_nonzero(up: Triple, dir: Triple)
    requires
        -0x8000_0000_0000_0000 <= up.x <= 0x8000_0000_0000_0000,
        -0x8000_0000_0000_0000 <= up.y <= 0x8000_0000_0000_0000,
        -0x8000_0000_0000_0000 <= up.z <= 0x8000_0000_0000_0000,
        -0xffff_ffff_ffff_ffff <= dir.x <= 0xffff_ffff_ffff_ffff,
        -0xffff_ffff_ffff_ffff <= dir.y <= 0xffff_ffff_ffff_ffff,
        -0xffff_ffff_ffff_ffff <= dir.z <= 0xffff_ffff_ffff_ffff,
        wide_cross(up, dir) is None,
    ensures
        triple_cross(up, dir) != triple_zero(),
{
    let m: int = 0x8000_0000_0000_0000;
    let n: int = 0xffff_ffff_ffff_ffff;
    assert(m * n == 0x8000_0000_0000_0000 * 0xffff_ffff_ffff_ffff) by (nonlinear_arith)
        requires
            m == 0x8000_0000_0000_0000,
            n == 0xffff_ffff_ffff_ffff,
    ;
    lemma_product_bound(up.y, dir.z, m, n);
    lemma_product_bound(up.z, dir.y, m, n);
    lemma_product_bound(up.z, dir.x, m, n);
    lemma_product_bound(up.x, dir.z, m, n);
    lemma_product_bound(up.x, dir.y, m, n);
    lemma_product_bound(up.y, dir.x, m, n);
}

/// The second cross product of a frame is not zero where the first is not.
proof fn lemma_down_is_nonzero(up: Triple, dir: Triple)
    requires
        dir != triple_zero(),
        triple_cross(up, dir) != triple_zero(),
    ensures
        triple_cross(triple_cross(up, dir), dir) != triple_zero(),
        triple_dot(dir, triple_cross(up, dir)) == 0,
        triple_dot(dir, triple_cross(triple_cross(up, dir), dir)) == 0,
        triple_dot(triple_cross(up, dir), triple_cross(triple_cross(up, dir), dir)) == 0,
{
    let right = triple_cross(up, dir);
    let down = triple_cross(right, dir);
    lemma_cross_is_orthogonal(up, dir);
    lemma_cross_is_orthogonal(right, dir);
    lemma_cross_length(right, dir);
    lemma_square_length_positive(dir);
    lemma_square_length_positive(right);
    lemma_square_length_positive(down);
    let d = triple_dot(dir, dir);
    let r = triple_dot(right, right);
    assert(r * d > 0) by (nonlinear_arith)
        requires
            r > 0,
            d > 0,
    ;
    assert(triple_dot(right, dir) * triple_dot(right, dir) == 0) by (nonlinear_arith)
        requires
            triple_dot(right, dir) == 0,
    ;
}

/// The exact screen-right axis is orthogonal to the up reference, and the
/// exact screen-down axis points away from it: its dot product with the up
/// reference is minus the squared length of screen-right.
pub proof fn lemma_frame_stands_upright(up: Triple, dir: Triple)
    ensures
        triple_dot(triple_cross(up, dir), up) == 0,
        triple_dot(triple_cross(triple_cross(up, dir), dir), up) == -triple_dot(
            triple_cross(up, dir),
            triple_cross(up, dir),
        ),
        triple_cross(up, dir) != triple_zero() ==> triple_dot(
            triple_cross(triple_cross(up, dir), dir),
            up,
        ) < 0,
{
    let r = triple_cross(up, dir);
    lemma_cross_is_orthogonal(up, dir);
    lemma_square_length_positive(r);
    lemma_triple_product_swaps(r, dir, up);
}

/// The triple product changes sign when its first and last vector change
/// places.
proof fn lemma_triple_product_swaps(a: Triple, b: Triple, c: Triple)
    ensures
        triple_dot(triple_cross(a, b), c) == -triple_dot(triple_cross(c, b), a),
{
    assert((a.y * b.z - a.z * b.y) * c.x == (a.y * b.z) * c.x - (a.z * b.y) * c.x)
        by (nonlinear_arith);
    assert((a.z * b.x - a.x * b.z) * c.y == (a.z * b.x) * c.y - (a.x * b.z) * c.y)
        by (nonlinear_arith);
    assert((a.x * b.y - a.y * b.x) * c.z == (a.x * b.y) * c.z - (a.y * b.x) * c.z)
        by (nonlinear_arith);
    assert((c.y * b.z - c.z * b.y) * a.x == (c.y * b.z) * a.x - (c.z * b.y) * a.x)
        by (nonlinear_arith);
    assert((c.z * b.x - c.x * b.z) * a.y == (c.z * b.x) * a.y - (c.x * b.z) * a.y)
        by (nonlinear_arith);
    assert((c.x * b.y - c.y * b.x) * a.z == (c.x * b.y) * a.z - (c.y * b.x) * a.z)
        by (nonlinear_arith);
    assert((a.y * b.z) * c.x == (c.x * b.z) * a.y) by (nonlinear_arith);
    assert((a.z * b.y) * c.x == (c.x * b.y) * a.z) by (nonlinear_arith);
    assert((a.z * b.x) * c.y == (c.y * b.x) * a.z) by (nonlinear_arith);
    assert((a.x * b.z) * c.y == (c.y * b.z) * a.x) by (nonlinear_arith);
    assert((a.x * b.y) * c.z == (c.z * b.y) * a.x) by (nonlinear_arith);
    assert((a.y * b.x) * c.z == (c.z * b.x) * a.y) by (nonlinear_arith);
}

impl Camera_ {
    /// Derives the viewing frame of a camera at `campos` that looks at
    /// `look_point`, with `world_up` as the reference for "up": `dir` points
    /// from the camera to the target, `right` along `world_up` crossed with it,
    /// `down` along `right` crossed with `dir`, and each has length [`UNIT`].
    /// The cross products are worked out exactly, in 128 bits; a scene so
    /// large that they do not fit is refused as an overflow.
    pub fn derive(campos: Vect_, look_point: Vect_, world_up: Vect_) -> (r: Result<
        Camera_,
        GeometryError,
    >)
        ensures
            is_unit_frame_of(campos, look_point, world_up, r),
            r == Err::<Camera_, GeometryError>(GeometryError::DegenerateVectorError) <==> campos@
                == look_point@,
            r == Err::<Camera_, GeometryError>(GeometryError::DegenerateCameraOrientation) <==> (
            campos@ != look_point@ && triple_cross(world_up@, frame_dir(campos@, look_point@))
                == triple_zero()),
    {
        if campos.x == look_point.x && campos.y == look_point.y && campos.z == look_point.z {
            return Err(GeometryError::DegenerateVectorError);
        }
        let dx: i128 = (look_point.x as i128) - (campos.x as i128);
        let dy: i128 = (look_point.y as i128) - (campos.y as i128);
        let dz: i128 = (look_point.z as i128) - (campos.z as i128);
        let ux: i128 = world_up.x as i128;
        let uy: i128 = world_up.y as i128;
        let uz: i128 = world_up.z as i128;
        let ghost dir = Triple { x: dx as int, y: dy as int, z: dz as int };
        assert(dir == frame_dir(campos@, look_point@));
        let rx = difference_of_products(uy, dz, uz, dy);
        let ry = difference_of_products(uz, dx, ux, dz);
        let rz = difference_of_products(ux, dy, uy, dx);
        let (rx, ry, rz) = match (rx, ry, rz) {
            (Some(x), Some(y), Some(z)) => (x, y, z),
            _ => {
                proof {
                    lemma_unworkable_cross_is_nonzero(world_up@, dir);
                }
                return Err(GeometryError::CoordinateOverflow);
            },
        };
        if rx == 0 && ry == 0 && rz == 0 {
            return Err(GeometryError::DegenerateCameraOrientation);
        }
        let wx = difference_of_products(ry, dz, rz, dy);
        let wy = difference_of_products(rz, dx, rx, dz);
        let wz = difference_of_products(rx, dy, ry, dx);
        let (wx, wy, wz) = match (wx, wy, wz) {
            (Some(x), Some(y), Some(z)) => (x, y, z),
            _ => { return Err(GeometryError::CoordinateOverflow); },
        };
        proof {
            lemma_down_is_nonzero(world_up@, dir);
        }
        Ok(
            Camera_ {
                pos: campos,
                dir: unit_of(dx, dy, dz),
                right: unit_of(rx, ry, rz),
                down: unit_of(wx, wy, wz),
            },
        )
    }
}

/// Each axis of a derived frame is within four units of length one, and the
/// three exact axes that they are the unit directions of are orthogonal to
/// the last digit.
pub proof fn lemma_derived_frame_is_orthonormal(
    campos: Vect_,
    look_point: Vect_,
    world_up: Vect_,
    c: Camera_,
)
    requires
        is_unit_frame_of(campos, look_point, world_up, Ok(c)),
    ensures
        c.pos == campos,
        (UNIT - 4) * (UNIT - 4) < triple_dot(c.dir@, c.dir@) <= UNIT * UNIT,
        (UNIT - 4) * (UNIT - 4) < triple_dot(c.right@, c.right@) <= UNIT * UNIT,
        (UNIT - 4) * (UNIT - 4) < triple_dot(c.down@, c.down@) <= UNIT * UNIT,
        ({
            let dir = frame_dir(campos@, look_point@);
            let right = frame_right(campos@, look_point@, world_up@);
            let down = frame_down(campos@, look_point@, world_up@);
            &&& is_unit_direction(reduced(dir), c.dir@)
            &&& is_unit_direction(reduced(right), c.right@)
            &&& is_unit_direction(reduced(down), c.down@)
            &&& triple_dot(dir, right) == 0
            &&& triple_dot(dir, down) == 0
            &&& triple_dot(right, down) == 0
            &&& triple_dot(right, world_up@) == 0
            &&& triple_dot(down, world_up@) < 0
        }),
{
    let dir = frame_dir(campos@, look_point@);
    let right = frame_right(campos@, look_point@, world_up@);
    let down = frame_down(campos@, look_point@, world_up@);
    lemma_down_is_nonzero(world_up@, dir);
    lemma_frame_stands_upright(world_up@, dir);
    lemma_reduced_is_nonzero(dir);
    lemma_reduced_is_nonzero(right);
    lemma_reduced_is_nonzero(down);
    lemma_unit_direction_length(reduced(dir), c.dir@);
    lemma_unit_direction_length(reduced(right), c.right@);
    lemma_unit_direction_length(reduced(down), c.down@);
}

/// Only one whole number is `c * UNIT / sqrt(d)`, rounded toward zero.
pub proof fn lemma_scaled_coordinate_is_determined(c: int, d: int, p: int, q: int)
    requires
        d > 0,
        is_scaled_coordinate(c, d, p),
        is_scaled_coordinate(c, d, q),
    ensures
        p == q,
{
    let a = modulus(p);
    let b = modulus(q);
    let k = (c * c) * (UNIT * UNIT);
    assert(a * a == p * p && b * b == q * q) by (nonlinear_arith)
        requires
            a == p || a == -p,
            b == q || b == -q,
    ;
    if a < b {
        assert((a + 1) * (a + 1) <= b * b) by (nonlinear_arith)
            requires
                0 <= a,
                a + 1 <= b,
        ;
        assert(((a + 1) * (a + 1)) * d <= (b * b) * d) by (nonlinear_arith)
            requires
                (a + 1) * (a + 1) <= b * b,
                d > 0,
        ;
    } else if b < a {
        assert((b + 1) * (b + 1) <= a * a) by (nonlinear_arith)
            requires
                0 <= b,
                b + 1 <= a,
        ;
        assert(((b + 1) * (b + 1)) * d <= (a * a) * d) by (nonlinear_arith)
            requires
                (b + 1) * (b + 1) <= a * a,
                d > 0,
        ;
    }
}

/// The unit direction of a vector is unique: [`Vect_::normalize`] has one
/// possible answer.
pub proof fn lemma_unit_direction_is_determined(v: Triple, a: Triple, b: Triple)
    requires
        v != triple_zero(),
        is_unit_direction(v, a),
        is_unit_direction(v, b),
    ensures
        a == b,
{
    lemma_square_length_positive(v);
    let d = triple_dot(v, v);
    lemma_scaled_coordinate_is_determined(v.x, d, a.x, b.x);
    lemma_scaled_coordinate_is_determined(v.y, d, a.y, b.y);
    lemma_scaled_coordinate_is_determined(v.z, d, a.z, b.z);
}

/// A unit direction has length at most [`UNIT`], and falls short of it by
/// less than four units: its squared length is above
/// `UNIT * UNIT - 6 * UNIT - 3`, which is above the square of `UNIT - 4`.
pub proof fn lemma_unit_direction_length(v: Triple, r: Triple)
    requires
        v != triple_zero(),
        is_unit_direction(v, r),
    ensures
        UNIT * UNIT - 6 * UNIT - 3 < triple_dot(r, r) <= UNIT * UNIT,
        (UNIT - 4) * (UNIT - 4) < triple_dot(r, r),
{
    let d = triple_dot(v, v);
    let u = UNIT * UNIT;
    lemma_square_length_positive(v);
    let (cx, cy, cz) = (v.x * v.x, v.y * v.y, v.z * v.z);
    let (qx, qy, qz) = (r.x * r.x, r.y * r.y, r.z * r.z);
    let (mx, my, mz) = (modulus(r.x), modulus(r.y), modulus(r.z));
    assert(cx >= 0 && cy >= 0 && cz >= 0) by (nonlinear_arith)
        requires
            cx == v.x * v.x,
            cy == v.y * v.y,
            cz == v.z * v.z,
    ;
    assert(d == cx + cy + cz);
    // above: the squares add up to at most `d * u`
    assert((qx + qy + qz) * d <= d * u) by (nonlinear_arith)
        requires
            qx * d <= cx * u,
            qy * d <= cy * u,
            qz * d <= cz * u,
            d == cx + cy + cz,
    ;
    assert(qx + qy + qz <= u) by (nonlinear_arith)
        requires
            (qx + qy + qz) * d <= d * u,
            d > 0,
    ;
    // each coordinate is at most UNIT in absolute value
    assert(mx * mx == qx && my * my == qy && mz * mz == qz) by (nonlinear_arith)
        requires
            mx == modulus(r.x),
            my == modulus(r.y),
            mz == modulus(r.z),
            qx == r.x * r.x,
            qy == r.y * r.y,
            qz == r.z * r.z,
    ;
    assert(qx >= 0 && qy >= 0 && qz >= 0) by (nonlinear_arith)
        requires
            qx == r.x * r.x,
            qy == r.y * r.y,
            qz == r.z * r.z,
    ;
    assert(u == 0x100_0000_0000_0000_0000_0000_0000) by (nonlinear_arith)
        requires
            u == UNIT * UNIT,
            UNIT == 0x10_0000_0000_0000,
    ;
    assert(mx <= 0x10_0000_0000_0000 && my <= 0x10_0000_0000_0000 && mz <= 0x10_0000_0000_0000)
        by (nonlinear_arith)
        requires
            mx * mx <= 0x100_0000_0000_0000_0000_0000_0000,
            my * my <= 0x100_0000_0000_0000_0000_0000_0000,
            mz * mz <= 0x100_0000_0000_0000_0000_0000_0000,
            mx >= 0,
            my >= 0,
            mz >= 0,
    ;
    // below: the squares of the next whole numbers add up to more than `d * u`
    let (nx, ny, nz) = ((mx + 1) * (mx + 1), (my + 1) * (my + 1), (mz + 1) * (mz + 1));
    assert((nx + ny + nz) * d > d * u) by (nonlinear_arith)
        requires
            cx * u < nx * d,
            cy * u < ny * d,
            cz * u < nz * d,
            d == cx + cy + cz,
    ;
    assert(nx + ny + nz > u) by (nonlinear_arith)
        requires
            (nx + ny + nz) * d > d * u,
            d > 0,
    ;
    assert(nx == mx * mx + 2 * mx + 1 && ny == my * my + 2 * my + 1 && nz == mz * mz + 2 * mz + 1)
        by (nonlinear_arith)
        requires
            nx == (mx + 1) * (mx + 1),
            ny == (my + 1) * (my + 1),
            nz == (mz + 1) * (mz + 1),
    ;
    assert((UNIT - 4) * (UNIT - 4) <= UNIT * UNIT - 6 * UNIT - 3) by (nonlinear_arith)
        requires
            UNIT == 0x10_0000_0000_0000,
    ;
}

/// The unit direction of any vector but zero is within four units of
/// length one, and [`Vect_::magnitude`] of it is at most four units short of
/// [`UNIT`].
pub proof fn lemma_normalized_length(v: Triple, r: Triple, m: int)
    requires
        v != triple_zero(),
        is_unit_direction(reduced(v), r),
        0 <= m,
        m * m <= triple_dot(r, r) < (m + 1) * (m + 1),
    ensures
        (UNIT - 4) * (UNIT - 4) < triple_dot(r, r) <= UNIT * UNIT,
        UNIT - 4 <= m <= UNIT,
{
    lemma_reduced_is_nonzero(v);
    lemma_unit_direction_length(reduced(v), r);
    let s = triple_dot(r, r);
    assert(UNIT - 4 <= m <= UNIT) by (nonlinear_arith)
        requires
            UNIT == 0x10_0000_0000_0000,
            (UNIT - 4) * (UNIT - 4) < s <= UNIT * UNIT,
            0 <= m,
            m * m <= s < (m + 1) * (m + 1),
    ;
}

} // verus!
