//! Three-component vectors with exact integer coordinates.
//!
//! A coordinate counts whole multiples of a length unit that the caller picks
//! (a tenth, a thousandth, ...). Every operation is exact: it returns the
//! mathematical result whenever that result can be stored, and `None`
//! otherwise. Contracts are stated over [`Triple`], the vector of unbounded
//! integers that a [`Vect_`] stands for.

use vstd::prelude::*;
use vstd::arithmetic::mul::{lemma_mul_is_distributive_add, lemma_mul_is_distributive_add_other_way};

verus! {

/// A vector of three mathematical integers: the model of a [`Vect_`].
pub struct Triple {
    pub x: int,
    pub y: int,
    pub z: int,
}

/// The zero vector.
pub open spec fn triple_zero() -> Triple {
    Triple { x: 0, y: 0, z: 0 }
}

/// Componentwise sum.
pub open spec fn triple_sum(a: Triple, b: Triple) -> Triple {
    Triple { x: a.x + b.x, y: a.y + b.y, z: a.z + b.z }
}

/// Componentwise difference.
pub open spec fn triple_diff(a: Triple, b: Triple) -> Triple {
    Triple { x: a.x - b.x, y: a.y - b.y, z: a.z - b.z }
}

/// Componentwise product with the scalar `k`.
pub open spec fn triple_scaled(a: Triple, k: int) -> Triple {
    Triple { x: a.x * k, y: a.y * k, z: a.z * k }
}

/// Componentwise negation.
pub open spec fn triple_neg(a: Triple) -> Triple {
    Triple { x: -a.x, y: -a.y, z: -a.z }
}

/// The dot product.
pub open spec fn triple_dot(a: Triple, b: Triple) -> int {
    a.x * b.x + a.y * b.y + a.z * b.z
}

/// The cross product, by the right-hand rule.
pub open spec fn triple_cross(a: Triple, b: Triple) -> Triple {
    Triple { x: a.y * b.z - a.z * b.y, y: a.z * b.x - a.x * b.z, z: a.x * b.y - a.y * b.x }
}

/// Whether `n` can be stored in a coordinate.
pub open spec fn storable(n: int) -> bool {
    i64::MIN <= n <= i64::MAX
}

/// Whether every coordinate of `t` can be stored.
pub open spec fn representable(t: Triple) -> bool {
    storable(t.x) && storable(t.y) && storable(t.z)
}

/// The stored form of a scalar: `Some` exactly when it fits.
pub open spec fn pack_scalar(n: int) -> Option<i64> {
    if storable(n) {
        Some(n as i64)
    } else {
        None
    }
}

/// The stored form of a vector: `Some` exactly when every coordinate fits.
pub open spec fn pack(t: Triple) -> Option<Vect_> {
    if representable(t) {
        Some(Vect_ { x: t.x as i64, y: t.y as i64, z: t.z as i64 })
    } else {
        None
    }
}

/// A point or a free direction in space; which of the two is up to the caller.
#[allow(non_camel_case_types)]
#[derive(Clone, Copy, Debug, PartialEq, Eq, Structural)]
pub struct Vect_ {
    pub x: i64,
    pub y: i64,
    pub z: i64,
}

impl View for Vect_ {
    type V = Triple;

    open spec fn view(&self) -> Triple {
        Triple { x: self.x as int, y: self.y as int, z: self.z as int }
    }
}

/// The product of two coordinates, which always fits in 128 bits.
fn wide_product(a: i64, b: i64) -> (p: i128)
    ensures
        p == a * b,
        -0x4000_0000_0000_0000_0000_0000_0000_0000 <= p <= 0x4000_0000_0000_0000_0000_0000_0000_0000,
{
    assert(-0x4000_0000_0000_0000_0000_0000_0000_0000 <= a * b
        <= 0x4000_0000_0000_0000_0000_0000_0000_0000) by (nonlinear_arith)
        requires
            -0x8000_0000_0000_0000 <= a <= 0x7fff_ffff_ffff_ffff,
            -0x8000_0000_0000_0000 <= b <= 0x7fff_ffff_ffff_ffff,
    ;
    let wa: i128 = a as i128;
    let wb: i128 = b as i128;
    wa * wb
}

/// Stores a wide scalar if it fits in a coordinate.
fn narrow(n: i128) -> (r: Option<i64>)
    ensures
        r == pack_scalar(n as int),
{
    if n < -0x8000_0000_0000_0000 || n > 0x7fff_ffff_ffff_ffff {
        None
    } else {
        Some(n as i64)
    }
}

/// `a * b - c * d`, if it fits in a coordinate.
pub(crate) fn product_difference(a: i64, b: i64, c: i64, d: i64) -> (r: Option<i64>)
    ensures
        r == pack_scalar(a * b - c * d),
{
    let p: i128 = wide_product(a, b);
    let q: i128 = wide_product(c, d);
    match p.checked_sub(q) {
        Some(n) => narrow(n),
        None => None,
    }
}

/// `a * b + c * d`, if it fits in a coordinate.
pub(crate) fn product_sum(a: i64, b: i64, c: i64, d: i64) -> (r: Option<i64>)
    ensures
        r == pack_scalar(a * b + c * d),
{
    let p: i128 = wide_product(a, b);
    let q: i128 = wide_product(c, d);
    match p.checked_add(q) {
        Some(n) => narrow(n),
        None => None,
    }
}

/// Builds a vector from three coordinates that may each be missing.
fn gather(x: Option<i64>, y: Option<i64>, z: Option<i64>) -> (r: Option<Vect_>)
    ensures
        r == match (x, y, z) {
            (Some(a), Some(b), Some(c)) => Some(Vect_ { x: a, y: b, z: c }),
            _ => None,
        },
{
    match (x, y, z) {
        (Some(a), Some(b), Some(c)) => Some(Vect_ { x: a, y: b, z: c }),
        _ => None,
    }
}

/// The largest whole number whose square is at most `n`.
pub fn floor_sqrt(n: u128) -> (r: u64)
    ensures
        r * r <= n < (r + 1) * (r + 1),
{
    let mut lo: u128 = 0;
    let mut hi: u128 = 0x1_0000_0000_0000_0000;
    assert(0x1_0000_0000_0000_0000int * 0x1_0000_0000_0000_0000int
        == 0x1_0000_0000_0000_0000_0000_0000_0000_0000int) by (nonlinear_arith);
    while hi - lo > 1
        invariant
            lo < hi <= 0x1_0000_0000_0000_0000,
            lo * lo <= n < hi * hi,
        decreases hi - lo,
    {
        let mid: u128 = lo + (hi - lo) / 2;
        assert(mid * mid <= 0xffff_ffff_ffff_ffff * 0xffff_ffff_ffff_ffff) by (nonlinear_arith)
            requires
                0 <= mid <= 0xffff_ffff_ffff_ffff,
        ;
        if mid * mid <= n {
            lo = mid;
        } else {
            hi = mid;
        }
    }
    lo as u64
}

impl Vect_ {
    /// The zero vector.
    pub fn new() -> (v: Vect_)
        ensures
            v@ == triple_zero(),
    {
        Vect_ { x: 0, y: 0, z: 0 }
    }

    /// Whether this is the zero vector.
    pub fn is_zero(&self) -> (b: bool)
        ensures
            b == (self@ == triple_zero()),
    {
        self.x == 0 && self.y == 0 && self.z == 0
    }

    /// The vector of the same length that points the other way.
    pub fn negative(&self) -> (r: Option<Vect_>)
        ensures
            r == pack(triple_neg(self@)),
    {
        gather(0i64.checked_sub(self.x), 0i64.checked_sub(self.y), 0i64.checked_sub(self.z))
    }

    /// The dot product with `v`.
    pub fn dot(&self, v: Vect_) -> (r: Option<i64>)
        ensures
            r == pack_scalar(triple_dot(self@, v@)),
    {
        let p: i128 = wide_product(self.x, v.x);
        let q: i128 = wide_product(self.y, v.y);
        let s: i128 = wide_product(self.z, v.z);
        match p.checked_add(q) {
            Some(pq) => match pq.checked_add(s) {
                Some(n) => narrow(n),
                None => None,
            },
            None => None,
        }
    }

    /// The cross product with `v`, by the right-hand rule.
    pub fn cross(&self, v: Vect_) -> (r: Option<Vect_>)
        ensures
            r == pack(triple_cross(self@, v@)),
    {
        gather(
            product_difference(self.y, v.z, self.z, v.y),
            product_difference(self.z, v.x, self.x, v.z),
            product_difference(self.x, v.y, self.y, v.x),
        )
    }

    /// The componentwise sum with `v`.
    #[allow(non_snake_case)]
    pub fn vectAdd(&self, v: Vect_) -> (r: Option<Vect_>)
        ensures
            r == pack(triple_sum(self@, v@)),
    {
        gather(self.x.checked_add(v.x), self.y.checked_add(v.y), self.z.checked_add(v.z))
    }

    /// The componentwise difference: this vector minus `v`.
    #[allow(non_snake_case)]
    pub fn vectSub(&self, v: Vect_) -> (r: Option<Vect_>)
        ensures
            r == pack(triple_diff(self@, v@)),
    {
        gather(self.x.checked_sub(v.x), self.y.checked_sub(v.y), self.z.checked_sub(v.z))
    }

    /// Every coordinate multiplied by `val`. Where `val` is in fixed point, so
    /// is the result: nothing is rounded.
    #[allow(non_snake_case)]
    pub fn vectMult(&self, val: i64) -> (r: Option<Vect_>)
        ensures
            r == pack(triple_scaled(self@, val as int)),
    {
        gather(self.x.checked_mul(val), self.y.checked_mul(val), self.z.checked_mul(val))
    }

    /// The square of the length: the dot product of the vector with itself.
    /// It always fits, so the length itself is one square root away.
    pub fn magnitude_squared(&self) -> (m: u128)
        ensures
            m == triple_dot(self@, self@),
    {
        let p: i128 = wide_product(self.x, self.x);
        let q: i128 = wide_product(self.y, self.y);
        let s: i128 = wide_product(self.z, self.z);
        assert(self.x * self.x >= 0 && self.y * self.y >= 0 && self.z * self.z >= 0)
            by (nonlinear_arith);
        let up: u128 = p as u128;
        let uq: u128 = q as u128;
        let us: u128 = s as u128;
        up + uq + us
    }

    /// The length, rounded down to a whole number.
    pub fn magnitude(&self) -> (m: u64)
        ensures
            m * m <= triple_dot(self@, self@) < (m + 1) * (m + 1),
    {
        floor_sqrt(self.magnitude_squared())
    }
}

/// The dot product does not depend on the order of its operands.
pub proof fn lemma_dot_commutes(a: Triple, b: Triple)
    ensures
        triple_dot(a, b) == triple_dot(b, a),
{
    assert(a.x * b.x == b.x * a.x && a.y * b.y == b.y * a.y && a.z * b.z == b.z * a.z)
        by (nonlinear_arith);
}

/// Swapping the operands of the cross product negates it.
pub proof fn lemma_cross_anticommutes(a: Triple, b: Triple)
    ensures
        triple_cross(a, b) == triple_neg(triple_cross(b, a)),
{
    assert(a.y * b.z - a.z * b.y == -(b.y * a.z - b.z * a.y)) by (nonlinear_arith);
    assert(a.z * b.x - a.x * b.z == -(b.z * a.x - b.x * a.z)) by (nonlinear_arith);
    assert(a.x * b.y - a.y * b.x == -(b.x * a.y - b.y * a.x)) by (nonlinear_arith);
}

/// The cross product of a vector with itself is the zero vector.
pub proof fn lemma_cross_self_is_zero(v: Triple)
    ensures
        triple_cross(v, v) == triple_zero(),
{
    assert(v.y * v.z - v.z * v.y == 0) by (nonlinear_arith);
    assert(v.z * v.x - v.x * v.z == 0) by (nonlinear_arith);
    assert(v.x * v.y - v.y * v.x == 0) by (nonlinear_arith);
}

/// A vector and its negative add up to the zero vector.
pub proof fn lemma_sum_with_negative_is_zero(v: Triple)
    ensures
        triple_sum(v, triple_neg(v)) == triple_zero(),
{
}

/// Only the zero vector has length zero.
pub proof fn lemma_square_length_positive(v: Triple)
    ensures
        triple_dot(v, v) >= 0,
        triple_dot(v, v) == 0 <==> v == triple_zero(),
{
    assert(v.x * v.x >= 0 && (v.x * v.x == 0 <==> v.x == 0)) by (nonlinear_arith);
    assert(v.y * v.y >= 0 && (v.y * v.y == 0 <==> v.y == 0)) by (nonlinear_arith);
    assert(v.z * v.z >= 0 && (v.z * v.z == 0 <==> v.z == 0)) by (nonlinear_arith);
}

/// The cross product is orthogonal to both of its operands.
pub proof fn lemma_cross_is_orthogonal(a: Triple, b: Triple)
    ensures
        triple_dot(a, triple_cross(a, b)) == 0,
        triple_dot(b, triple_cross(a, b)) == 0,
        triple_dot(triple_cross(a, b), a) == 0,
        triple_dot(triple_cross(a, b), b) == 0,
{
    assert(a.x * (a.y * b.z - a.z * b.y) + a.y * (a.z * b.x - a.x * b.z) + a.z * (a.x * b.y - a.y
        * b.x) == 0) by (nonlinear_arith);
    assert(b.x * (a.y * b.z - a.z * b.y) + b.y * (a.z * b.x - a.x * b.z) + b.z * (a.x * b.y - a.y
        * b.x) == 0) by (nonlinear_arith);
    lemma_dot_commutes(a, triple_cross(a, b));
    lemma_dot_commutes(b, triple_cross(a, b));
}

/// `(p - q)^2 = p^2 - 2pq + q^2`.
proof fn lemma_square_of_difference(p: int, q: int)
    ensures
        (p - q) * (p - q) == p * p - 2 * (p * q) + q * q,
{
    assert((p - q) * (p - q) == p * p - 2 * (p * q) + q * q) by (nonlinear_arith);
}

/// The factors of a product of two products can be regrouped.
proof fn lemma_regroup(a: int, b: int, c: int, d: int)
    ensures
        (a * b) * (c * d) == (a * c) * (b * d),
        (a * b) * (c * d) == (a * d) * (c * b),
        (a * b) * (c * d) == (c * d) * (a * b),
{
    assert((a * b) * (c * d) == (a * c) * (b * d)) by (nonlinear_arith);
    assert((a * b) * (c * d) == (a * d) * (c * b)) by (nonlinear_arith);
    assert((a * b) * (c * d) == (c * d) * (a * b)) by (nonlinear_arith);
}

/// The product of two sums of three terms, written out.
proof fn lemma_product_of_sums(x: int, y: int, z: int, u: int, v: int, w: int)
    ensures
        (x + y + z) * (u + v + w) == x * u + x * v + x * w + y * u + y * v + y * w + z * u + z * v
            + z * w,
{
    let s = u + v + w;
    lemma_mul_is_distributive_add_other_way(s, x + y, z);
    lemma_mul_is_distributive_add_other_way(s, x, y);
    lemma_mul_is_distributive_add(x, u + v, w);
    lemma_mul_is_distributive_add(x, u, v);
    lemma_mul_is_distributive_add(y, u + v, w);
    lemma_mul_is_distributive_add(y, u, v);
    lemma_mul_is_distributive_add(z, u + v, w);
    lemma_mul_is_distributive_add(z, u, v);
}

/// Lagrange's identity: the squared length of a cross product is the product
/// of the squared lengths of the operands, less the square of their dot
/// product.
pub proof fn lemma_cross_length(a: Triple, b: Triple)
    ensures
        triple_dot(triple_cross(a, b), triple_cross(a, b)) == triple_dot(a, a) * triple_dot(b, b)
            - triple_dot(a, b) * triple_dot(a, b),
{
    lemma_square_of_difference(a.y * b.z, a.z * b.y);
    lemma_square_of_difference(a.z * b.x, a.x * b.z);
    lemma_square_of_difference(a.x * b.y, a.y * b.x);
    lemma_product_of_sums(a.x * a.x, a.y * a.y, a.z * a.z, b.x * b.x, b.y * b.y, b.z * b.z);
    lemma_product_of_sums(a.x * b.x, a.y * b.y, a.z * b.z, a.x * b.x, a.y * b.y, a.z * b.z);
    // squares of the six products that make up the cross product
    lemma_regroup(a.y, b.z, a.y, b.z);
    lemma_regroup(a.z, b.y, a.z, b.y);
    lemma_regroup(a.z, b.x, a.z, b.x);
    lemma_regroup(a.x, b.z, a.x, b.z);
    lemma_regroup(a.x, b.y, a.x, b.y);
    lemma_regroup(a.y, b.x, a.y, b.x);
    // squares of the three products that make up the dot product
    lemma_regroup(a.x, b.x, a.x, b.x);
    lemma_regroup(a.y, b.y, a.y, b.y);
    lemma_regroup(a.z, b.z, a.z, b.z);
    // mixed terms: each one of the cross product is one of the dot product
    lemma_regroup(a.y, b.z, a.z, b.y);
    lemma_regroup(a.z, b.x, a.x, b.z);
    lemma_regroup(a.x, b.y, a.y, b.x);
    lemma_regroup(a.x, b.x, a.y, b.y);
    lemma_regroup(a.x, b.x, a.z, b.z);
    lemma_regroup(a.y, b.y, a.z, b.z);
}

/// The cross product of two orthogonal vectors of length one has length one.
pub proof fn lemma_cross_of_orthonormal_is_unit(a: Triple, b: Triple)
    requires
        triple_dot(a, a) == 1,
        triple_dot(b, b) == 1,
        triple_dot(a, b) == 0,
    ensures
        triple_dot(triple_cross(a, b), triple_cross(a, b)) == 1,
{
    lemma_cross_length(a, b);
}

} // verus!
