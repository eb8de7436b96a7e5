//! The viewing frame of a camera: where it stands, the way it looks, and the
//! two screen axes, derived from a position, a target and an up reference.
//!
//! The axes of this module are exact, so they are orthogonal to the last
//! digit but not of length one. The frame that a renderer works with has the
//! same axes scaled to unit length: see `Camera_::derive`.

use vstd::prelude::*;
use crate::vector::Vect_;
use crate::vector::Triple;
use crate::vector::{triple_zero, triple_neg, triple_diff, triple_cross, triple_dot};
use crate::vector::{representable, pack};
use crate::vector::{lemma_cross_is_orthogonal, lemma_cross_length, lemma_square_length_positive};

verus! {

/// Why a frame could not be derived.
#[derive(Clone, Copy, Debug, PartialEq, Eq, Structural)]
pub enum GeometryError {
    /// A direction was asked of the zero vector: the camera stands on its
    /// target.
    DegenerateVectorError,
    /// The camera looks along the up reference, or the up reference is zero,
    /// so no screen-right axis exists.
    DegenerateCameraOrientation,
    /// A coordinate of the frame is too large to be stored.
    CoordinateOverflow,
}

/// A camera position with its viewing basis.
#[allow(non_camel_case_types)]
#[derive(Clone, Copy, Debug, PartialEq, Eq, Structural)]
pub struct Camera_ {
    pub pos: Vect_,
    pub dir: Vect_,
    pub right: Vect_,
    pub down: Vect_,
}

/// The viewing direction: from the camera toward the target.
pub open spec fn frame_dir(campos: Triple, look_point: Triple) -> Triple {
    triple_neg(triple_diff(campos, look_point))
}

/// The screen-right axis: the up reference crossed with the viewing direction.
pub open spec fn frame_right(campos: Triple, look_point: Triple, world_up: Triple) -> Triple {
    triple_cross(world_up, frame_dir(campos, look_point))
}

/// The screen-down axis: screen-right crossed with the viewing direction.
pub open spec fn frame_down(campos: Triple, look_point: Triple, world_up: Triple) -> Triple {
    triple_cross(frame_right(campos, look_point, world_up), frame_dir(campos, look_point))
}

/// The frame of a camera at `campos` that looks at `look_point`, or the reason
/// why there is none.
pub open spec fn frame_of(campos: Vect_, look_point: Vect_, world_up: Vect_) -> Result<
    Camera_,
    GeometryError,
> {
    let dir = frame_dir(campos@, look_point@);
    let right = frame_right(campos@, look_point@, world_up@);
    let down = frame_down(campos@, look_point@, world_up@);
    if dir == triple_zero() {
        Err(GeometryError::DegenerateVectorError)
    } else if !representable(dir) {
        Err(GeometryError::CoordinateOverflow)
    } else if right == triple_zero() {
        Err(GeometryError::DegenerateCameraOrientation)
    } else if !representable(right) || !representable(down) {
        Err(GeometryError::CoordinateOverflow)
    } else {
        Ok(
            Camera_ {
                pos: campos,
                dir: pack(dir).unwrap(),
                right: pack(right).unwrap(),
                down: pack(down).unwrap(),
            },
        )
    }
}

impl Camera_ {
    /// A camera at the origin that looks along the positive z axis, with no
    /// screen axes yet. The direction is in whole coordinates, and of length
    /// one in them.
    pub fn new() -> (c: Camera_)
        ensures
            c == (Camera_ {
                pos: Vect_ { x: 0, y: 0, z: 0 },
                dir: Vect_ { x: 0, y: 0, z: 1 },
                right: Vect_ { x: 0, y: 0, z: 0 },
                down: Vect_ { x: 0, y: 0, z: 0 },
            }),
            triple_dot(c.dir@, c.dir@) == 1,
    {
        Camera_ {
            pos: Vect_ { x: 0, y: 0, z: 0 },
            dir: Vect_ { x: 0, y: 0, z: 1 },
            right: Vect_ { x: 0, y: 0, z: 0 },
            down: Vect_ { x: 0, y: 0, z: 0 },
        }
    }

    /// The exact axes of a camera at `campos` that looks at `look_point`, with
    /// `world_up` as the reference for "up". They are not of unit length:
    /// `Camera_::derive` scales them.
    pub fn looking_at(campos: Vect_, look_point: Vect_, world_up: Vect_) -> (r: Result<
        Camera_,
        GeometryError,
    >)
        ensures
            r == frame_of(campos, look_point, world_up),
    {
        if campos.x == look_point.x && campos.y == look_point.y && campos.z == look_point.z {
            return Err(GeometryError::DegenerateVectorError);
        }
        let dir = match look_point.vectSub(campos) {
            Some(d) => d,
            None => { return Err(GeometryError::CoordinateOverflow); },
        };
        assert(dir@ == frame_dir(campos@, look_point@));
        let right = match world_up.cross(dir) {
            Some(v) => v,
            None => { return Err(GeometryError::CoordinateOverflow); },
        };
        if right.is_zero() {
            return Err(GeometryError::DegenerateCameraOrientation);
        }
        let down = match right.cross(dir) {
            Some(v) => v,
            None => { return Err(GeometryError::CoordinateOverflow); },
        };
        Ok(Camera_ { pos: campos, dir, right, down })
    }
}

/// The three axes of a derived frame are pairwise orthogonal, none of them is
/// the zero vector, and the squared length of screen-down is the product of
/// the squared lengths of the other two.
pub proof fn lemma_frame_is_orthogonal(campos: Vect_, look_point: Vect_, world_up: Vect_)
    requires
        frame_of(campos, look_point, world_up) is Ok,
    ensures
        ({
            let c = frame_of(campos, look_point, world_up).unwrap();
            &&& c.pos == campos
            &&& triple_dot(c.dir@, c.right@) == 0
            &&& triple_dot(c.dir@, c.down@) == 0
            &&& triple_dot(c.right@, c.down@) == 0
            &&& triple_dot(c.dir@, c.dir@) > 0
            &&& triple_dot(c.right@, c.right@) > 0
            &&& triple_dot(c.down@, c.down@) == triple_dot(c.right@, c.right@) * triple_dot(
                c.dir@,
                c.dir@,
            )
            &&& triple_dot(c.down@, c.down@) > 0
        }),
{
    let dir = frame_dir(campos@, look_point@);
    let right = frame_right(campos@, look_point@, world_up@);
    let down = frame_down(campos@, look_point@, world_up@);
    lemma_cross_is_orthogonal(world_up@, dir);
    lemma_cross_is_orthogonal(right, dir);
    lemma_cross_length(right, dir);
    lemma_square_length_positive(dir);
    lemma_square_length_positive(right);
    let d = triple_dot(dir, dir);
    let r = triple_dot(right, right);
    assert(r * d > 0) by (nonlinear_arith)
        requires
            r > 0,
            d > 0,
    ;
    assert(triple_dot(right, dir) * triple_dot(right, dir) == 0) by (nonlinear_arith)
        requires
            triple_dot(right, dir) == 0,
    ;
}

} // verus!
