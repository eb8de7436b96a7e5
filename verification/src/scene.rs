//! The plain values that describe a scene: colours, lights and rays.

use vstd::prelude::*;
use crate::vector::{Vect_, triple_dot};
use crate::camera::{Camera_, GeometryError};
use crate::direction::is_unit_frame_of;

verus! {

/// The channel value that stands for full intensity. Channels count
/// thousandths; nothing keeps a channel below this value.
pub const CHANNEL_FULL: u32 = 1000;

/// A colour with a fourth coefficient, `special`, that is kept for a shader
/// to interpret. All four count thousandths.
#[allow(non_camel_case_types)]
#[derive(Clone, Copy, Debug, PartialEq, Eq, Structural)]
pub struct Color_ {
    pub r: u32,
    pub g: u32,
    pub b: u32,
    pub special: u32,
}

impl Color_ {
    /// Mid-gray: every channel at half intensity, `special` at zero.
    pub fn new() -> (c: Color_)
        ensures
            c == (Color_ { r: 500, g: 500, b: 500, special: 0 }),
            2 * c.r == CHANNEL_FULL,
    {
        Color_ { r: 500, g: 500, b: 500, special: 0 }
    }
}

/// A point light.
#[allow(non_camel_case_types)]
#[derive(Clone, Copy, Debug, PartialEq, Eq, Structural)]
pub struct Light_ {
    pub position: Vect_,
    pub color: Color_,
}

impl Light_ {
    /// A white light at the origin.
    pub fn new() -> (l: Light_)
        ensures
            l == (Light_ {
                position: Vect_ { x: 0, y: 0, z: 0 },
                color: Color_ {
                    r: CHANNEL_FULL,
                    g: CHANNEL_FULL,
                    b: CHANNEL_FULL,
                    special: 0,
                },
            }),
    {
        Light_ {
            position: Vect_ { x: 0, y: 0, z: 0 },
            color: Color_ { r: CHANNEL_FULL, g: CHANNEL_FULL, b: CHANNEL_FULL, special: 0 },
        }
    }
}

/// A half-line: where it starts and which way it goes. The direction may have
/// any length.
#[allow(non_camel_case_types)]
#[derive(Clone, Copy, Debug, PartialEq, Eq, Structural)]
pub struct Ray_ {
    pub origin: Vect_,
    pub direction: Vect_,
}

impl Ray_ {
    /// The ray from the origin along the positive x axis. The direction is in
    /// whole coordinates, and of length one in them.
    pub fn new() -> (r: Ray_)
        ensures
            r == (Ray_ {
                origin: Vect_ { x: 0, y: 0, z: 0 },
                direction: Vect_ { x: 1, y: 0, z: 0 },
            }),
            triple_dot(r.direction@, r.direction@) == 1,
    {
        Ray_ { origin: Vect_ { x: 0, y: 0, z: 0 }, direction: Vect_ { x: 1, y: 0, z: 0 } }
    }
}

/// What a scene is set up from.
pub struct SceneConfig {
    pub camera_pos: Vect_,
    pub look_at: Vect_,
    pub world_up: Vect_,
    pub lights: Vec<Light_>,
    pub background_color: Color_,
}

impl SceneConfig {
    /// The frame of the scene's camera, or the reason why the configuration
    /// gives none.
    pub fn camera(&self) -> (r: Result<Camera_, GeometryError>)
        ensures
            is_unit_frame_of(self.camera_pos, self.look_at, self.world_up, r),
    {
        Camera_::derive(self.camera_pos, self.look_at, self.world_up)
    }
}

} // verus!
