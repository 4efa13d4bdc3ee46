//! The blob: a touch region with an orientation and a shape.

use vstd::prelude::*;
use crate::cursor::{Position, Velocity, ZERO};

verus! {

/// A touch region: where it is, how it lies, how large it is, and how it
/// moves and turns. Angles are in radians, turning in turns per second,
/// extents normalized.
#[derive(Debug, Clone, Copy, PartialEq, Eq, Structural)]
pub struct Blob {
    pub session_id: i32,
    pub position: Position,
    pub velocity: Velocity,
    pub acceleration: u32,
    pub angle: u32,
    pub rotation_speed: u32,
    pub rotation_acceleration: u32,
    pub width: u32,
    pub height: u32,
    pub area: u32,
}

impl Blob {
    /// The blob that `new` builds: as observed, at rest.
    pub open spec fn fresh(
        session_id: i32,
        position: Position,
        angle: u32,
        width: u32,
        height: u32,
        area: u32,
    ) -> Blob {
        Blob {
            session_id,
            position,
            velocity: Velocity::rest(),
            acceleration: ZERO,
            angle,
            rotation_speed: ZERO,
            rotation_acceleration: ZERO,
            width,
            height,
            area,
        }
    }

    /// A blob seen for the first time: as observed, neither moving nor
    /// turning.
    pub fn new(
        session_id: i32,
        position: Position,
        angle: u32,
        width: u32,
        height: u32,
        area: u32,
    ) -> (b: Blob)
        ensures
            b == Blob::fresh(session_id, position, angle, width, height, area),
    {
        Blob {
            session_id,
            position,
            velocity: Velocity::default(),
            acceleration: ZERO,
            angle,
            rotation_speed: ZERO,
            rotation_acceleration: ZERO,
            width,
            height,
            area,
        }
    }

    /// This blob with the given motion in place of its own.
    pub fn with_motion(
        self,
        velocity: Velocity,
        rotation_speed: u32,
        acceleration: u32,
        rotation_acceleration: u32,
    ) -> (b: Blob)
        ensures
            b == (Blob { velocity, rotation_speed, acceleration, rotation_acceleration, ..self }),
    {
        Blob { velocity, rotation_speed, acceleration, rotation_acceleration, ..self }
    }

    pub fn get_session_id(&self) -> (r: i32)
        ensures
            r == self.session_id,
    {
        self.session_id
    }

    pub fn get_position(&self) -> (r: &Position)
        ensures
            *r == self.position,
    {
        &self.position
    }

    pub fn get_x_position(&self) -> (r: u32)
        ensures
            r == self.position.x,
    {
        self.position.x
    }

    pub fn get_y_position(&self) -> (r: u32)
        ensures
            r == self.position.y,
    {
        self.position.y
    }

    pub fn get_velocity(&self) -> (r: &Velocity)
        ensures
            *r == self.velocity,
    {
        &self.velocity
    }

    pub fn get_x_velocity(&self) -> (r: u32)
        ensures
            r == self.velocity.x,
    {
        self.velocity.x
    }

    pub fn get_y_velocity(&self) -> (r: u32)
        ensures
            r == self.velocity.y,
    {
        self.velocity.y
    }

    pub fn get_acceleration(&self) -> (r: u32)
        ensures
            r == self.acceleration,
    {
        self.acceleration
    }

    /// The angle, in radians.
    pub fn get_angle(&self) -> (r: u32)
        ensures
            r == self.angle,
    {
        self.angle
    }

    /// The rotation speed, in turns per second.
    pub fn get_rotation_speed(&self) -> (r: u32)
        ensures
            r == self.rotation_speed,
    {
        self.rotation_speed
    }

    /// The rotation acceleration, in turns per second squared.
    pub fn get_rotation_acceleration(&self) -> (r: u32)
        ensures
            r == self.rotation_acceleration,
    {
        self.rotation_acceleration
    }

    pub fn get_width(&self) -> (r: u32)
        ensures
            r == self.width,
    {
        self.width
    }

    pub fn get_height(&self) -> (r: u32)
        ensures
            r == self.height,
    {
        self.height
    }

    pub fn get_area(&self) -> (r: u32)
        ensures
            r == self.area,
    {
        self.area
    }
}

} // verus!
