//! The object: a tagged marker with an orientation.

use vstd::prelude::*;
use crate::cursor::{Position, Velocity, ZERO};

verus! {

/// A rigid marker: which class of marker it is, where it is, how it lies,
/// and how it moves and turns.
#[derive(Debug, Clone, Copy, PartialEq, Eq, Structural)]
pub struct Object {
    pub session_id: i32,
    pub class_id: i32,
    pub position: Position,
    pub velocity: Velocity,
    pub acceleration: u32,
    pub angle: u32,
    pub rotation_speed: u32,
    pub rotation_acceleration: u32,
}

impl Object {
    /// The object that `new` builds: as observed, at rest.
    pub open spec fn fresh(session_id: i32, class_id: i32, position: Position, angle: u32) -> Object {
        Object {
            session_id,
            class_id,
            position,
            velocity: Velocity::rest(),
            acceleration: ZERO,
            angle,
            rotation_speed: ZERO,
            rotation_acceleration: ZERO,
        }
    }

    /// An object seen for the first time: as observed, neither moving nor
    /// turning.
    pub fn new(session_id: i32, class_id: i32, position: Position, angle: u32) -> (o: Object)
        ensures
            o == Object::fresh(session_id, class_id, position, angle),
    {
        Object {
            session_id,
            class_id,
            position,
            velocity: Velocity::default(),
            acceleration: ZERO,
            angle,
            rotation_speed: ZERO,
            rotation_acceleration: ZERO,
        }
    }

    /// This object with the given motion in place of its own.
    pub fn with_motion(
        self,
        velocity: Velocity,
        rotation_speed: u32,
        acceleration: u32,
        rotation_acceleration: u32,
    ) -> (o: Object)
        ensures
            o == (Object { velocity, rotation_speed, acceleration, rotation_acceleration, ..self }),
    {
        Object { velocity, rotation_speed, acceleration, rotation_acceleration, ..self }
    }

    pub fn get_session_id(&self) -> (r: i32)
        ensures
            r == self.session_id,
    {
        self.session_id
    }

    pub fn get_class_id(&self) -> (r: i32)
        ensures
            r == self.class_id,
    {
        self.class_id
    }

    pub fn get_position(&self) -> (r: &Position)
        ensures
            *r == self.position,
    {
        &self.position
    }

    pub fn get_velocity(&self) -> (r: &Velocity)
        ensures
            *r == self.velocity,
    {
        &self.velocity
    }

    pub fn get_acceleration(&self) -> (r: u32)
        ensures
            r == self.acceleration,
    {
        self.acceleration
    }

    /// The angle, in radians.
    pub fn get_angle(&self) -> (r: u32)
        ensures
            r == self.angle,
    {
        self.angle
    }

    /// The rotation speed, in turns per second.
    pub fn get_rotation_speed(&self) -> (r: u32)
        ensures
            r == self.rotation_speed,
    {
        self.rotation_speed
    }

    /// The rotation acceleration, in turns per second squared.
    pub fn get_rotation_acceleration(&self) -> (r: u32)
        ensures
            r == self.rotation_acceleration,
    {
        self.rotation_acceleration
    }
}

} // verus!
