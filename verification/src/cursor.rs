//! Points, velocities and the simplest tracked entity.
//!
//! Every real number here is held as the bit pattern of a 32-bit float, the
//! form in which it crosses the wire. The engine stores and compares these
//! patterns; arithmetic on them belongs to the host's motion model.

use vstd::prelude::*;

verus! {

/// The bit pattern of the float zero.
pub const ZERO: u32 = 0;

/// A point of the normalized surface.
#[derive(Debug, Clone, Copy, PartialEq, Eq, Structural)]
pub struct Position {
    pub x: u32,
    pub y: u32,
}

/// A velocity, in normalized units per second.
#[derive(Debug, Clone, Copy, PartialEq, Eq, Structural)]
pub struct Velocity {
    pub x: u32,
    pub y: u32,
}

impl Velocity {
    /// No motion at all.
    pub open spec fn rest() -> Velocity {
        Velocity { x: ZERO, y: ZERO }
    }
}

impl Default for Velocity {
    fn default() -> (v: Velocity)
        ensures
            v == Velocity::rest(),
    {
        Velocity { x: ZERO, y: ZERO }
    }
}

/// A touch point: where it is and how it moves.
#[derive(Debug, Clone, Copy, PartialEq, Eq, Structural)]
pub struct Cursor {
    pub session_id: i32,
    pub position: Position,
    pub velocity: Velocity,
    pub acceleration: u32,
}

impl Cursor {
    /// The cursor that `new` builds: as observed, at rest.
    pub open spec fn fresh(session_id: i32, position: Position) -> Cursor {
        Cursor { session_id, position, velocity: Velocity::rest(), acceleration: ZERO }
    }

    /// A cursor seen for the first time: at `position`, at rest.
    pub fn new(session_id: i32, position: Position) -> (c: Cursor)
        ensures
            c == Cursor::fresh(session_id, position),
    {
        Cursor { session_id, position, velocity: Velocity::default(), acceleration: ZERO }
    }

    /// This cursor with the given motion in place of its own.
    pub fn with_motion(self, velocity: Velocity, acceleration: u32) -> (c: Cursor)
        ensures
            c == (Cursor { velocity, acceleration, ..self }),
    {
        Cursor { velocity, acceleration, ..self }
    }

    pub fn get_session_id(&self) -> (r: i32)
        ensures
            r == self.session_id,
    {
        self.session_id
    }

    pub fn get_position(&self) -> (r: &Position)
        ensures
            *r == self.position,
    {
        &self.position
    }

    pub fn get_x_position(&self) -> (r: u32)
        ensures
            r == self.position.x,
    {
        self.position.x
    }

    pub fn get_y_position(&self) -> (r: u32)
        ensures
            r == self.position.y,
    {
        self.position.y
    }

    pub fn get_velocity(&self) -> (r: &Velocity)
        ensures
            *r == self.velocity,
    {
        &self.velocity
    }

    pub fn get_x_velocity(&self) -> (r: u32)
        ensures
            r == self.velocity.x,
    {
        self.velocity.x
    }

    pub fn get_y_velocity(&self) -> (r: u32)
        ensures
            r == self.velocity.y,
    {
        self.velocity.y
    }

    pub fn get_acceleration(&self) -> (r: u32)
        ensures
            r == self.acceleration,
    {
        self.acceleration
    }
}

} // verus!
