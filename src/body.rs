use vstd::prelude::*;

verus! {

/// Identifier of a host entity; owned by the host scene graph.
#[derive(Clone, Copy, PartialEq, Eq, Structural, Debug)]
pub struct Entity {
    pub id: u64,
}

/// Index of a rigid body in the backend's body arena.
#[derive(Clone, Copy, PartialEq, Eq, Structural, Debug)]
pub struct BodyHandle {
    pub index: u64,
}

/// Collision shape, with lengths in thousandths of a world unit.
#[derive(Clone, Copy, PartialEq, Eq, Structural, Debug)]
pub enum Shape {
    Ball { radius: u32 },
    Cuboid { half_x: u32, half_y: u32, half_z: u32 },
    Capsule { half_height: u32, radius: u32 },
}

/// How the backend moves a body.
#[derive(Clone, Copy, PartialEq, Eq, Structural, Debug)]
pub enum BodyKind {
    /// Moved by the solver; `mass` is in thousandths of a mass unit.
    Dynamic { mass: u32 },
    /// Moved by the host only.
    Kinematic,
    /// Never moves.
    Static,
}

/// The physics intent that a host entity carries: shape and mass.
#[derive(Clone, Copy, PartialEq, Eq, Structural, Debug)]
pub struct BodyDesc {
    pub shape: Shape,
    pub kind: BodyKind,
}

/// Why a body description was rejected.
#[derive(Clone, Copy, PartialEq, Eq, Structural, Debug)]
pub enum ConfigError {
    /// A radius, half extent or half height is zero.
    NonPositiveDimension,
    /// A dynamic body has zero mass.
    NonPositiveMass,
}

pub open spec fn shape_is_valid(s: Shape) -> bool {
    match s {
        Shape::Ball { radius } => radius > 0,
        Shape::Cuboid { half_x, half_y, half_z } => half_x > 0 && half_y > 0 && half_z > 0,
        Shape::Capsule { half_height, radius } => half_height > 0 && radius > 0,
    }
}

/// The error a description is rejected with, if any: the shape is checked
/// before the mass.
pub open spec fn desc_error(d: BodyDesc) -> Option<ConfigError> {
    if !shape_is_valid(d.shape) {
        Some(ConfigError::NonPositiveDimension)
    } else {
        match d.kind {
            BodyKind::Dynamic { mass } => if mass == 0 {
                Some(ConfigError::NonPositiveMass)
            } else {
                None
            },
            _ => None,
        }
    }
}

impl BodyDesc {
    /// Checks the description: `Ok` exactly when a body can be built from it.
    pub fn validate(&self) -> (r: Result<(), ConfigError>)
        ensures
            match desc_error(*self) {
                Some(e) => r == Err::<(), ConfigError>(e),
                None => r is Ok,
            },
    {
        let shape_ok = match self.shape {
            Shape::Ball { radius } => radius > 0,
            Shape::Cuboid { half_x, half_y, half_z } => half_x > 0 && half_y > 0 && half_z > 0,
            Shape::Capsule { half_height, radius } => half_height > 0 && radius > 0,
        };
        if !shape_ok {
            return Err(ConfigError::NonPositiveDimension);
        }
        match self.kind {
            BodyKind::Dynamic { mass } => {
                if mass == 0 {
                    Err(ConfigError::NonPositiveMass)
                } else {
                    Ok(())
                }
            },
            _ => Ok(()),
        }
    }
}

} // verus!
