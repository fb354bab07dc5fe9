use crate::ecs::component::Component;
use crate::math::{Quat, Vec3};
use vstd::prelude::*;

verus! {

/// Position, rotation and scale of an entity in space.
#[derive(Debug, Clone, Copy, PartialEq)]
pub struct Transform {
    pub position: Vec3,
    pub rotation: Quat,
    pub scale: Vec3,
}

impl Transform {
    pub fn new(position: Vec3, rotation: Quat, scale: Vec3) -> (r: Self)
        ensures
            r == (Transform { position, rotation, scale }),
    {
        Transform { position, rotation, scale }
    }

    pub open spec fn spec_identity() -> Transform {
        Transform {
            position: Vec3::spec_zero(),
            rotation: Quat::spec_identity(),
            scale: Vec3::spec_one(),
        }
    }

    /// The transform that changes nothing: no translation, no rotation, scale one.
    #[verifier::when_used_as_spec(spec_identity)]
    pub fn identity() -> (r: Self)
        ensures
            r == Self::spec_identity(),
    {
        Transform { position: Vec3::zero(), rotation: Quat::identity(), scale: Vec3::one() }
    }

    /// The identity transform moved to a position.
    pub fn from_position(position: Vec3) -> (r: Self)
        ensures
            r == (Transform { position, ..Self::spec_identity() }),
    {
        Transform { position, rotation: Quat::identity(), scale: Vec3::one() }
    }
}

impl Default for Transform {
    fn default() -> (r: Self)
        ensures
            r == Self::spec_identity(),
    {
        Transform::identity()
    }
}

impl Component for Transform {

}

} // verus!
