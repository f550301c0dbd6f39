use vstd::prelude::*;

verus! {

/// The 2D vector of the game engine's math library (two `f32`).
#[verifier::external_type_specification]
#[verifier::external_body]
pub struct ExVec2(glam::Vec2);

/// The 3D vector of the game engine's math library (three `f32`).
#[verifier::external_type_specification]
#[verifier::external_body]
pub struct ExVec3(glam::Vec3);

/// Calls glam's `Sub for Vec3`: the component-wise `f32` difference
/// `a - b`. Nothing is claimed of the result: floating-point results are
/// not stated in this library (a NaN component, for one, has a sign and
/// payload that std leaves unspecified).
#[verifier::external_body]
pub(crate) fn vec3_sub(a: glam::Vec3, b: glam::Vec3) -> (r: glam::Vec3) {
    a - b
}

/// Calls glam's `Vec2::new` with the `x` and `y` fields of `v`. Nothing is
/// claimed of the result, which is made of `f32` values.
#[verifier::external_body]
pub(crate) fn vec3_to_xy(v: glam::Vec3) -> (r: glam::Vec2) {
    glam::Vec2::new(v.x, v.y)
}

} // verus!
