//! The numbers that fix the nets, the solver and the contacts.

use crate::scalar::{half, one, zero, Scalar};
use crate::vector::Vec3;
use vstd::prelude::*;

verus! {

/// The grid size of a demo that nobody has chosen one for.
pub const DEFAULT_GRID_SIZE: usize = 10;

/// How many projection rounds one step runs.
pub const COROTATED_ITERATIONS: usize = 24;

/// How many rounds the closest rotation takes.
pub const POLAR_NEWTON_ITERATIONS: usize = 2;

/// How often a projection round treats the contacts.
pub const CONTACT_PASSES: usize = 2;

/// How many net bodies share one bounding box.
pub const CONTACT_PROXY_CHUNK_SIZE: usize = 32;

/// The distance between neighbouring hubs.
#[verifier::allow_in_spec]
pub fn grid_spacing<S: Scalar>() -> (result: S)
    returns
        S::fraction(55, 100),
{
    S::from_fraction(55, 100)
}

/// The step rate that the damping is given for.
#[verifier::allow_in_spec]
pub fn default_fixed_hz<S: Scalar>() -> (result: S)
    returns
        S::fraction(30, 1),
{
    S::from_fraction(30, 1)
}

/// How much of its velocity a body keeps over one step at the default rate.
#[verifier::allow_in_spec]
pub fn velocity_damping_at_default_hz<S: Scalar>() -> (result: S)
    returns
        S::fraction(997, 1000),
{
    S::from_fraction(997, 1000)
}

/// The stiffness that pulls a body back to its rigid shape.
#[verifier::allow_in_spec]
pub fn affine_stiffness<S: Scalar>() -> (result: S)
    returns
        S::fraction(12000, 1),
{
    S::from_fraction(12000, 1)
}

/// What the squares of lengths and the inverse weights of contacts count as zero up to.
#[verifier::allow_in_spec]
pub fn contact_epsilon<S: Scalar>() -> (result: S)
    returns
        S::fraction(1, 1000000000000),
{
    S::from_fraction(1, 1000000000000)
}

/// What determinants count as zero up to.
#[verifier::allow_in_spec]
pub fn polar_epsilon<S: Scalar>() -> (result: S)
    returns
        S::fraction(1, 1000000000000),
{
    S::from_fraction(1, 1000000000000)
}

/// The radius of a hub.
#[verifier::allow_in_spec]
pub fn hub_radius<S: Scalar>() -> (result: S)
    returns
        S::single_fraction(75, 1000),
{
    S::from_single_fraction(75, 1000)
}

/// The thickness of a rod.
#[verifier::allow_in_spec]
pub fn rod_thickness<S: Scalar>() -> (result: S)
    returns
        S::single_fraction(55, 1000),
{
    S::from_single_fraction(55, 1000)
}

/// The part of the distance between its hubs that a rod fills.
#[verifier::allow_in_spec]
pub fn rod_length_factor<S: Scalar>() -> (result: S)
    returns
        S::single_fraction(78, 100),
{
    S::from_single_fraction(78, 100)
}

/// The radius of a falling ball.
#[verifier::allow_in_spec]
pub fn ball_radius<S: Scalar>() -> (result: S)
    returns
        S::single_fraction(34, 100),
{
    S::from_single_fraction(34, 100)
}

/// The radius of the cylinder.
#[verifier::allow_in_spec]
pub fn cylinder_radius<S: Scalar>() -> (result: S)
    returns
        S::single_fraction(70, 100),
{
    S::from_single_fraction(70, 100)
}

/// The length of the cylinder under the default grid.
#[verifier::allow_in_spec]
pub fn default_cylinder_length<S: Scalar>() -> (result: S)
    returns
        S::single_fraction(580, 100),
{
    S::from_single_fraction(580, 100)
}

/// Half of what the rods leave free of the distance between their hubs.
#[verifier::allow_in_spec]
pub fn rod_collider_trim<S: Scalar>() -> (result: S)
    returns
        one::<S>().minus(rod_length_factor()).times(half()),
{
    one::<S>().sub(rod_length_factor()).mul(half())
}

/// The acceleration that every free body is under.
#[verifier::allow_in_spec]
pub fn gravity<S: Scalar>() -> (result: Vec3<S>)
    returns
        (Vec3::<S> { x: zero(), y: S::fraction(981, 100).negated(), z: zero() }),
{
    Vec3 { x: zero(), y: S::from_fraction(981, 100).neg(), z: zero() }
}

} // verus!
