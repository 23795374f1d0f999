//! Contacts of the net with a fixed cylinder along x.

use crate::attachment::{
    collider_end, collider_start, interpolate_weights, point_of, safe_normal, static_push,
};
use crate::body::{hub_center, rod_radius, weighted_point, AffineBody, BodyKind, ControlPoints, Weights};
use crate::constants::{contact_epsilon, hub_radius, CONTACT_PASSES};
use crate::joints::Attachment;
use crate::scalar::{clamp_to_unit, half, zero, Scalar};
use crate::vector::Vec3;
use vstd::prelude::*;

verus! {

/// A cylinder that collides, round a line along x through its origin.
#[derive(Clone, Copy)]
pub struct CylinderCollider<S> {
    pub origin: Vec3<S>,
    pub axis: Vec3<S>,
    pub radius: S,
    pub length: S,
}

/// What is left of a vector without its part along x.
#[verifier::allow_in_spec]
pub fn reject_from_x_axis<S: Scalar>(vector: Vec3<S>) -> (result: Vec3<S>)
    returns
        (Vec3::<S> { x: zero(), y: vector.y, z: vector.z }),
{
    Vec3 { x: zero(), y: vector.y, z: vector.z }
}

/// A body pushed out of the cylinder at a point that lies inside it, and whether it was.
/// The push goes along `radial`; where that is too short, along where the point was before
/// the step; where that is too short as well, upwards.
#[verifier::allow_in_spec]
pub fn penetrating_push<S: Scalar>(
    body: AffineBody<S>,
    previous: ControlPoints<S>,
    weights: Weights<S>,
    radial: Vec3<S>,
    distance_squared: S,
    contact_distance: S,
    cylinder_origin: Vec3<S>,
) -> (result: (AffineBody<S>, bool))
    returns
        ({
            let distance = distance_squared.root();
            let normal = if contact_epsilon::<S>().below(distance_squared) {
                radial.over(distance)
            } else {
                safe_normal(
                    radial,
                    reject_from_x_axis(weighted_point(previous, weights).minus(cylinder_origin)),
                    Vec3::y_unit(),
                )
            };
            static_push(body, weights, normal, contact_distance.minus(distance))
        }),
{
    let distance = distance_squared.sqrt();
    let penetration = contact_distance.sub(distance);
    let normal = if contact_epsilon::<S>().lt(distance_squared) {
        radial.div(distance)
    } else {
        let previous_point = weighted_point(previous, weights);
        let previous_radial = reject_from_x_axis(previous_point.sub(cylinder_origin));
        safe_normal(radial, previous_radial, Vec3::unit_y())
    };
    static_push(body, weights, normal, penetration)
}

/// A body pushed out of the cylinder at one point, and whether it was.
#[verifier::allow_in_spec]
pub fn point_push<S: Scalar>(
    body: AffineBody<S>,
    previous: ControlPoints<S>,
    weights: Weights<S>,
    proxy_radius: S,
    cylinder_origin: Vec3<S>,
    cylinder_radius: S,
) -> (result: (AffineBody<S>, bool))
    returns
        ({
            let radial = reject_from_x_axis(point_of(body, weights).minus(cylinder_origin));
            let contact_distance = cylinder_radius.plus(proxy_radius);
            if contact_distance.times(contact_distance).at_most(radial.squared()) {
                (body, false)
            } else {
                penetrating_push(
                    body,
                    previous,
                    weights,
                    radial,
                    radial.squared(),
                    contact_distance,
                    cylinder_origin,
                )
            }
        }),
{
    let position = weighted_point(body.positions, weights);
    let radial = reject_from_x_axis(position.sub(cylinder_origin));
    let contact_distance = cylinder_radius.add(proxy_radius);
    let distance_squared = radial.length_squared();
    if contact_distance.mul(contact_distance).le(distance_squared) {
        return (body, false);
    }
    penetrating_push(
        body,
        previous,
        weights,
        radial,
        distance_squared,
        contact_distance,
        cylinder_origin,
    )
}

pub fn project_attachment_against_cylinder<S: Scalar>(
    bodies: &mut [AffineBody<S>],
    previous_positions: &[ControlPoints<S>],
    attachment: Attachment<S>,
    proxy_radius: S,
    cylinder_origin: Vec3<S>,
    cylinder_radius: S,
) -> (applied: bool)
    requires
        attachment.body < old(bodies)@.len(),
        attachment.body < previous_positions@.len(),
    ensures
        ({
            let push = point_push(
                old(bodies)@[attachment.body as int],
                previous_positions@[attachment.body as int],
                attachment.weights,
                proxy_radius,
                cylinder_origin,
                cylinder_radius,
            );
            &&& final(bodies)@ == old(bodies)@.update(attachment.body as int, push.0)
            &&& applied == push.1
        }),
{
    let (body, applied) = point_push(
        bodies[attachment.body],
        previous_positions[attachment.body],
        attachment.weights,
        proxy_radius,
        cylinder_origin,
        cylinder_radius,
    );
    bodies[attachment.body] = body;
    applied
}

/// A rod pushed out of the cylinder at its point closest to the cylinder's line, and whether
/// it was. A box around the rod that stays clear of the cylinder settles most cases.
pub open spec fn rod_push<S: Scalar>(
    body: AffineBody<S>,
    previous: ControlPoints<S>,
    cylinder: CylinderCollider<S>,
) -> (AffineBody<S>, bool) {
    let start = point_of(body, collider_start());
    let end = point_of(body, collider_end());
    let start_radial = reject_from_x_axis(start.minus(cylinder.origin));
    let direction_radial = reject_from_x_axis(end.minus(start));
    let contact_distance = cylinder.radius.plus(rod_radius());
    let midpoint = start_radial.plus(direction_radial.scaled(half()));
    let half_extents = direction_radial.magnitudes().scaled(half()).plus(
        Vec3::all(contact_distance),
    );
    let denominator = direction_radial.squared();
    let t = if contact_epsilon::<S>().below(denominator) {
        clamp_to_unit(start_radial.inner(direction_radial).negated().over(denominator))
    } else {
        half()
    };
    let radial = start_radial.plus(direction_radial.scaled(t));
    if half_extents.y.below(midpoint.y.magnitude()) || half_extents.z.below(midpoint.z.magnitude())
        || !radial.squared().below(contact_distance.times(contact_distance)) {
        (body, false)
    } else {
        penetrating_push(
            body,
            previous,
            interpolate_weights(collider_start(), collider_end(), t),
            radial,
            radial.squared(),
            contact_distance,
            cylinder.origin,
        )
    }
}

fn push_rod<S: Scalar>(
    body: AffineBody<S>,
    previous: ControlPoints<S>,
    cylinder: CylinderCollider<S>,
) -> (result: (AffineBody<S>, bool))
    ensures
        result == rod_push(body, previous, cylinder),
{
    let start_weights = collider_start();
    let end_weights = collider_end();
    let start_position = weighted_point(body.positions, start_weights);
    let end_position = weighted_point(body.positions, end_weights);
    let start_radial = reject_from_x_axis(start_position.sub(cylinder.origin));
    let direction = end_position.sub(start_position);
    let direction_radial = reject_from_x_axis(direction);
    let contact_distance = cylinder.radius.add(rod_radius());
    let radial_midpoint = start_radial.add(direction_radial.scale(half()));
    let radial_half_extents = direction_radial.abs().scale(half()).add(
        Vec3::splat(contact_distance),
    );
    if radial_half_extents.y.lt(radial_midpoint.y.abs()) || radial_half_extents.z.lt(
        radial_midpoint.z.abs(),
    ) {
        return (body, false);
    }
    let denominator = direction_radial.length_squared();
    let t = if contact_epsilon::<S>().lt(denominator) {
        clamp_to_unit(start_radial.dot(direction_radial).neg().div(denominator))
    } else {
        half()
    };
    let radial = start_radial.add(direction_radial.scale(t));
    let distance_squared = radial.length_squared();
    if distance_squared.lt(contact_distance.mul(contact_distance)) {
        penetrating_push(
            body,
            previous,
            interpolate_weights(start_weights, end_weights, t),
            radial,
            distance_squared,
            contact_distance,
            cylinder.origin,
        )
    } else {
        (body, false)
    }
}

/// A body pushed out of the cylinder, and whether it was. Balls pass through it.
pub open spec fn cylinder_contact<S: Scalar>(
    body: AffineBody<S>,
    previous: ControlPoints<S>,
    cylinder: CylinderCollider<S>,
) -> (AffineBody<S>, bool) {
    match body.kind {
        BodyKind::Hub { .. } => point_push(
            body,
            previous,
            hub_center(),
            hub_radius(),
            cylinder.origin,
            cylinder.radius,
        ),
        BodyKind::Rod => rod_push(body, previous, cylinder),
        BodyKind::Ball => (body, false),
    }
}

pub fn project_cylinder_contact_at_index<S: Scalar>(
    bodies: &mut [AffineBody<S>],
    previous_positions: &[ControlPoints<S>],
    body_index: usize,
    cylinder: CylinderCollider<S>,
) -> (applied: bool)
    requires
        body_index < old(bodies)@.len(),
        body_index < previous_positions@.len(),
    ensures
        ({
            let contact = cylinder_contact(
                old(bodies)@[body_index as int],
                previous_positions@[body_index as int],
                cylinder,
            );
            &&& final(bodies)@ == old(bodies)@.update(body_index as int, contact.0)
            &&& applied == contact.1
        }),
{
    let body = bodies[body_index];
    let previous = previous_positions[body_index];
    match body.kind {
        BodyKind::Hub { .. } => {
            let (pushed, applied) = point_push(
                body,
                previous,
                hub_center(),
                hub_radius(),
                cylinder.origin,
                cylinder.radius,
            );
            bodies[body_index] = pushed;
            applied
        },
        BodyKind::Rod => {
            let (pushed, applied) = push_rod(body, previous, cylinder);
            bodies[body_index] = pushed;
            applied
        },
        BodyKind::Ball => {
            assert(bodies@ == old(bodies)@.update(body_index as int, body));
            false
        },
    }
}

/// A body after `passes` contacts with the cylinder.
pub open spec fn cylinder_contacts<S: Scalar>(
    body: AffineBody<S>,
    previous: ControlPoints<S>,
    cylinder: CylinderCollider<S>,
    passes: nat,
) -> AffineBody<S>
    decreases passes,
{
    if passes == 0 {
        body
    } else {
        cylinder_contacts(
            cylinder_contact(body, previous, cylinder).0,
            previous,
            cylinder,
            (passes - 1) as nat,
        )
    }
}

/// A contact that pushes nothing changes nothing.
pub proof fn lemma_no_contact_no_change<S: Scalar>(
    body: AffineBody<S>,
    previous: ControlPoints<S>,
    cylinder: CylinderCollider<S>,
)
    ensures
        !cylinder_contact(body, previous, cylinder).1 ==> cylinder_contact(
            body,
            previous,
            cylinder,
        ).0 == body,
{
}

/// After a contact that pushes nothing, no further contact changes anything.
pub proof fn lemma_contacts_stop<S: Scalar>(
    body: AffineBody<S>,
    previous: ControlPoints<S>,
    cylinder: CylinderCollider<S>,
    passes: nat,
)
    requires
        !cylinder_contact(body, previous, cylinder).1,
    ensures
        cylinder_contacts(body, previous, cylinder, passes) == body,
    decreases passes,
{
    lemma_no_contact_no_change(body, previous, cylinder);
    if passes > 0 {
        lemma_contacts_stop(body, previous, cylinder, (passes - 1) as nat);
    }
}

/// All bodies after `passes` contacts each with the cylinder.
pub open spec fn bodies_cylinder_contacts<S: Scalar>(
    bodies: Seq<AffineBody<S>>,
    previous: Seq<ControlPoints<S>>,
    cylinder: CylinderCollider<S>,
    passes: nat,
) -> Seq<AffineBody<S>> {
    Seq::new(
        bodies.len(),
        |i: int| cylinder_contacts(bodies[i], previous[i], cylinder, passes),
    )
}

/// One contact of every body with the cylinder.
pub fn project_cylinder_contacts<S: Scalar>(
    bodies: &mut [AffineBody<S>],
    previous_positions: &[ControlPoints<S>],
    cylinder: CylinderCollider<S>,
)
    requires
        old(bodies)@.len() == previous_positions@.len(),
    ensures
        final(bodies)@ == bodies_cylinder_contacts(
            old(bodies)@,
            previous_positions@,
            cylinder,
            1,
        ),
{
    proof {
        reveal_with_fuel(cylinder_contacts, 2);
    }
    let count: usize = bodies.len();
    let mut index: usize = 0;
    while index < count
        invariant
            index <= count,
            count == old(bodies)@.len(),
            bodies@.len() == count,
            previous_positions@.len() == count,
            forall|i: int|
                0 <= i < count ==> (#[trigger] bodies@[i]) == (if i < index {
                    cylinder_contact(old(bodies)@[i], previous_positions@[i], cylinder).0
                } else {
                    old(bodies)@[i]
                }),
        decreases count - index,
    {
        let _ = project_cylinder_contact_at_index(bodies, previous_positions, index, cylinder);
        index = index + 1;
    }
}

/// The contacts with the cylinder, one body after the other. The passes of a body end with
/// the first that pushes nothing.
pub fn project_cylinder_contacts_body_major<S: Scalar>(
    bodies: &mut [AffineBody<S>],
    previous_positions: &[ControlPoints<S>],
    cylinder: CylinderCollider<S>,
)
    requires
        old(bodies)@.len() == previous_positions@.len(),
    ensures
        final(bodies)@ == bodies_cylinder_contacts(
            old(bodies)@,
            previous_positions@,
            cylinder,
            CONTACT_PASSES as nat,
        ),
{
    let count: usize = bodies.len();
    let mut index: usize = 0;
    while index < count
        invariant
            index <= count,
            count == old(bodies)@.len(),
            bodies@.len() == count,
            previous_positions@.len() == count,
            forall|i: int|
                0 <= i < count ==> (#[trigger] bodies@[i]) == (if i < index {
                    cylinder_contacts(
                        old(bodies)@[i],
                        previous_positions@[i],
                        cylinder,
                        CONTACT_PASSES as nat,
                    )
                } else {
                    old(bodies)@[i]
                }),
        decreases count - index,
    {
        let ghost others = bodies@;
        let ghost body = bodies@[index as int];
        let ghost previous = previous_positions@[index as int];
        let mut passes: usize = 0;
        while passes < CONTACT_PASSES
            invariant_except_break
                passes <= CONTACT_PASSES,
                cylinder_contacts(
                    bodies@[index as int],
                    previous,
                    cylinder,
                    (CONTACT_PASSES - passes) as nat,
                ) == cylinder_contacts(body, previous, cylinder, CONTACT_PASSES as nat),
                index < count,
                previous == previous_positions@[index as int],
                others.len() == count,
                bodies@ == others.update(index as int, bodies@[index as int]),
                previous_positions@.len() == count,
            ensures
                bodies@ == others.update(
                    index as int,
                    cylinder_contacts(body, previous, cylinder, CONTACT_PASSES as nat),
                ),
            decreases CONTACT_PASSES - passes,
        {
            let ghost before = bodies@[index as int];
            proof {
                lemma_no_contact_no_change(before, previous, cylinder);
            }
            if !project_cylinder_contact_at_index(bodies, previous_positions, index, cylinder) {
                proof {
                    lemma_contacts_stop(
                        before,
                        previous,
                        cylinder,
                        (CONTACT_PASSES - passes) as nat,
                    );
                }
                break;
            }
            passes = passes + 1;
        }
        index = index + 1;
    }
}

/// The contacts with the cylinder, one pass after the other.
pub fn project_cylinder_contact_passes_pass_major<S: Scalar>(
    bodies: &mut [AffineBody<S>],
    previous_positions: &[ControlPoints<S>],
    cylinder: CylinderCollider<S>,
)
    requires
        old(bodies)@.len() == previous_positions@.len(),
    ensures
        final(bodies)@ == bodies_cylinder_contacts(
            old(bodies)@,
            previous_positions@,
            cylinder,
            CONTACT_PASSES as nat,
        ),
{
    let mut passes: usize = 0;
    while passes < CONTACT_PASSES
        invariant
            passes <= CONTACT_PASSES,
            bodies@.len() == old(bodies)@.len(),
            bodies@.len() == previous_positions@.len(),
            forall|i: int|
                0 <= i < bodies@.len() ==> cylinder_contacts(
                    #[trigger] bodies@[i],
                    previous_positions@[i],
                    cylinder,
                    (CONTACT_PASSES - passes) as nat,
                ) == cylinder_contacts(
                    old(bodies)@[i],
                    previous_positions@[i],
                    cylinder,
                    CONTACT_PASSES as nat,
                ),
        decreases CONTACT_PASSES - passes,
    {
        let ghost before = bodies@;
        project_cylinder_contacts(bodies, previous_positions, cylinder);
        proof {
            reveal_with_fuel(cylinder_contacts, 2);
            assert forall|i: int| 0 <= i < bodies@.len() implies cylinder_contacts(
                #[trigger] bodies@[i],
                previous_positions@[i],
                cylinder,
                (CONTACT_PASSES - passes - 1) as nat,
            ) == cylinder_contacts(
                old(bodies)@[i],
                previous_positions@[i],
                cylinder,
                CONTACT_PASSES as nat,
            ) by {
                let body = before[i];
                assert(bodies@[i] == cylinder_contact(body, previous_positions@[i], cylinder).0);
            }
        }
        passes = passes + 1;
    }
}

} // verus!
