//! Steps whose joint solve goes by multipliers.

use crate::body::{body_only_moved, only_moved, AffineBody};
use crate::constants::{COROTATED_ITERATIONS, POLAR_NEWTON_ITERATIONS};
use crate::dual::{
    apply_joint_correction, body_with_multipliers, finalize_joint_residuals, hub_forces_of,
    joint_multiplier, neighbor_sums, pair_rod_weight, prepare_direct_joint_solver_reference,
    rod_weight_sum, solve_dual_direct, DualScratch,
};
use crate::gather::joint_residuals;
use crate::grid::{
    hub_count, hub_total, joint_hub, joint_total, lemma_counts, lemma_joint_is_neighbor, rod_total,
};
use crate::joints::schur_factor;
use crate::net::net_joint;
use crate::scalar::Scalar;
use crate::simulation::{
    begun, contacted, layout, lemma_laid_out, shaped, standard_variant, Motion, NetSimulation,
    Setup,
};
use crate::vector::Vec3;
use vstd::prelude::*;

verus! {

/// What the solve by multipliers needs of the coefficients: the resistance of each rod and
/// what couples the joints of each hub.
#[verifier::ext_equal]
pub struct DualCoefficients<S> {
    pub rod_weights: Seq<S>,
    pub hub_factors: Seq<S>,
}

/// The coefficients of the solve by multipliers of a net.
pub open spec fn dual_coefficients<S: Scalar>(
    setup: Setup<S>,
    bodies: Seq<AffineBody<S>>,
) -> DualCoefficients<S> {
    let n = setup.grid_size as int;
    DualCoefficients {
        rod_weights: Seq::new(
            rod_total(n) as nat,
            |i: int| pair_rod_weight(bodies, setup.joints, i),
        ),
        hub_factors: Seq::new(
            hub_total(n) as nat,
            |hub: int|
                schur_factor(
                    bodies[hub],
                    rod_weight_sum(bodies, setup.joints, joint_total(n), hub),
                ),
        ),
    }
}

/// The hubs of the joints of a net.
pub open spec fn joint_hubs(n: int) -> Seq<usize> {
    Seq::new(joint_total(n) as nat, |joint: int| joint_hub(n, joint) as usize)
}

/// The multipliers of all joints.
pub open spec fn multipliers<S: Scalar>(
    residuals: Seq<Vec3<S>>,
    coefficients: DualCoefficients<S>,
    n: int,
) -> Seq<Vec3<S>> {
    let hub_sums = neighbor_sums(
        n,
        |joint: int| residuals[joint].scaled(coefficients.rod_weights[joint / 2]),
    );
    Seq::new(
        joint_total(n) as nat,
        |joint: int|
            joint_multiplier(
                residuals,
                hub_sums,
                coefficients.rod_weights,
                coefficients.hub_factors,
                joint_hubs(n),
                joint,
            ),
    )
}

/// The motion after the joint solve by multipliers.
pub open spec fn dual_jointed<S: Scalar>(
    setup: Setup<S>,
    motion: Motion<S>,
    coefficients: DualCoefficients<S>,
) -> Motion<S> {
    let n = setup.grid_size as int;
    let residuals = joint_residuals(motion.residuals, motion.hubs, n);
    let solution = multipliers(residuals, coefficients, n);
    Motion {
        bodies: Seq::new(
            motion.bodies.len(),
            |i: int| body_with_multipliers(motion.bodies[i], i, solution, n),
        ),
        residuals,
        hubs: hub_forces_of(solution, n),
        ..motion
    }
}

/// The motion after `rounds` rounds of projections whose joint solve goes by multipliers.
pub open spec fn dual_projected<S: Scalar>(
    setup: Setup<S>,
    motion: Motion<S>,
    coefficients: DualCoefficients<S>,
    rounds: nat,
) -> Motion<S>
    decreases rounds,
{
    if rounds == 0 {
        motion
    } else {
        dual_projected(
            setup,
            contacted(
                setup,
                dual_jointed(setup, shaped(setup, motion, standard_variant()), coefficients),
            ),
            coefficients,
            (rounds - 1) as nat,
        )
    }
}

/// The joint solve by multipliers only moves bodies, and no fixed one.
pub proof fn lemma_dual_jointed<S: Scalar>(
    setup: Setup<S>,
    motion: Motion<S>,
    coefficients: DualCoefficients<S>,
)
    requires
        setup.well_formed(),
        motion.well_formed(setup),
    ensures
        dual_jointed(setup, motion, coefficients).well_formed(setup),
        only_moved(motion.bodies, dual_jointed(setup, motion, coefficients).bodies),
{
    let n = setup.grid_size as int;
    lemma_counts(n);
    let after = dual_jointed(setup, motion, coefficients).bodies;
    assert forall|i: int| 0 <= i < motion.bodies.len() implies body_only_moved(
        motion.bodies[i],
        #[trigger] after[i],
    ) by {
        assert(motion.bodies[i].fixed == layout(setup.scene, n, i).1);
    }
    lemma_laid_out(setup.scene, n, motion.bodies, after);
}

impl<S: Scalar> NetSimulation<S> {
    /// The joint solve of a round by multipliers.
    fn project_joints_by_multipliers(&mut self, dual: &mut DualScratch<S>)
        requires
            old(self).well_formed(),
            old(dual).solution@.len() == joint_total(old(self).grid_size as int),
            old(dual).joint_hub@ == joint_hubs(old(self).grid_size as int),
            old(dual).rod_inverse_weight@.len() == rod_total(old(self).grid_size as int),
            old(dual).hub_schur_factor@.len() == hub_total(old(self).grid_size as int),
        ensures
            final(self).setup() == old(self).setup(),
            final(self).motion() == dual_jointed(
                old(self).setup(),
                old(self).motion(),
                (DualCoefficients {
                    rod_weights: old(dual).rod_inverse_weight@,
                    hub_factors: old(dual).hub_schur_factor@,
                }),
            ),
            final(self).well_formed(),
            final(dual).solution@.len() == old(dual).solution@.len(),
            final(dual).joint_hub == old(dual).joint_hub,
            final(dual).rod_inverse_weight == old(dual).rod_inverse_weight,
            final(dual).hub_schur_factor == old(dual).hub_schur_factor,
    {
        let ghost setup = self.setup();
        let ghost start = self.motion();
        let ghost coefficients = DualCoefficients {
            rod_weights: dual.rod_inverse_weight@,
            hub_factors: dual.hub_schur_factor@,
        };
        let ghost n = self.grid_size as int;
        proof {
            lemma_dual_jointed(setup, start, coefficients);
            lemma_counts(n);
            assert forall|i: int| 0 <= i < joint_total(n) implies (#[trigger] dual.joint_hub@[i])
                < hub_total(n) && dual.joint_hub@[i] == joint_hub(n, i) by {
                lemma_joint_is_neighbor(n, i);
            }
        }
        finalize_joint_residuals(
            self.solver_scratch.constraint_residual.as_mut_slice(),
            self.solver_scratch.hub_weighted_residual.as_slice(),
            dual.joint_hub.as_slice(),
        );
        assert(self.solver_scratch.constraint_residual@ =~= joint_residuals(
            start.residuals,
            start.hubs,
            n,
        ));
        solve_dual_direct(
            self.solver_scratch.constraint_residual.as_slice(),
            self.solver_scratch.hub_weighted_residual.as_mut_slice(),
            dual,
            self.grid_size,
        );
        assert(dual.solution@ =~= multipliers(
            joint_residuals(start.residuals, start.hubs, n),
            coefficients,
            n,
        ));
        apply_joint_correction(
            self.bodies.as_mut_slice(),
            dual.solution.as_slice(),
            self.solver_scratch.hub_weighted_residual.as_mut_slice(),
            self.grid_size,
        );
        assert(self.motion() =~= dual_jointed(setup, start, coefficients));
    }

    /// One step of length `dt` whose joint solve goes by multipliers.
    pub fn step_with_dual_projection(&mut self, dt: S)
        requires
            old(self).well_formed(),
        ensures
            final(self).setup() == old(self).setup(),
            ({
                let start = begun(old(self).setup(), old(self).motion(), dt);
                final(self).motion() == dual_projected(
                    old(self).setup(),
                    start,
                    dual_coefficients(old(self).setup(), start.bodies),
                    COROTATED_ITERATIONS as nat,
                )
            }),
            final(self).well_formed(),
    {
        let ghost setup = self.setup();
        let ghost start = begun(setup, self.motion(), dt);
        let ghost coefficients = dual_coefficients(setup, start.bodies);
        let ghost n = self.grid_size as int;
        self.begin_step(dt);
        proof {
            lemma_counts(n);
            assert forall|i: int| 0 <= i < self.joints@.len() implies (
            #[trigger] self.joints@[i]).a.body < self.bodies@.len() && self.joints@[i].b.body
                < hub_total(n) && self.joints@[i].b.body == joint_hub(n, i) by {
                lemma_joint_is_neighbor(n, i);
                assert(self.joints@[i] == net_joint::<S>(n, i));
            }
        }
        let hubs: usize = hub_count(self.grid_size);
        let mut dual = DualScratch::new(self.joints.as_slice(), hubs);
        assert(dual.joint_hub@ =~= joint_hubs(n));
        prepare_direct_joint_solver_reference(
            self.bodies.as_slice(),
            self.joints.as_slice(),
            &mut dual,
        );
        assert(dual.rod_inverse_weight@ =~= coefficients.rod_weights);
        assert(dual.hub_schur_factor@ =~= coefficients.hub_factors);
        let mut round: usize = 0;
        while round < COROTATED_ITERATIONS
            invariant
                round <= COROTATED_ITERATIONS,
                self.well_formed(),
                self.setup() == setup,
                n == setup.grid_size,
                dual.solution@.len() == joint_total(n),
                dual.joint_hub@ == joint_hubs(n),
                dual.rod_inverse_weight@ == coefficients.rod_weights,
                dual.hub_schur_factor@ == coefficients.hub_factors,
                dual.rod_inverse_weight@.len() == rod_total(n),
                dual.hub_schur_factor@.len() == hub_total(n),
                dual_projected(
                    setup,
                    self.motion(),
                    coefficients,
                    (COROTATED_ITERATIONS - round) as nat,
                ) == dual_projected(setup, start, coefficients, COROTATED_ITERATIONS as nat),
            decreases COROTATED_ITERATIONS - round,
        {
            self.project_shapes::<POLAR_NEWTON_ITERATIONS, true, true>();
            self.project_joints_by_multipliers(&mut dual);
            self.project_contacts::<true>();
            round = round + 1;
        }
    }
}

} // verus!
