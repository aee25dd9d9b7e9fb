use moreau_jean::body::{BodyDofs, BodySet};
use moreau_jean::constraint::Sign;
use moreau_jean::jacobian::Region;
use moreau_jean::joints::{JointSummary, ManifoldSummary};
use moreau_jean::solver::MoreauJeanSolver;
use moreau_jean::sweep::sweep_order;
use slab::Slab;

const DT: f64 = 1.0 / 60.0;
const GRAVITY: f64 = -9.81;
const MASS: f64 = 1.0;
const ALLOWED_LINEAR_ERROR: f64 = 0.001;
const MAX_LINEAR_CORRECTION: f64 = 0.2;

struct Fall {
    height: f64,
    velocity: f64,
}

/// One tick of a box with a single vertical degree of freedom above a fixed
/// ground at height zero. Returns the normal impulse, if there was contact.
fn tick(fall: &mut Fall, solver: &mut MoreauJeanSolver) -> Option<f64> {
    let mut bodies = BodySet::new();
    let ground = bodies.insert(BodyDofs {
        ndofs: 0,
        status_dependent_ndofs: 0,
        active_internal_constraints: false,
        companion_id: 0,
    });
    let falling = bodies.insert(BodyDofs {
        ndofs: 1,
        status_dependent_ndofs: 1,
        active_internal_constraints: false,
        companion_id: 0,
    });
    let joints: Slab<JointSummary> = Slab::new();
    let mut manifolds = Vec::new();
    if fall.height <= 0.0 {
        manifolds.push(ManifoldSummary { body1: falling, body2: ground, num_velocity_constraints: 1 });
    }
    assert_eq!(solver.step(&mut bodies, &joints, &manifolds, &[falling]), Ok(()));
    assert_eq!(solver.system_ndofs, 1);

    let id = bodies.body(falling).unwrap().companion_id;
    let mut ext_vels = vec![0.0; solver.system_ndofs];
    ext_vels[id] = DT * GRAVITY;
    let mut mj_lambda = vec![0.0; solver.system_ndofs];
    let mut jacobians = vec![0.0; solver.constraints.sizes.total()];
    let rows = &solver.constraints.velocity;
    assert_eq!(rows.len(), manifolds.len());
    for c in rows {
        assert_eq!((c.sign, c.region), (Sign::Unilateral, Region::Ground));
        assert_eq!((c.ndofs1, c.ndofs2), (1, 0));
        jacobians[c.jacobian.offset] = 1.0;
        jacobians[c.weighted_jacobian.offset] = 1.0 / MASS;
    }

    let mut impulses = vec![0.0; rows.len()];
    for _ in 0..8 {
        for at in sweep_order(&solver.constraints) {
            let c = &rows[at];
            let j = jacobians[c.jacobian.offset];
            let wj = jacobians[c.weighted_jacobian.offset];
            let dvel = j * (fall.velocity + ext_vels[c.assembly_id1] + mj_lambda[c.assembly_id1]);
            let impulse = f64::max(0.0, impulses[at] - dvel / (j * wj));
            mj_lambda[c.assembly_id1] += wj * (impulse - impulses[at]);
            impulses[at] = impulse;
        }
    }

    fall.velocity += ext_vels[id] + mj_lambda[id];
    fall.height += DT * fall.velocity;
    if fall.height < -ALLOWED_LINEAR_ERROR {
        fall.height += f64::min(MAX_LINEAR_CORRECTION, -ALLOWED_LINEAR_ERROR - fall.height);
    }
    impulses.first().copied()
}

#[test]
fn falling_box_on_static_ground() {
    let mut fall = Fall { height: 1.0, velocity: 0.0 };
    let mut solver = MoreauJeanSolver::new();
    let mut first_contact = None;
    let mut speeds = Vec::new();
    for step in 0..120 {
        let impulse = tick(&mut fall, &mut solver);
        if let Some(impulse) = impulse {
            assert!(impulse >= 0.0);
            first_contact.get_or_insert(step);
            speeds.push(fall.velocity.abs());
        }
        if let Some(at) = first_contact {
            if step >= at + 2 {
                assert!(-fall.height <= ALLOWED_LINEAR_ERROR + 1e-12);
            }
        }
    }
    let at = first_contact.expect("the box reaches the ground");
    assert!(at > 20 && at < 40);
    assert!(speeds.len() > 50);
    for pair in speeds.windows(2) {
        assert!(pair[1] <= pair[0] + 1e-12);
    }
    assert!(speeds.last().unwrap().abs() < 1e-9);
}
