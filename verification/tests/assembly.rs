use moreau_jean::body::{BodyDofs, BodySet};
use moreau_jean::constraint::{
    assemble_constraints, assemble_constraints_of, Constraint, JacobianRange, Sign, Source,
};
use moreau_jean::jacobian::{
    checked_rows_scalars, jacobian_sizes, jacobian_sizes_of, region_for, JacobianSizes, Region,
};
use moreau_jean::joints::{JointSummary, ManifoldSummary};
use moreau_jean::solver::{MoreauJeanSolver, Phase, StepError};
use slab::Slab;

fn body(ndofs: usize, dynamic: bool) -> BodyDofs {
    BodyDofs {
        ndofs,
        status_dependent_ndofs: if dynamic { ndofs } else { 0 },
        active_internal_constraints: false,
        companion_id: 0,
    }
}

fn joint(body1: usize, body2: usize, n: usize) -> JointSummary {
    JointSummary { active: true, body1, body2, num_velocity_constraints: n }
}

fn contact(body1: usize, body2: usize, n: usize) -> ManifoldSummary {
    ManifoldSummary { body1, body2, num_velocity_constraints: n }
}

fn overlap(a: &Constraint, b: &Constraint) -> bool {
    let a_end = a.weighted_jacobian.offset + a.weighted_jacobian.len;
    let b_end = b.weighted_jacobian.offset + b.weighted_jacobian.len;
    a.jacobian.offset < b_end && b.jacobian.offset < a_end
}

#[test]
fn region_follows_the_zero_test() {
    assert_eq!(region_for(0, 6), Region::Ground);
    assert_eq!(region_for(6, 0), Region::Ground);
    assert_eq!(region_for(0, 0), Region::Ground);
    assert_eq!(region_for(1, 1), Region::Paired);
}

#[test]
fn rows_take_two_rows_per_constraint() {
    assert_eq!(checked_rows_scalars(3, 6, 6), Some(72));
    assert_eq!(checked_rows_scalars(1, 6, 0), Some(12));
    assert_eq!(checked_rows_scalars(0, usize::MAX, usize::MAX), Some(0));
    assert_eq!(checked_rows_scalars(usize::MAX, 0, 0), Some(0));
    assert_eq!(checked_rows_scalars(1, usize::MAX, 1), None);
    assert_eq!(checked_rows_scalars(1, usize::MAX / 2 + 1, 0), None);
    assert_eq!(checked_rows_scalars(usize::MAX, 1, 0), None);
    assert_eq!(checked_rows_scalars(usize::MAX / 2, 1, 0), Some(usize::MAX - 1));
}

#[test]
fn sizes_split_by_region() {
    let mut bodies = BodySet::new();
    let a = bodies.insert(body(6, true));
    let b = bodies.insert(body(3, true));
    let g = bodies.insert(body(6, false));
    let joints = [joint(a, b, 5), joint(a, g, 2)];
    let manifolds = [contact(b, g, 4), contact(a, b, 1)];
    let sizes = jacobian_sizes_of(&bodies, &joints, &manifolds).unwrap();
    assert_eq!(sizes.paired, 5 * 2 * 9 + 1 * 2 * 9);
    assert_eq!(sizes.ground, 2 * 2 * 6 + 4 * 2 * 3);
    assert_eq!(sizes.total(), 156);
}

#[test]
fn inactive_joints_and_stale_handles_take_nothing() {
    let mut bodies = BodySet::new();
    let a = bodies.insert(body(6, true));
    let b = bodies.insert(body(3, true));
    let gone = bodies.insert(body(3, true));
    bodies.remove(gone);
    let idle = JointSummary { active: false, ..joint(a, b, 5) };
    let joints = [idle, joint(a, gone, 2), joint(77, a, 2)];
    let manifolds = [contact(gone, a, 4), contact(a, 78, 4)];
    let sizes = jacobian_sizes_of(&bodies, &joints, &manifolds).unwrap();
    assert_eq!(sizes, JacobianSizes { paired: 0, ground: 0 });
    let set = assemble_constraints_of(&bodies, &joints, &manifolds).unwrap();
    assert!(set.velocity.is_empty());
}

#[test]
fn sizes_that_do_not_fit_are_refused() {
    let mut bodies = BodySet::new();
    let a = bodies.insert(body(6, true));
    let b = bodies.insert(body(3, true));
    let g = bodies.insert(body(1, false));
    assert_eq!(jacobian_sizes_of(&bodies, &[joint(a, b, usize::MAX)], &[]), None);
    assert_eq!(jacobian_sizes_of(&bodies, &[], &[contact(a, b, usize::MAX / 2)]), None);
    let half = usize::MAX / 36;
    let joints = [joint(a, b, half)];
    assert!(jacobian_sizes_of(&bodies, &joints, &[]).is_some());
    let manifolds = [contact(a, g, half)];
    assert!(jacobian_sizes_of(&bodies, &[], &manifolds).is_some());
    assert_eq!(jacobian_sizes_of(&bodies, &joints, &[contact(a, b, 2 * half)]), None);
    assert_eq!(jacobian_sizes_of(&bodies, &joints, &[contact(a, g, 2 * half)]), None);
    let both = jacobian_sizes_of(&bodies, &joints, &manifolds).unwrap();
    assert_eq!(both.paired, half * 18);
    assert_eq!(both.ground, half * 12);
    assert!(assemble_constraints_of(&bodies, &[joint(a, b, usize::MAX)], &[]).is_none());
}

#[test]
fn slab_joints_are_read_in_key_order() {
    let mut bodies = BodySet::new();
    let a = bodies.insert(body(6, true));
    let b = bodies.insert(body(3, true));
    let g = bodies.insert(body(6, false));
    let mut joints = Slab::new();
    let first = joints.insert(joint(a, b, 1));
    let second = joints.insert(joint(a, g, 2));
    let _third = joints.insert(joint(b, a, 3));
    joints.remove(second);
    let again = joints.insert(joint(b, g, 1));
    assert_eq!(again, second);
    assert_eq!(first, 0);
    let sizes = jacobian_sizes(&bodies, &joints, &[]).unwrap();
    assert_eq!(sizes, JacobianSizes { paired: 18 + 54, ground: 6 });
    let set = assemble_constraints(&bodies, &joints, &[]).unwrap();
    assert_eq!(set.sizes, sizes);
    assert_eq!(set.velocity.len(), 5);
    assert_eq!(set.velocity[0].ndofs1, 6);
    assert_eq!(set.velocity[0].jacobian, JacobianRange { offset: 0, len: 9 });
    assert_eq!(set.velocity[1].region, Region::Ground);
    assert_eq!(set.velocity[1].jacobian, JacobianRange { offset: 72, len: 3 });
    assert_eq!(set.velocity[2].ndofs1, 3);
    assert_eq!(set.velocity[2].source, Source::Joint(2));
    assert_eq!(set.velocity[1].source, Source::Joint(1));
    assert_eq!(set.velocity[2].jacobian, JacobianRange { offset: 18, len: 9 });
    assert_eq!(set.velocity[4].weighted_jacobian, JacobianRange { offset: 63, len: 9 });
}

#[test]
fn empty_slab_takes_nothing() {
    let bodies = BodySet::new();
    let joints: Slab<JointSummary> = Slab::new();
    assert_eq!(jacobian_sizes(&bodies, &joints, &[]), Some(JacobianSizes { paired: 0, ground: 0 }));
}

#[test]
fn layout_packs_each_region_in_order() {
    let mut bodies = BodySet::new();
    let a = bodies.insert(BodyDofs { companion_id: 0, ..body(6, true) });
    let b = bodies.insert(BodyDofs { companion_id: 6, ..body(3, true) });
    let g = bodies.insert(body(6, false));
    let joints = [joint(a, b, 2), joint(g, b, 1)];
    let manifolds = [contact(a, g, 1), contact(b, a, 1)];
    let set = assemble_constraints_of(&bodies, &joints, &manifolds).unwrap();
    assert_eq!(set.sizes, JacobianSizes { paired: 54, ground: 18 });
    let expected = vec![
        Constraint {
            source: Source::Joint(0),
            sign: Sign::Bilateral,
            region: Region::Paired,
            assembly_id1: 0,
            assembly_id2: 6,
            ndofs1: 6,
            ndofs2: 3,
            jacobian: JacobianRange { offset: 0, len: 9 },
            weighted_jacobian: JacobianRange { offset: 9, len: 9 },
        },
        Constraint {
            source: Source::Joint(0),
            sign: Sign::Bilateral,
            region: Region::Paired,
            assembly_id1: 0,
            assembly_id2: 6,
            ndofs1: 6,
            ndofs2: 3,
            jacobian: JacobianRange { offset: 18, len: 9 },
            weighted_jacobian: JacobianRange { offset: 27, len: 9 },
        },
        Constraint {
            source: Source::Joint(1),
            sign: Sign::Bilateral,
            region: Region::Ground,
            assembly_id1: 0,
            assembly_id2: 6,
            ndofs1: 0,
            ndofs2: 3,
            jacobian: JacobianRange { offset: 54, len: 3 },
            weighted_jacobian: JacobianRange { offset: 57, len: 3 },
        },
        Constraint {
            source: Source::Manifold(0),
            sign: Sign::Unilateral,
            region: Region::Ground,
            assembly_id1: 0,
            assembly_id2: 0,
            ndofs1: 6,
            ndofs2: 0,
            jacobian: JacobianRange { offset: 60, len: 6 },
            weighted_jacobian: JacobianRange { offset: 66, len: 6 },
        },
        Constraint {
            source: Source::Manifold(1),
            sign: Sign::Unilateral,
            region: Region::Paired,
            assembly_id1: 6,
            assembly_id2: 0,
            ndofs1: 3,
            ndofs2: 6,
            jacobian: JacobianRange { offset: 36, len: 9 },
            weighted_jacobian: JacobianRange { offset: 45, len: 9 },
        },
    ];
    assert_eq!(set.velocity, expected);
}

#[test]
fn rows_never_overlap_nor_leave_their_region() {
    let mut bodies = BodySet::new();
    let mut handles = Vec::new();
    for n in 0..6usize {
        handles.push(bodies.insert(body(n + 1, n % 3 != 0)));
    }
    let mut joints = Vec::new();
    let mut manifolds = Vec::new();
    for i in 0..6usize {
        for k in 0..6usize {
            joints.push(joint(handles[i], handles[k], (i + k) % 3));
            manifolds.push(contact(handles[k], handles[i], (i * k) % 4));
        }
    }
    let set = assemble_constraints_of(&bodies, &joints, &manifolds).unwrap();
    let mut used = [0usize, 0usize];
    for (i, c) in set.velocity.iter().enumerate() {
        let end = c.weighted_jacobian.offset + c.weighted_jacobian.len;
        assert_eq!(c.jacobian.len, c.ndofs1 + c.ndofs2);
        assert_eq!(c.weighted_jacobian.offset, c.jacobian.offset + c.jacobian.len);
        match c.region {
            Region::Paired => {
                assert!(c.ndofs1 != 0 && c.ndofs2 != 0);
                assert!(end <= set.sizes.paired);
                used[0] += end - c.jacobian.offset;
            }
            Region::Ground => {
                assert!(c.ndofs1 == 0 || c.ndofs2 == 0);
                assert!(c.jacobian.offset >= set.sizes.paired);
                assert!(end <= set.sizes.total());
                used[1] += end - c.jacobian.offset;
            }
        }
        for d in &set.velocity[..i] {
            assert!(!overlap(c, d));
        }
    }
    assert_eq!(used[0], set.sizes.paired);
    assert_eq!(used[1], set.sizes.ground);
}

#[test]
fn resting_body_with_a_joint_gives_one_ground_and_one_paired_constraint() {
    let mut bodies = BodySet::new();
    let ground = bodies.insert(body(6, false));
    let resting = bodies.insert(body(6, true));
    let linked = bodies.insert(body(6, true));
    let mut joints = Slab::new();
    joints.insert(joint(resting, linked, 1));
    let manifolds = [contact(resting, ground, 1)];
    let mut solver = MoreauJeanSolver::new();
    assert_eq!(solver.step(&mut bodies, &joints, &manifolds, &[resting, linked]), Ok(()));
    assert_eq!(solver.system_ndofs, 12);
    let rows = &solver.constraints.velocity;
    assert_eq!(rows.len(), 2);
    let paired: Vec<&Constraint> = rows.iter().filter(|c| c.region == Region::Paired).collect();
    let grounded: Vec<&Constraint> = rows.iter().filter(|c| c.region == Region::Ground).collect();
    assert_eq!(paired.len(), 1);
    assert_eq!(grounded.len(), 1);
    assert_eq!(paired[0].sign, Sign::Bilateral);
    assert_eq!(paired[0].source, Source::Joint(0));
    assert_eq!(grounded[0].source, Source::Manifold(0));
    assert_eq!(grounded[0].sign, Sign::Unilateral);
    assert_eq!(solver.constraints.sizes, JacobianSizes { paired: 24, ground: 12 });
    assert_eq!(paired[0].jacobian, JacobianRange { offset: 0, len: 12 });
    assert_eq!(paired[0].weighted_jacobian, JacobianRange { offset: 12, len: 12 });
    assert_eq!(grounded[0].jacobian, JacobianRange { offset: 24, len: 6 });
    assert_eq!(grounded[0].weighted_jacobian, JacobianRange { offset: 30, len: 6 });
    assert!(!overlap(paired[0], grounded[0]));
    assert_eq!((paired[0].assembly_id1, paired[0].assembly_id2), (0, 6));
}

#[test]
fn new_solver_is_empty() {
    let solver = MoreauJeanSolver::new();
    assert!(solver.constraints.velocity.is_empty());
    assert_eq!(solver.constraints.sizes, JacobianSizes { paired: 0, ground: 0 });
    assert!(solver.internal_constraints.is_empty());
    assert_eq!(solver.system_ndofs, 0);
}

#[test]
fn step_sizes_the_state_vector() {
    let mut bodies = BodySet::new();
    let a = bodies.insert(BodyDofs { active_internal_constraints: true, ..body(30, true) });
    let b = bodies.insert(body(6, true));
    let joints: Slab<JointSummary> = Slab::new();
    let mut solver = MoreauJeanSolver::new();
    assert_eq!(solver.step(&mut bodies, &joints, &[], &[b, a]), Ok(()));
    assert_eq!(solver.system_ndofs, 36);
    assert_eq!(solver.internal_constraints, vec![a]);
    assert_eq!(bodies.body(a).unwrap().companion_id, 6);
    assert!(solver.constraints.velocity.is_empty());
}

#[test]
fn each_step_starts_afresh() {
    let mut bodies = BodySet::new();
    let a = bodies.insert(body(6, true));
    let b = bodies.insert(body(6, true));
    let mut joints = Slab::new();
    let key = joints.insert(joint(a, b, 3));
    let mut solver = MoreauJeanSolver::new();
    assert_eq!(solver.step(&mut bodies, &joints, &[], &[a, b]), Ok(()));
    assert_eq!(solver.constraints.velocity.len(), 3);
    let first = solver.constraints.velocity.clone();
    assert_eq!(solver.step(&mut bodies, &joints, &[], &[a, b]), Ok(()));
    assert_eq!(solver.constraints.velocity, first);
    joints.remove(key);
    assert_eq!(solver.step(&mut bodies, &joints, &[], &[a]), Ok(()));
    assert!(solver.constraints.velocity.is_empty());
    assert_eq!(solver.system_ndofs, 6);
}

#[test]
fn step_refuses_a_fixed_body_in_the_island() {
    let mut bodies = BodySet::new();
    let a = bodies.insert(BodyDofs { companion_id: 5, ..body(6, true) });
    let g = bodies.insert(body(6, false));
    let joints: Slab<JointSummary> = Slab::new();
    let mut solver = MoreauJeanSolver::new();
    assert_eq!(solver.step(&mut bodies, &joints, &[], &[a, g]), Err(StepError::NonDynamicBody));
    assert_eq!(bodies.body(a).unwrap().companion_id, 5);
    assert_eq!(solver.system_ndofs, 0);
}

#[test]
fn step_refuses_an_island_too_large_to_count() {
    let mut bodies = BodySet::new();
    let a = bodies.insert(body(usize::MAX, true));
    let b = bodies.insert(body(2, true));
    let joints: Slab<JointSummary> = Slab::new();
    let mut solver = MoreauJeanSolver::new();
    assert_eq!(solver.step(&mut bodies, &joints, &[], &[a, b]), Err(StepError::TooManyDofs));
}

#[test]
fn step_refuses_a_buffer_too_large() {
    let mut bodies = BodySet::new();
    let a = bodies.insert(body(6, true));
    let b = bodies.insert(body(6, true));
    let mut joints = Slab::new();
    joints.insert(joint(a, b, usize::MAX / 4));
    let mut solver = MoreauJeanSolver::new();
    assert_eq!(solver.step(&mut bodies, &joints, &[], &[a, b]), Err(StepError::BufferTooLarge));
    assert_eq!(bodies.body(b).unwrap().companion_id, 6);
    assert_eq!(solver.system_ndofs, 0);
}

#[test]
fn phases_follow_one_another() {
    let mut phase = Phase::first();
    let mut seen = Vec::new();
    while phase != Phase::Done {
        seen.push(phase);
        phase = phase.next();
    }
    assert_eq!(
        seen,
        vec![
            Phase::Assemble,
            Phase::SolveVelocity,
            Phase::CacheImpulses,
            Phase::Integrate,
            Phase::SolvePosition,
        ]
    );
    assert_eq!(Phase::Done.next(), Phase::Done);
}

#[test]
fn constraints_are_found_by_their_source() {
    let mut bodies = BodySet::new();
    let a = bodies.insert(body(6, true));
    let b = bodies.insert(body(3, true));
    let g = bodies.insert(body(6, false));
    let idle = JointSummary { active: false, ..joint(a, b, 4) };
    let joints = [joint(a, b, 2), idle, joint(g, b, 1)];
    let manifolds = [contact(a, g, 3)];
    let set = assemble_constraints_of(&bodies, &joints, &manifolds).unwrap();
    assert_eq!(set.velocity.len(), 6);
    assert_eq!(set.generated_by(Source::Joint(0)), set.velocity[0..2].to_vec());
    assert!(set.generated_by(Source::Joint(1)).is_empty());
    assert_eq!(set.generated_by(Source::Joint(2)), set.velocity[2..3].to_vec());
    assert_eq!(set.generated_by(Source::Manifold(0)), set.velocity[3..6].to_vec());
    assert!(set.generated_by(Source::Manifold(1)).is_empty());
    assert!(set.generated_by(Source::Joint(3)).is_empty());
}
