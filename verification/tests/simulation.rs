use particle_sim::SimError;
use particle_sim::engine::Config;
use particle_sim::engine::Ensemble;
use particle_sim::engine::ForceLaw;
use particle_sim::engine::apply_partition;
use particle_sim::engine::eval_partition;
use particle_sim::engine::evaluate_forces;
use particle_sim::engine::integrate;
use particle_sim::engine::step;
use particle_sim::fixed::SCALE;
use particle_sim::fixed::fp_div;
use particle_sim::fixed::fp_mul;
use particle_sim::fixed::isqrt;
use particle_sim::forces::Falloff;
use particle_sim::forces::charge_strength;
use particle_sim::forces::drag;
use particle_sim::forces::radial;
use particle_sim::forces::spring;
use particle_sim::particle::CHARGE_LIMIT;
use particle_sim::particle::COORD_LIMIT;
use particle_sim::particle::Particle;
use particle_sim::partition::worker_range;
use particle_sim::topology::neighbor;
use particle_sim::topology::ring_next;
use particle_sim::topology::ring_prev;
use particle_sim::topology::ring_seventh;
use particle_sim::vec3::Vec3;

fn particle_at(x: i64, y: i64, z: i64) -> Particle {
    Particle::new(Vec3::new(x, y, z), Vec3::origin(), SCALE, SCALE).unwrap()
}

#[test]
fn fixed_point_products_truncate_toward_zero() {
    assert_eq!(fp_mul(3 * SCALE, 2 * SCALE), 6 * SCALE);
    assert_eq!(fp_mul(-3 * SCALE, 2 * SCALE), -6 * SCALE);
    assert_eq!(fp_mul(3 * SCALE, -2 * SCALE), -6 * SCALE);
    assert_eq!(fp_mul(-3 * SCALE, -2 * SCALE), 6 * SCALE);
    // products below one unit truncate toward zero from both sides
    assert_eq!(fp_mul(1, 1), 0);
    assert_eq!(fp_mul(-1, 1), 0);
    assert_eq!(fp_div(SCALE, 2 * SCALE), SCALE / 2);
    assert_eq!(fp_div(-SCALE, 2 * SCALE), -SCALE / 2);
}

#[test]
fn integer_square_roots() {
    assert_eq!(isqrt(0), 0);
    assert_eq!(isqrt(1), 1);
    assert_eq!(isqrt(3), 1);
    assert_eq!(isqrt(4), 2);
    assert_eq!(isqrt(4294967296), 65536);
    assert_eq!(isqrt(u64::MAX), 4294967295);
}

#[test]
fn partition_tiles_exactly_and_balanced() {
    // includes n % t != 0 and t > n (empty ranges for some workers)
    for &(n, t) in &[(1usize, 1usize), (10, 4), (7, 3), (3, 8), (1000, 4), (5, 5), (0, 3)] {
        let mut next = 0usize;
        for k in 0..t {
            let (lo, hi) = worker_range(n, t, k);
            assert_eq!(lo, next, "gap or overlap at worker {k} for n={n} t={t}");
            assert!(hi >= lo);
            let size = hi - lo;
            assert!(size == n / t || size == n / t + 1, "unbalanced at {k}: {size}");
            next = hi;
        }
        assert_eq!(next, n, "union does not end at n for n={n} t={t}");
    }
}

#[test]
fn ring_topology_offsets() {
    assert_eq!(ring_prev(0, 10), 9);
    assert_eq!(ring_prev(5, 10), 4);
    assert_eq!(ring_next(9, 10), 0);
    assert_eq!(ring_next(4, 10), 5);
    assert_eq!(ring_seventh(0, 14), 2);
    assert_eq!(ring_seventh(13, 14), 1);
    assert_eq!(ring_next(0, 1), 0);
    assert_eq!(ring_prev(0, 1), 0);
    assert_eq!(neighbor(3, 4, 10), 7);
    assert_eq!(neighbor(9, 9, 10), 8);
}

#[test]
fn radial_inverse_square_unit_distance() {
    // strength 1.0 at distance 1.0 along x: force is exactly 1.0 along x
    let src = Vec3::new(SCALE, 0, 0);
    let tgt = Vec3::new(0, 0, 0);
    let f = radial(SCALE, 1, Falloff::InverseSquare, &src, &tgt);
    assert_eq!((f.x, f.y, f.z), (SCALE, 0, 0));
    // negative strength attracts: same magnitude, opposite direction
    let g = radial(-SCALE, 1, Falloff::InverseSquare, &src, &tgt);
    assert_eq!((g.x, g.y, g.z), (-SCALE, 0, 0));
}

#[test]
fn radial_inverse_linear_unit_distance() {
    let src = Vec3::new(SCALE, 0, 0);
    let tgt = Vec3::new(0, 0, 0);
    let f = radial(SCALE, 1, Falloff::InverseLinear, &src, &tgt);
    assert_eq!((f.x, f.y, f.z), (SCALE, 0, 0));
}

#[test]
fn radial_clamp_bounds_close_pairs() {
    // coincident particles: zero displacement gives zero force, not a division by zero
    let p = Vec3::new(123, -456, 789);
    let r2 = (SCALE as i64) * (SCALE as i64); // clamp radius 1.0
    let f = radial(SCALE, r2, Falloff::InverseSquare, &p, &p);
    assert_eq!((f.x, f.y, f.z), (0, 0, 0));
    // a pair inside the clamp radius feels the force of the clamp floor:
    // distance 1 raw unit, floor 1.0, so the magnitude is strength * d / r^3 = 1
    let src = Vec3::new(1, 0, 0);
    let tgt = Vec3::new(0, 0, 0);
    let f = radial(SCALE, r2, Falloff::InverseSquare, &src, &tgt);
    assert_eq!((f.x, f.y, f.z), (1, 0, 0));
}

#[test]
fn spring_pulls_toward_neighbor_and_is_antisymmetric() {
    let a = Vec3::new(0, 0, 0);
    let b = Vec3::new(SCALE, -2 * SCALE, 12345);
    let f = spring(2 * SCALE, &a, &b);
    assert_eq!((f.x, f.y, f.z), (2 * SCALE, -4 * SCALE, 2 * 12345));
    let g = spring(2 * SCALE, &b, &a);
    assert_eq!((g.x, g.y, g.z), (-f.x, -f.y, -f.z));
}

#[test]
fn drag_opposes_velocity() {
    let v = Vec3::new(SCALE, -SCALE, 0);
    let f = drag(2 * SCALE, &v);
    assert_eq!((f.x, f.y, f.z), (-SCALE / 2, SCALE / 2, 0));
}

#[test]
fn charge_strength_scales_by_charge_product() {
    assert_eq!(charge_strength(SCALE, 2 * SCALE, 2 * SCALE), 4 * SCALE);
    assert_eq!(charge_strength(SCALE, -2 * SCALE, 2 * SCALE), -4 * SCALE);
    assert_eq!(charge_strength(SCALE, 0, 2 * SCALE), 0);
}

#[test]
fn integrator_semi_implicit_euler_exact() {
    // position (0,0,0), velocity (0,0,0), accumulated force (2,0,0), unit
    // inertia, dt = 0.5: velocity becomes (1,0,0), position (0.5,0,0) from
    // the *updated* velocity, and the accumulator resets
    let mut p = particle_at(0, 0, 0);
    p.impulse(&Vec3::new(2 * SCALE, 0, 0));
    p.advance(SCALE / 2);
    assert_eq!((p.velocity.x, p.velocity.y, p.velocity.z), (SCALE, 0, 0));
    assert_eq!((p.position.x, p.position.y, p.position.z), (SCALE / 2, 0, 0));
    assert_eq!(
        (p.pending_acceleration.x, p.pending_acceleration.y, p.pending_acceleration.z),
        (0, 0, 0)
    );
}

#[test]
fn particle_rejects_non_positive_inertia() {
    let r = Particle::new(Vec3::new(0, 0, 0), Vec3::new(0, 0, 0), 0, 0);
    assert_eq!(r, Err(SimError::NonPositiveInertia));
    let r = Particle::new(Vec3::new(0, 0, 0), Vec3::new(0, 0, 0), -SCALE, 0);
    assert_eq!(r, Err(SimError::NonPositiveInertia));
}

#[test]
fn particle_rejects_out_of_range_state() {
    let r = Particle::new(Vec3::new(COORD_LIMIT + 1, 0, 0), Vec3::new(0, 0, 0), SCALE, 0);
    assert_eq!(r, Err(SimError::OutOfBounds));
    let r = Particle::new(Vec3::new(0, 0, 0), Vec3::new(0, -COORD_LIMIT - 1, 0), SCALE, 0);
    assert_eq!(r, Err(SimError::OutOfBounds));
    let r = Particle::new(Vec3::new(0, 0, 0), Vec3::new(0, 0, 0), SCALE, CHARGE_LIMIT + 1);
    assert_eq!(r, Err(SimError::OutOfBounds));
}

#[test]
fn ensemble_rejects_malformed_particles() {
    let mut bad = particle_at(0, 0, 0);
    bad.inertia = 0;
    let r = Ensemble::new(vec![particle_at(0, 0, 0), bad]);
    assert_eq!(r.err(), Some(SimError::OutOfBounds));
}

#[test]
fn config_rejects_bad_parameters() {
    // zero time step
    assert_eq!(Config::new(0, vec![], 1).err(), Some(SimError::InvalidConfig));
    // empty ensemble
    assert_eq!(Config::new(SCALE, vec![], 0).err(), Some(SimError::InvalidConfig));
    // spring offset beyond the ring
    let laws = vec![ForceLaw::Spring { strength: SCALE, offset: 5 }];
    assert_eq!(Config::new(SCALE, laws, 3).err(), Some(SimError::InvalidConfig));
    // drag coefficient below one whole unit
    let laws = vec![ForceLaw::Drag { coefficient: SCALE - 1 }];
    assert_eq!(Config::new(SCALE, laws, 3).err(), Some(SimError::InvalidConfig));
    // a radial strength so large the accumulated force could overflow
    let laws = vec![ForceLaw::Radial {
        strength: i64::MAX,
        min_radius2: 1,
        falloff: Falloff::InverseSquare,
    }];
    assert_eq!(Config::new(SCALE, laws, 100).err(), Some(SimError::InvalidConfig));
}

#[test]
fn zero_force_fixed_point_over_many_steps() {
    // an isolated particle at rest stays put for any number of steps, even
    // with every law configured: no partner, no extension, no motion
    let laws = vec![
        ForceLaw::Radial { strength: -10 * SCALE, min_radius2: SCALE, falloff: Falloff::InverseSquare },
        ForceLaw::Spring { strength: 2 * SCALE, offset: 0 },
        ForceLaw::Drag { coefficient: 2 * SCALE },
    ];
    let cfg = Config::new(SCALE / 2, laws, 1).unwrap();
    let mut ens = Ensemble::new(vec![particle_at(3 * SCALE, -7 * SCALE, SCALE / 4)]).unwrap();
    for _ in 0..25 {
        step(&mut ens, &cfg, 1).unwrap();
    }
    let p = &ens.particles[0];
    assert_eq!((p.position.x, p.position.y, p.position.z), (3 * SCALE, -7 * SCALE, SCALE / 4));
    assert_eq!((p.velocity.x, p.velocity.y, p.velocity.z), (0, 0, 0));
}

#[test]
fn spring_step_mirrors_positions_around_midpoint() {
    let laws = vec![ForceLaw::Spring { strength: 2 * SCALE, offset: 1 }];
    let cfg = Config::new(SCALE / 2, laws, 2).unwrap();
    let mut ens =
        Ensemble::new(vec![particle_at(-SCALE, 0, 0), particle_at(SCALE, 0, 0)]).unwrap();
    step(&mut ens, &cfg, 1).unwrap();
    let (a, b) = (&ens.particles[0], &ens.particles[1]);
    // midpoint preserved, displacements exactly opposite
    assert_eq!(a.position.x + b.position.x, 0);
    assert_eq!(a.position.y + b.position.y, 0);
    assert_eq!(a.position.z + b.position.z, 0);
    // both moved toward each other
    assert!(a.position.x > -SCALE);
    assert!(b.position.x < SCALE);
    assert_eq!(a.position.x, -b.position.x);
}

#[test]
fn drag_strictly_slows_without_reversing() {
    let laws = vec![ForceLaw::Drag { coefficient: 2 * SCALE }];
    let cfg = Config::new(SCALE, laws, 1).unwrap();
    let mut p = particle_at(0, 0, 0);
    p.velocity = Vec3::new(10 * SCALE, -5 * SCALE, 3);
    let mut ens = Ensemble::new(vec![p]).unwrap();
    let mut prev = (10 * SCALE, -5 * SCALE, 3i64);
    for _ in 0..20 {
        step(&mut ens, &cfg, 1).unwrap();
        let v = ens.particles[0].velocity;
        // never reverses in a single application
        assert!(v.x >= 0 && v.y <= 0 && v.z >= 0);
        // never speeds up; strictly slows while above the coefficient's resolution
        assert!(v.x <= prev.0 && v.y >= prev.1 && v.z <= prev.2);
        if prev.0 >= 2 * SCALE {
            assert!(v.x < prev.0);
        }
        prev = (v.x, v.y, v.z);
    }
}

fn demo_ensemble(n: usize) -> Ensemble {
    let mut particles = Vec::new();
    for i in 0..n {
        let k = i as i64;
        particles.push(
            Particle::new(
                Vec3::new(
                    (k * 37 % 1000 - 500) * 100,
                    (k * 53 % 1000 - 500) * 100,
                    (k * 71 % 1000 - 500) * 100,
                ),
                Vec3::new(0, 0, 0),
                SCALE,
                if i % 2 == 0 { SCALE } else { -SCALE },
            )
            .unwrap(),
        )
    }
    Ensemble::new(particles).unwrap()
}

fn demo_config(n: usize) -> Config {
    let r2 = (SCALE / 10) * (SCALE / 10);
    Config::new(
        SCALE / 2,
        vec![
            ForceLaw::Spring { strength: 2 * SCALE, offset: 1 },
            ForceLaw::Spring { strength: 2 * SCALE, offset: n - 1 },
            ForceLaw::Spring { strength: 2 * SCALE, offset: n / 7 },
            ForceLaw::Radial { strength: -10 * SCALE, min_radius2: r2, falloff: Falloff::InverseSquare },
            ForceLaw::ChargeRadial { strength: SCALE / 200, min_radius2: r2, falloff: Falloff::InverseSquare },
            ForceLaw::Drag { coefficient: 30000 * SCALE },
        ],
        n,
    )
    .unwrap()
}

#[test]
fn evaluation_is_worker_count_independent() {
    // the same snapshot evaluated with 1 and with 4 workers yields exactly
    // the same accumulators: the partitioned phase is deterministic
    let n = 30;
    let cfg = demo_config(n);
    let mut e1 = demo_ensemble(n);
    let mut e4 = demo_ensemble(n);
    evaluate_forces(&mut e1, &cfg, 1);
    evaluate_forces(&mut e4, &cfg, 4);
    for i in 0..n {
        assert_eq!(e1.particles[i].pending_acceleration, e4.particles[i].pending_acceleration);
        assert_eq!(e1.particles[i].position, e4.particles[i].position);
    }
    // and a worker count above the particle count still works (empty ranges)
    let mut e_many = demo_ensemble(5);
    let mut e_one = demo_ensemble(5);
    let cfg5 = demo_config(5);
    evaluate_forces(&mut e_many, &cfg5, 9);
    evaluate_forces(&mut e_one, &cfg5, 1);
    for i in 0..5 {
        assert_eq!(e_many.particles[i].pending_acceleration, e_one.particles[i].pending_acceleration);
    }
}

#[test]
fn partitioned_phases_compose_into_a_step() {
    // driving the phases by hand — per-partition evaluation, per-partition
    // writes, then integration — equals the packaged step
    let n = 20;
    let workers = 3;
    let cfg = demo_config(n);
    let mut by_hand = demo_ensemble(n);
    let mut packaged = demo_ensemble(n);

    let mut outs = Vec::new();
    for k in 0..workers {
        let (lo, hi) = worker_range(n, workers, k);
        outs.push((lo, eval_partition(&by_hand, &cfg, lo, hi)));
    }
    for (lo, forces) in &outs {
        apply_partition(&mut by_hand, *lo, forces);
    }
    integrate(&mut by_hand, &cfg).unwrap();

    step(&mut packaged, &cfg, workers).unwrap();

    for i in 0..n {
        assert_eq!(by_hand.particles[i], packaged.particles[i]);
    }
}

#[test]
fn engine_accumulates_the_sum_of_pairwise_contributions() {
    // the evaluation phase must equal a hand-rolled sum of the public force
    // functions over all pairs and the ring neighbor
    let n = 6;
    let r2 = SCALE;
    let cfg = Config::new(
        SCALE,
        vec![
            ForceLaw::Radial { strength: 3 * SCALE, min_radius2: r2, falloff: Falloff::InverseLinear },
            ForceLaw::Spring { strength: SCALE, offset: 2 },
        ],
        n,
    )
    .unwrap();
    let mut ens = demo_ensemble(n);
    let before = ens.particles.clone();
    evaluate_forces(&mut ens, &cfg, 2);
    for i in 0..n {
        let mut expect = (0i64, 0i64, 0i64);
        for j in 0..n {
            if j != i {
                let c = radial(
                    3 * SCALE,
                    r2,
                    Falloff::InverseLinear,
                    &before[i].position,
                    &before[j].position,
                );
                expect = (expect.0 + c.x, expect.1 + c.y, expect.2 + c.z);
            }
        }
        let c = spring(SCALE, &before[i].position, &before[(i + 2) % n].position);
        expect = (expect.0 + c.x, expect.1 + c.y, expect.2 + c.z);
        let got = ens.particles[i].pending_acceleration;
        assert_eq!((got.x, got.y, got.z), expect, "particle {i}");
    }
}

#[test]
fn step_reports_divergence_and_keeps_kinematics() {
    let cfg = Config::new(SCALE, vec![], 1).unwrap();
    let mut p = particle_at(COORD_LIMIT, 0, 0);
    p.velocity = Vec3::new(COORD_LIMIT, 0, 0);
    let mut ens = Ensemble::new(vec![p]).unwrap();
    let r = step(&mut ens, &cfg, 1);
    assert_eq!(r, Err(SimError::Diverged));
    // the failed step left position and velocity untouched
    assert_eq!(ens.particles[0].position.x, COORD_LIMIT);
    assert_eq!(ens.particles[0].velocity.x, COORD_LIMIT);
}

#[test]
fn positions_snapshot_matches_particles() {
    let ens = demo_ensemble(7);
    let ps = ens.positions();
    assert_eq!(ps.len(), 7);
    for i in 0..7 {
        assert_eq!(ps[i], ens.particles[i].position);
    }
}
