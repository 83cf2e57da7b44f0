use particles::geometry::{Bounds, Vec2, SCALE};
use particles::particle::{heat_green, Particle, MAX_COLOR_DISTANCE, SPEED_BOUND};
use particles::root_math::integer_sqrt;
use particles::system::{gravity, FrameInput, ParticleSystem, GRAVITY_Y, INITIAL_COUNT, SPAWN_LIMIT};

fn units(v: f64) -> i64 {
    (v * SCALE as f64).round() as i64
}

fn world(left: f64, right: f64, bottom: f64, top: f64) -> Bounds {
    Bounds::new(units(left), units(right), units(bottom), units(top))
}

fn at(x: f64, y: f64) -> Vec2 {
    Vec2::new(units(x), units(y))
}

#[test]
fn integration_order_example() {
    let mut p = Particle::with_velocity(at(0.0, 0.0), at(1.0, 0.0));
    p.apply_force(at(0.0, -0.1));
    assert_eq!(p.acceleration, at(0.0, -0.1));
    p.update();
    assert_eq!(p.velocity, at(1.0, -0.1));
    assert_eq!(p.position, at(1.0, -0.1));
    assert_eq!(p.acceleration, Vec2::zero());
}

#[test]
fn integration_uses_new_velocity_for_position() {
    let mut p = Particle::with_velocity(at(2.0, 3.0), at(-1.0, 0.5));
    p.apply_force(at(0.25, -0.5));
    p.update();
    assert_eq!(p.velocity, at(-0.75, 0.0));
    assert_eq!(p.position, at(1.25, 3.0));
    p.update();
    assert_eq!(p.velocity, at(-0.75, 0.0));
    assert_eq!(p.position, at(0.5, 3.0));
}

#[test]
fn two_forces_act_as_their_sum() {
    let start = Particle::with_velocity(at(5.0, -5.0), at(0.3, 0.7));
    let f1 = at(0.0, -0.1);
    let f2 = at(1.5, 0.2);
    let mut a = start;
    a.apply_force(f1);
    a.apply_force(f2);
    a.update();
    let mut b = start;
    b.apply_force(Vec2::new(f1.x + f2.x, f1.y + f2.y));
    b.update();
    assert_eq!(a, b);
    assert_eq!(a.position, at(6.8, -4.2));
}

#[test]
fn spawn_adds_exactly_k_fresh_particles() {
    let mut sys = ParticleSystem::initialize(world(0.0, 1.0, 0.0, 1.0), 0);
    assert_eq!(sys.len(), 0);
    let pos = at(3.0, -4.0);
    sys.spawn(pos, 7);
    assert_eq!(sys.len(), 7);
    let first: Vec<Particle> = sys.particles().clone();
    sys.spawn(at(1.0, 1.0), 3);
    assert_eq!(sys.len(), 10);
    assert_eq!(&sys.particles()[..7], &first[..]);
    for p in &sys.particles()[..7] {
        assert_eq!(p.position, pos);
    }
    for p in sys.particles() {
        assert!(-SPEED_BOUND <= p.velocity.x && p.velocity.x <= SPEED_BOUND);
        assert!(-SPEED_BOUND <= p.velocity.y && p.velocity.y <= SPEED_BOUND);
        assert_eq!(p.acceleration, Vec2::zero());
        assert_eq!((p.color.red, p.color.green, p.color.blue, p.color.alpha), (SCALE, SCALE, 0, SCALE));
    }
}

#[test]
fn spawn_zero_leaves_system_unchanged() {
    let mut sys = ParticleSystem::initialize(world(-1.0, 1.0, -1.0, 1.0), 4);
    let before = sys.particles().clone();
    sys.spawn(at(0.0, 0.0), 0);
    assert_eq!(sys.particles(), &before);
}

#[test]
fn new_particles_get_varied_velocities() {
    let velocities: Vec<Vec2> = (0..64).map(|_| Particle::new(at(0.0, 0.0)).velocity).collect();
    assert!(velocities.iter().any(|v| *v != velocities[0]));
    assert!(velocities.iter().any(|v| v.x != -SPEED_BOUND));
}

#[test]
fn cull_keeps_the_edge_and_drops_outside() {
    let bounds = world(0.0, 10.0, 0.0, 10.0);
    let mut sys = ParticleSystem::initialize(bounds, 0);
    sys.spawn(at(10.0, 5.0), 1);
    sys.spawn(at(10.0001, 5.0), 1);
    sys.spawn(at(-1.0, 5.0), 1);
    sys.spawn(at(0.0, 0.0), 1);
    sys.spawn(at(5.0, 10.0001), 1);
    sys.cull(bounds);
    let kept: Vec<Vec2> = sys.particles().iter().map(|p| p.position).collect();
    assert_eq!(kept, vec![at(10.0, 5.0), at(0.0, 0.0)]);
}

#[test]
fn cull_of_empty_system_stays_empty() {
    let mut sys = ParticleSystem::initialize(world(0.0, 1.0, 0.0, 1.0), 0);
    sys.cull(world(0.0, 1.0, 0.0, 1.0));
    assert_eq!(sys.len(), 0);
}

#[test]
fn cull_twice_equals_cull_once() {
    let mut sys = ParticleSystem::initialize(world(-100.0, 100.0, -100.0, 100.0), 300);
    let inner = world(-50.0, 50.0, -30.0, 70.0);
    sys.cull(inner);
    let once = sys.particles().clone();
    assert!(once.len() < 300);
    sys.cull(inner);
    assert_eq!(sys.particles(), &once);
}

#[test]
fn initialize_places_particles_inside_bounds() {
    let bounds = world(-100.0, 100.0, -50.0, 20.0);
    let sys = ParticleSystem::initialize(bounds, INITIAL_COUNT);
    assert_eq!(sys.len(), 500);
    for p in sys.particles() {
        assert!(bounds.contains(p.position));
        assert_eq!(p.acceleration, Vec2::zero());
    }
    let positions: Vec<Vec2> = sys.particles().iter().map(|p| p.position).collect();
    assert!(positions.iter().any(|q| *q != positions[0]));
}

#[test]
fn initialize_in_a_single_point() {
    let bounds = world(2.0, 2.0, -3.0, -3.0);
    let sys = ParticleSystem::initialize(bounds, 5);
    for p in sys.particles() {
        assert_eq!(p.position, at(2.0, -3.0));
    }
}

#[test]
fn integer_square_roots() {
    assert_eq!(integer_sqrt(0), 0);
    assert_eq!(integer_sqrt(1), 1);
    assert_eq!(integer_sqrt(15), 3);
    assert_eq!(integer_sqrt(16), 4);
    assert_eq!(integer_sqrt(17), 4);
    assert_eq!(integer_sqrt(1_000_000_000_000), 1_000_000);
    assert_eq!(integer_sqrt(u64::MAX), 4_294_967_295);
}

#[test]
fn heat_green_follows_distance() {
    let r = at(10.0, 10.0);
    assert_eq!(heat_green(r, r), SCALE);
    assert_eq!(heat_green(at(110.0, 10.0), r), SCALE / 2);
    assert_eq!(heat_green(at(10.0, -40.0), r), 3 * SCALE / 4);
    assert_eq!(heat_green(at(70.0, 90.0), r), SCALE / 2);
    assert_eq!(heat_green(at(210.0, 10.0), r), 0);
    assert_eq!(heat_green(at(500.0, 10.0), r), 0);
    assert_eq!(heat_green(Vec2::new(i64::MAX, i64::MIN), Vec2::new(i64::MIN, i64::MAX)), 0);
    assert_eq!(MAX_COLOR_DISTANCE, units(200.0));
}

#[test]
fn green_never_rises_with_distance() {
    let r = at(0.0, 0.0);
    let mut last = SCALE;
    for step in 0..=250 {
        let g = heat_green(at(step as f64, 0.0), r);
        assert!(g <= last);
        assert!(g >= 0);
        if step >= 200 {
            assert_eq!(g, 0);
        }
        last = g;
    }
}

#[test]
fn update_color_sets_heat_gradient() {
    let mut p = Particle::with_velocity(at(0.0, 50.0), at(1.0, 1.0));
    p.update_color(at(0.0, 0.0));
    assert_eq!((p.color.red, p.color.green, p.color.blue, p.color.alpha), (SCALE, 3 * SCALE / 4, 0, SCALE));
    assert_eq!(p.position, at(0.0, 50.0));
    assert_eq!(p.velocity, at(1.0, 1.0));
}

#[test]
fn step_advances_and_colors_every_particle() {
    let mut sys = ParticleSystem::initialize(world(0.0, 1.0, 0.0, 1.0), 0);
    sys.spawn(at(0.0, 0.0), 20);
    let before = sys.particles().clone();
    assert!(sys.can_step(gravity()));
    sys.step(gravity(), Some(at(0.0, 0.0)));
    assert_eq!(sys.len(), 20);
    for (b, a) in before.iter().zip(sys.particles()) {
        assert_eq!(a.velocity, Vec2::new(b.velocity.x, b.velocity.y + GRAVITY_Y));
        assert_eq!(a.position, a.velocity);
        assert_eq!(a.acceleration, Vec2::zero());
        assert_eq!(a.color.green, heat_green(a.position, at(0.0, 0.0)));
        assert_eq!(a.color.red, SCALE);
    }
}

#[test]
fn step_without_reference_keeps_colors() {
    let mut sys = ParticleSystem::initialize(world(-5.0, 5.0, -5.0, 5.0), 10);
    sys.step(gravity(), Some(at(1000.0, 1000.0)));
    let colors: Vec<_> = sys.particles().iter().map(|p| p.color).collect();
    sys.step(gravity(), None);
    let after: Vec<_> = sys.particles().iter().map(|p| p.color).collect();
    assert_eq!(colors, after);
    assert!(after.iter().all(|c| c.green == 0));
}

#[test]
fn can_step_refuses_overflow() {
    let mut sys = ParticleSystem::initialize(world(0.0, 1.0, 0.0, 1.0), 0);
    sys.spawn(Vec2::new(i64::MAX - 5, 0), 1);
    assert!(!sys.can_step(Vec2::new(SPEED_BOUND + 10, 0)));
    assert!(sys.can_step(Vec2::new(-2 * SPEED_BOUND, 0)));
}

#[test]
fn end_to_end_fall_under_gravity() {
    let bounds = world(-100.0, 100.0, -100.0, 100.0);
    let mut sys = ParticleSystem::initialize(bounds, 500);
    let force = at(0.0, -0.1);
    for _ in 0..1000 {
        let before = sys.particles().clone();
        assert!(sys.can_step(force));
        sys.step(force, None);
        for (b, a) in before.iter().zip(sys.particles()) {
            assert_eq!(a.velocity.y, b.velocity.y + force.y);
            assert!(a.velocity.y < b.velocity.y);
            assert_eq!(a.position.y, b.position.y + a.velocity.y);
            if b.velocity.y <= 0 {
                assert!(a.position.y < b.position.y);
            }
        }
        let n = sys.len();
        sys.cull(bounds);
        assert!(sys.len() <= n);
        assert!(sys.len() <= 500);
    }
    assert_eq!(sys.len(), 0);
}

#[test]
fn frame_without_trigger_never_grows() {
    let bounds = world(-100.0, 100.0, -100.0, 100.0);
    let mut sys = ParticleSystem::initialize(bounds, 200);
    let input = FrameInput { trigger: false, trigger_position: at(0.0, 0.0), reference: None, bounds };
    let mut last = sys.len();
    for _ in 0..50 {
        assert!(sys.ready_for(&input));
        sys.frame(input);
        assert!(sys.len() <= last);
        assert!(sys.particles().iter().all(|p| bounds.contains(p.position)));
        last = sys.len();
    }
}

#[test]
fn frame_with_trigger_spawns_a_batch() {
    let bounds = world(-1000.0, 1000.0, -1000.0, 1000.0);
    let mut sys = ParticleSystem::initialize(bounds, 0);
    let input = FrameInput { trigger: true, trigger_position: at(5.0, 5.0), reference: Some(at(5.0, 5.0)), bounds };
    assert!(sys.ready_for(&input));
    sys.frame(input);
    let n = sys.len() as i64;
    assert!(1 <= n && n < SPAWN_LIMIT);
    for p in sys.particles() {
        assert_eq!(p.acceleration, Vec2::zero());
        assert!(p.color.green > 0);
        assert_eq!(p.position, Vec2::new(units(5.0) + p.velocity.x, units(5.0) + p.velocity.y));
    }
}

#[test]
fn ready_for_refuses_spawn_near_the_limit() {
    let sys = ParticleSystem::initialize(world(0.0, 1.0, 0.0, 1.0), 0);
    let bounds = world(0.0, 1.0, 0.0, 1.0);
    let far = FrameInput { trigger: true, trigger_position: Vec2::new(0, i64::MIN + 5), reference: None, bounds };
    assert!(!sys.ready_for(&far));
    let idle = FrameInput { trigger: false, ..far };
    assert!(sys.ready_for(&idle));
}

#[test]
fn snapshot_pairs_positions_and_colors() {
    let mut sys = ParticleSystem::initialize(world(0.0, 1.0, 0.0, 1.0), 0);
    sys.spawn(at(1.0, 2.0), 2);
    sys.step(gravity(), Some(at(1.0, 2.0)));
    let snap = sys.snapshot();
    assert_eq!(snap.len(), 2);
    for (s, p) in snap.iter().zip(sys.particles()) {
        assert_eq!(*s, (p.position, p.color));
    }
}
