//! A point mass: position, velocity, a per-frame force accumulator and a
//! colour.
use crate::geometry::{fits, Vec2, SCALE};
use crate::root_math::{integer_sqrt, isqrt, lemma_isqrt_at_least, lemma_isqrt_monotone};
use rand::Rng;
use vstd::prelude::*;

verus! {

/// Bound on each velocity component of a new particle (10.0 world units).
pub const SPEED_BOUND: i64 = 10 * SCALE;

/// Distance at which the heat colour has faded to red (200.0 world units).
pub const MAX_COLOR_DISTANCE: i64 = 200 * SCALE;

/// An RGBA colour, each channel from 0 to `SCALE`.
#[derive(Clone, Copy, Debug, PartialEq, Eq, Structural)]
pub struct Rgba {
    pub red: i64,
    pub green: i64,
    pub blue: i64,
    pub alpha: i64,
}

impl Rgba {
    /// Opaque yellow, the colour of a new particle.
    pub open spec fn is_default(self) -> bool {
        self.red == SCALE && self.green == SCALE && self.blue == 0 && self.alpha == SCALE
    }

    /// Opaque red, blue off, and the given green level.
    pub open spec fn is_heat(self, green: int) -> bool {
        self.red == SCALE && self.green == green && self.blue == 0 && self.alpha == SCALE
    }
}

/// Squared Euclidean distance between two points.
pub open spec fn sq_dist(a: Vec2, b: Vec2) -> nat {
    ((a.x - b.x) * (a.x - b.x) + (a.y - b.y) * (a.y - b.y)) as nat
}

/// Green level for a squared distance: full at the reference point, falling
/// linearly with the distance, and zero from `MAX_COLOR_DISTANCE` on.
pub open spec fn green_level(d2: nat) -> int {
    let normalized = isqrt(d2) * SCALE / (MAX_COLOR_DISTANCE as int);
    if normalized < SCALE {
        SCALE - normalized
    } else {
        0
    }
}

/// The green level never rises with the distance.
pub proof fn lemma_green_monotone(d1: nat, d2: nat)
    requires
        d1 <= d2,
    ensures
        green_level(d1) >= green_level(d2),
        0 <= green_level(d2) <= SCALE,
{
    lemma_isqrt_monotone(d1, d2);
    let (s1, s2) = (isqrt(d1) as int, isqrt(d2) as int);
    assert(s1 * SCALE <= s2 * SCALE) by (nonlinear_arith)
        requires
            s1 <= s2,
    ;
    assert(s1 * SCALE / (MAX_COLOR_DISTANCE as int) <= s2 * SCALE / (MAX_COLOR_DISTANCE as int))
        by (nonlinear_arith)
        requires
            s1 * SCALE <= s2 * SCALE,
    ;
    assert(0 <= s1 * SCALE / (MAX_COLOR_DISTANCE as int)) by (nonlinear_arith)
        requires
            0 <= s1,
    ;
}

/// At or beyond `MAX_COLOR_DISTANCE` the green level is zero.
pub proof fn lemma_green_far(d2: nat)
    requires
        d2 >= MAX_COLOR_DISTANCE * MAX_COLOR_DISTANCE,
    ensures
        green_level(d2) == 0,
{
    let m = MAX_COLOR_DISTANCE as nat;
    lemma_isqrt_at_least(d2, m);
    let s = isqrt(d2) as int;
    assert(s * SCALE / (MAX_COLOR_DISTANCE as int) >= SCALE) by (nonlinear_arith)
        requires
            s >= MAX_COLOR_DISTANCE,
    ;
}

/// Green level of the heat colour of a point at `p` seen from `reference`.
pub fn heat_green(p: Vec2, reference: Vec2) -> (g: i64)
    ensures
        g == green_level(sq_dist(p, reference)),
        0 <= g <= SCALE,
{
    let dx: i128 = p.x as i128 - reference.x as i128;
    let dy: i128 = p.y as i128 - reference.y as i128;
    let ax: i128 = if dx < 0 { -dx } else { dx };
    let ay: i128 = if dy < 0 { -dy } else { dy };
    let ghost d2 = sq_dist(p, reference);
    let ghost m = MAX_COLOR_DISTANCE as int;
    proof {
        lemma_green_monotone(d2, d2);
    }
    if ax >= MAX_COLOR_DISTANCE as i128 || ay >= MAX_COLOR_DISTANCE as i128 {
        proof {
            assert(ax * ax + ay * ay >= m * m) by (nonlinear_arith)
                requires
                    ax >= m || ay >= m,
                    ax >= 0,
                    ay >= 0,
                    m >= 0,
            ;
            assert(ax * ax == dx * dx) by (nonlinear_arith)
                requires
                    ax == dx || ax == -dx,
            ;
            assert(ay * ay == dy * dy) by (nonlinear_arith)
                requires
                    ay == dy || ay == -dy,
            ;
            lemma_green_far(d2);
        }
        return 0;
    }
    assert(ax * ax + ay * ay < 2 * m * m) by (nonlinear_arith)
        requires
            0 <= ax < m,
            0 <= ay < m,
    ;
    assert(ax * ax == dx * dx) by (nonlinear_arith)
        requires
            ax == dx || ax == -dx,
    ;
    assert(ay * ay == dy * dy) by (nonlinear_arith)
        requires
            ay == dy || ay == -dy,
    ;
    let d2_exec: u64 = (ax * ax + ay * ay) as u64;
    assert(d2_exec == d2);
    let dist: u64 = integer_sqrt(d2_exec);
    let normalized: u64 = dist * (SCALE as u64) / (MAX_COLOR_DISTANCE as u64);
    if normalized < SCALE as u64 {
        SCALE - normalized as i64
    } else {
        0
    }
}

/// A point mass of the simulation.
#[derive(Clone, Copy, Debug, PartialEq, Eq, Structural)]
pub struct Particle {
    pub position: Vec2,
    pub velocity: Vec2,
    /// Sum of the forces applied since the last integration step.
    pub acceleration: Vec2,
    pub color: Rgba,
}

/// `after` is `before` with `force` added to its accumulator.
pub open spec fn forced(before: Particle, force: Vec2, after: Particle) -> bool {
    &&& after.position == before.position
    &&& after.velocity == before.velocity
    &&& after.color == before.color
    &&& after.acceleration.x == before.acceleration.x + force.x
    &&& after.acceleration.y == before.acceleration.y + force.y
}

/// `after` is `before` advanced by one integration step: velocity gains the
/// acceleration, then position gains the new velocity, then the accumulator
/// is cleared.
pub open spec fn integrated(before: Particle, after: Particle) -> bool {
    &&& after.velocity.x == before.velocity.x + before.acceleration.x
    &&& after.velocity.y == before.velocity.y + before.acceleration.y
    &&& after.position.x == before.position.x + after.velocity.x
    &&& after.position.y == before.position.y + after.velocity.y
    &&& after.acceleration.is_zero()
    &&& after.color == before.color
}

/// Two forces applied before one integration step give the same particle as
/// their sum applied once before it.
pub proof fn lemma_force_accumulation(
    p: Particle,
    f1: Vec2,
    f2: Vec2,
    sum: Vec2,
    a1: Particle,
    a2: Particle,
    q1: Particle,
    b: Particle,
    q2: Particle,
)
    requires
        sum.x == f1.x + f2.x,
        sum.y == f1.y + f2.y,
        forced(p, f1, a1),
        forced(a1, f2, a2),
        integrated(a2, q1),
        forced(p, sum, b),
        integrated(b, q2),
    ensures
        q1 == q2,
{
    assert(q1.position == q2.position);
    assert(q1.velocity == q2.velocity);
    assert(q1.acceleration == q2.acceleration);
}

/// One whole frame of a particle: `force` applied, one integration step, and
/// the colour taken from `reference` when there is one.
pub open spec fn advanced(
    before: Particle,
    force: Vec2,
    reference: Option<Vec2>,
    after: Particle,
) -> bool {
    &&& after.velocity.x == before.velocity.x + before.acceleration.x + force.x
    &&& after.velocity.y == before.velocity.y + before.acceleration.y + force.y
    &&& after.position.x == before.position.x + after.velocity.x
    &&& after.position.y == before.position.y + after.velocity.y
    &&& after.acceleration.is_zero()
    &&& match reference {
        Some(r) => after.color.is_heat(green_level(sq_dist(after.position, r))),
        None => after.color == before.color,
    }
}

/// The sums of one frame of `p` under `force` fit in an `i64`.
pub open spec fn frame_fits(p: Particle, force: Vec2) -> bool {
    let ax = p.acceleration.x + force.x;
    let ay = p.acceleration.y + force.y;
    &&& fits(ax) && fits(ay)
    &&& fits(p.velocity.x + ax) && fits(p.velocity.y + ay)
    &&& fits(p.position.x + p.velocity.x + ax)
    &&& fits(p.position.y + p.velocity.y + ay)
}

/// A new particle's state: at rest in its accumulator, with the default
/// colour and a velocity within `SPEED_BOUND` on each axis.
pub open spec fn is_fresh(p: Particle, position: Vec2) -> bool {
    &&& p.position == position
    &&& -SPEED_BOUND <= p.velocity.x <= SPEED_BOUND
    &&& -SPEED_BOUND <= p.velocity.y <= SPEED_BOUND
    &&& p.acceleration.is_zero()
    &&& p.color.is_default()
}

/// Relies on rand's `thread_rng().gen_range(lo..=hi)`, which returns a value
/// from `lo` to `hi` and panics only on an empty range.
#[verifier::external_body]
pub(crate) fn random_between(lo: i64, hi: i64) -> (r: i64)
    requires
        lo <= hi,
    ensures
        lo <= r <= hi,
{
    rand::thread_rng().gen_range(lo..=hi)
}

impl Particle {
    /// A particle at `position` moving at `velocity`, with an empty
    /// accumulator and the default colour.
    pub fn with_velocity(position: Vec2, velocity: Vec2) -> (p: Particle)
        ensures
            p.position == position,
            p.velocity == velocity,
            p.acceleration.is_zero(),
            p.color.is_default(),
    {
        Particle {
            position,
            velocity,
            acceleration: Vec2::zero(),
            color: Rgba { red: SCALE, green: SCALE, blue: 0, alpha: SCALE },
        }
    }

    /// A particle at `position` with a random velocity, each component drawn
    /// from `-SPEED_BOUND` to `SPEED_BOUND`.
    pub fn new(position: Vec2) -> (p: Particle)
        ensures
            is_fresh(p, position),
    {
        let vx = random_between(-SPEED_BOUND, SPEED_BOUND);
        let vy = random_between(-SPEED_BOUND, SPEED_BOUND);
        Particle::with_velocity(position, Vec2::new(vx, vy))
    }

    /// Adds `force` to the accumulator.
    pub fn apply_force(&mut self, force: Vec2)
        requires
            fits(old(self).acceleration.x + force.x),
            fits(old(self).acceleration.y + force.y),
        ensures
            forced(*old(self), force, *final(self)),
    {
        self.acceleration = Vec2 {
            x: self.acceleration.x + force.x,
            y: self.acceleration.y + force.y,
        };
    }

    /// One integration step: velocity += acceleration, position += velocity,
    /// acceleration = 0.
    pub fn update(&mut self)
        requires
            fits(old(self).velocity.x + old(self).acceleration.x),
            fits(old(self).velocity.y + old(self).acceleration.y),
            fits(old(self).position.x + old(self).velocity.x + old(self).acceleration.x),
            fits(old(self).position.y + old(self).velocity.y + old(self).acceleration.y),
        ensures
            integrated(*old(self), *final(self)),
    {
        self.velocity = Vec2 {
            x: self.velocity.x + self.acceleration.x,
            y: self.velocity.y + self.acceleration.y,
        };
        self.position = Vec2 {
            x: self.position.x + self.velocity.x,
            y: self.position.y + self.velocity.y,
        };
        self.acceleration = Vec2::zero();
    }

    /// Takes the heat colour for the distance to `reference`: yellow at the
    /// point itself, red from `MAX_COLOR_DISTANCE` on.
    pub fn update_color(&mut self, reference: Vec2)
        ensures
            final(self).position == old(self).position,
            final(self).velocity == old(self).velocity,
            final(self).acceleration == old(self).acceleration,
            final(self).color.is_heat(green_level(sq_dist(old(self).position, reference))),
    {
        let green = heat_green(self.position, reference);
        self.color = Rgba { red: SCALE, green, blue: 0, alpha: SCALE };
    }

    /// One whole frame: applies `force`, integrates, and takes the colour from
    /// `reference` when there is one.
    pub fn advance(&mut self, force: Vec2, reference: Option<Vec2>)
        requires
            frame_fits(*old(self), force),
        ensures
            advanced(*old(self), force, reference, *final(self)),
    {
        self.apply_force(force);
        self.update();
        if let Some(r) = reference {
            self.update_color(r);
        }
    }
}

} // verus!
