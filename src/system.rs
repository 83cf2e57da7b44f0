//! The collection of particles and its per-frame pipeline: spawn, step, cull.
use crate::geometry::{fits, Bounds, Vec2};
use crate::particle::{advanced, frame_fits, is_fresh, Particle, Rgba, SPEED_BOUND, random_between};
use rayon::iter::{IntoParallelRefMutIterator, ParallelIterator};
use vstd::prelude::*;

verus! {

/// Particles in a new system.
pub const INITIAL_COUNT: usize = 500;

/// A held trigger spawns from 1 to `SPAWN_LIMIT - 1` particles each frame.
pub const SPAWN_LIMIT: i64 = 40;

/// Vertical component of the gravity applied every frame (-0.1 world units).
pub const GRAVITY_Y: i64 = -1_000;

/// The force that every frame applies to every particle.
pub open spec fn gravity_spec() -> Vec2 {
    Vec2 { x: 0, y: GRAVITY_Y }
}

pub fn gravity() -> (g: Vec2)
    ensures
        g == gravity_spec(),
{
    Vec2 { x: 0, y: GRAVITY_Y }
}

/// `after` is `before` with every particle advanced by one frame, in place.
pub open spec fn stepped(
    before: Seq<Particle>,
    force: Vec2,
    reference: Option<Vec2>,
    after: Seq<Particle>,
) -> bool {
    &&& after.len() == before.len()
    &&& forall|i: int|
        0 <= i < before.len() ==> #[trigger] advanced(before[i], force, reference, after[i])
}

/// The particles of `s` whose position lies in `b`, in their order.
pub open spec fn culled(s: Seq<Particle>, b: Bounds) -> Seq<Particle>
    decreases s.len(),
{
    if s.len() == 0 {
        seq![]
    } else {
        let rest = culled(s.drop_last(), b);
        if b.holds(s.last().position) {
            rest.push(s.last())
        } else {
            rest
        }
    }
}

/// Every particle of `s` lies in `b`.
pub open spec fn all_inside(s: Seq<Particle>, b: Bounds) -> bool {
    forall|i: int| 0 <= i < s.len() ==> b.holds(#[trigger] s[i].position)
}

/// What culling leaves lies in the bounds, and is no longer than before.
pub proof fn lemma_culled_inside(s: Seq<Particle>, b: Bounds)
    ensures
        all_inside(culled(s, b), b),
        culled(s, b).len() <= s.len(),
    decreases s.len(),
{
    if s.len() > 0 {
        lemma_culled_inside(s.drop_last(), b);
    }
}

/// Culling keeps a sequence that lies in the bounds as it is.
pub proof fn lemma_culled_keeps_inside(s: Seq<Particle>, b: Bounds)
    requires
        all_inside(s, b),
    ensures
        culled(s, b) == s,
    decreases s.len(),
{
    if s.len() > 0 {
        let t = s.drop_last();
        assert(all_inside(t, b)) by {
            assert forall|i: int| 0 <= i < t.len() implies b.holds(#[trigger] t[i].position) by {
                assert(t[i] == s[i]);
            }
        }
        lemma_culled_keeps_inside(t, b);
        assert(b.holds(s[s.len() - 1].position));
        assert(t.push(s.last()) =~= s);
    }
}

/// Culling twice with the same bounds leaves what culling once leaves.
pub proof fn lemma_cull_idempotent(s: Seq<Particle>, b: Bounds)
    ensures
        culled(culled(s, b), b) == culled(s, b),
{
    lemma_culled_inside(s, b);
    lemma_culled_keeps_inside(culled(s, b), b);
}

/// Under a downward force, a particle that is not rising falls in a step: its
/// vertical velocity drops, and so does its height. Its velocity stays
/// non-positive, so it keeps falling in every later step until it is culled.
pub proof fn lemma_step_falls(
    before: Seq<Particle>,
    force: Vec2,
    reference: Option<Vec2>,
    after: Seq<Particle>,
    i: int,
)
    requires
        stepped(before, force, reference, after),
        force.y < 0,
        0 <= i < before.len(),
        before[i].acceleration.y <= 0,
        before[i].velocity.y <= 0,
    ensures
        after[i].velocity.y < before[i].velocity.y,
        after[i].velocity.y <= 0,
        after[i].acceleration.y == 0,
        after[i].position.y < before[i].position.y,
{
    assert(advanced(before[i], force, reference, after[i]));
}

/// Relies on rayon's `par_iter_mut().for_each(..)` on a slice: the closure runs
/// once on each element, in place, and the call returns after all have run.
#[verifier::external_body]
fn advance_all(particles: &mut Vec<Particle>, force: Vec2, reference: Option<Vec2>)
    requires
        forall|i: int| 0 <= i < old(particles)@.len() ==> frame_fits(#[trigger] old(particles)@[i], force),
    ensures
        stepped(old(particles)@, force, reference, final(particles)@),
{
    particles.par_iter_mut().for_each(|p| p.advance(force, reference));
}

/// What the outside world hands the system for one frame.
#[derive(Clone, Copy, Debug, PartialEq, Eq, Structural)]
pub struct FrameInput {
    /// Whether the spawn trigger is held.
    pub trigger: bool,
    /// Where a held trigger spawns particles.
    pub trigger_position: Vec2,
    /// The point that particles take their colour from, if any.
    pub reference: Option<Vec2>,
    /// The world's rectangle; particles outside it are culled.
    pub bounds: Bounds,
}

/// A frame of any new particle at `position` under `force` stays within `i64`.
pub open spec fn spawn_fits(position: Vec2, force: Vec2) -> bool {
    &&& fits(force.x - SPEED_BOUND) && fits(force.x + SPEED_BOUND)
    &&& fits(force.y - SPEED_BOUND) && fits(force.y + SPEED_BOUND)
    &&& fits(position.x + force.x - SPEED_BOUND) && fits(position.x + force.x + SPEED_BOUND)
    &&& fits(position.y + force.y - SPEED_BOUND) && fits(position.y + force.y + SPEED_BOUND)
}

/// The demands of `frame` on the particles `s` and on `input`.
pub open spec fn frame_ready(s: Seq<Particle>, input: FrameInput) -> bool {
    &&& s.len() + SPAWN_LIMIT <= usize::MAX
    &&& forall|i: int| 0 <= i < s.len() ==> frame_fits(#[trigger] s[i], gravity_spec())
    &&& input.trigger ==> spawn_fits(input.trigger_position, gravity_spec())
}

/// One frame split in its stages: `batch` spawned after `before` (from 1 to
/// `SPAWN_LIMIT - 1` fresh particles at the trigger position when the trigger
/// is held, none otherwise), all of them stepped under gravity into `mid`, and
/// `mid` culled into `after`.
pub open spec fn frame_stages(
    before: Seq<Particle>,
    input: FrameInput,
    batch: Seq<Particle>,
    mid: Seq<Particle>,
    after: Seq<Particle>,
) -> bool {
    &&& if input.trigger {
        &&& 1 <= batch.len() < SPAWN_LIMIT
        &&& forall|i: int|
            0 <= i < batch.len() ==> is_fresh(#[trigger] batch[i], input.trigger_position)
    } else {
        batch.len() == 0
    }
    &&& stepped(before + batch, gravity_spec(), input.reference, mid)
    &&& after == culled(mid, input.bounds)
}

/// `after` is what one frame makes of `before`, for some spawned batch.
pub open spec fn frame_result(before: Seq<Particle>, input: FrameInput, after: Seq<Particle>) -> bool {
    exists|batch: Seq<Particle>, mid: Seq<Particle>|
        #[trigger] frame_stages(before, input, batch, mid, after)
}

/// Whether `position` passes `spawn_fits` under `force`.
pub fn spawn_fits_at(position: Vec2, force: Vec2) -> (r: bool)
    ensures
        r == spawn_fits(position, force),
{
    let v = SPEED_BOUND as i128;
    let fx = force.x as i128;
    let fy = force.y as i128;
    let px = position.x as i128;
    let py = position.y as i128;
    let lo = i64::MIN as i128;
    let hi = i64::MAX as i128;
    lo <= fx - v && fx + v <= hi && lo <= fy - v && fy + v <= hi && lo <= px + fx - v && px + fx
        + v <= hi && lo <= py + fy - v && py + fy + v <= hi
}

/// The particles of the simulation, owned by the system.
pub struct ParticleSystem {
    particles: Vec<Particle>,
}

impl View for ParticleSystem {
    type V = Seq<Particle>;

    closed spec fn view(&self) -> Seq<Particle> {
        self.particles@
    }
}

impl ParticleSystem {
    /// A system of `count` particles, each at a random position inside
    /// `bounds` (edges counted) and with a random velocity.
    pub fn initialize(bounds: Bounds, count: usize) -> (r: ParticleSystem)
        requires
            bounds.wf(),
        ensures
            r@.len() == count,
            all_inside(r@, bounds),
            forall|i: int| 0 <= i < r@.len() ==> is_fresh(#[trigger] r@[i], r@[i].position),
    {
        let mut particles: Vec<Particle> = Vec::new();
        let mut i: usize = 0;
        while i < count
            invariant
                bounds.wf(),
                i <= count,
                particles@.len() == i,
                all_inside(particles@, bounds),
                forall|j: int|
                    0 <= j < particles@.len() ==> is_fresh(#[trigger] particles@[j], particles@[j].position),
            decreases count - i,
        {
            let x = random_between(bounds.left, bounds.right);
            let y = random_between(bounds.bottom, bounds.top);
            particles.push(Particle::new(Vec2::new(x, y)));
            i = i + 1;
        }
        ParticleSystem { particles }
    }

    pub fn len(&self) -> (n: usize)
        ensures
            n == self@.len(),
    {
        self.particles.len()
    }

    /// The particles, in the system's order.
    pub fn particles(&self) -> (r: &Vec<Particle>)
        ensures
            r@ == self@,
    {
        &self.particles
    }

    /// Appends `count` particles at `position`, each with its own random
    /// velocity.
    pub fn spawn(&mut self, position: Vec2, count: usize)
        requires
            old(self)@.len() + count <= usize::MAX,
        ensures
            final(self)@.len() == old(self)@.len() + count,
            final(self)@.subrange(0, old(self)@.len() as int) == old(self)@,
            forall|i: int|
                old(self)@.len() <= i < final(self)@.len() ==> is_fresh(#[trigger] final(self)@[i], position),
    {
        let ghost start = self@;
        let mut k: usize = 0;
        while k < count
            invariant
                start.len() + count <= usize::MAX,
                k <= count,
                self@.len() == start.len() + k,
                self@.subrange(0, start.len() as int) == start,
                forall|i: int| start.len() <= i < self@.len() ==> is_fresh(#[trigger] self@[i], position),
            decreases count - k,
        {
            let ghost before = self@;
            self.particles.push(Particle::new(position));
            assert(self@.subrange(0, start.len() as int) =~= before.subrange(0, start.len() as int));
            k = k + 1;
        }
    }

    /// Whether `step` may run with `force`: one frame of every particle stays
    /// within `i64`.
    pub fn can_step(&self, force: Vec2) -> (r: bool)
        ensures
            r == (forall|i: int| 0 <= i < self@.len() ==> frame_fits(#[trigger] self@[i], force)),
    {
        let mut i: usize = 0;
        while i < self.particles.len()
            invariant
                i <= self@.len(),
                forall|j: int| 0 <= j < i ==> frame_fits(#[trigger] self@[j], force),
            decreases self@.len() - i,
        {
            let p = self.particles[i];
            let ax = p.acceleration.x as i128 + force.x as i128;
            let ay = p.acceleration.y as i128 + force.y as i128;
            let vx = p.velocity.x as i128 + ax;
            let vy = p.velocity.y as i128 + ay;
            let px = p.position.x as i128 + vx;
            let py = p.position.y as i128 + vy;
            let lo = i64::MIN as i128;
            let hi = i64::MAX as i128;
            if !(lo <= ax && ax <= hi && lo <= ay && ay <= hi && lo <= vx && vx <= hi && lo <= vy
                && vy <= hi && lo <= px && px <= hi && lo <= py && py <= hi) {
                assert(!frame_fits(self@[i as int], force));
                return false;
            }
            i = i + 1;
        }
        true
    }

    /// Advances every particle by one frame: `force` applied, one integration
    /// step, and the colour taken from `reference` when there is one. Each
    /// particle's work reads and writes that particle alone, and runs in
    /// parallel.
    pub fn step(&mut self, force: Vec2, reference: Option<Vec2>)
        requires
            forall|i: int| 0 <= i < old(self)@.len() ==> frame_fits(#[trigger] old(self)@[i], force),
        ensures
            stepped(old(self)@, force, reference, final(self)@),
    {
        advance_all(&mut self.particles, force, reference);
    }

    /// Removes every particle whose position lies outside `bounds`; one on an
    /// edge stays. The survivors keep their order.
    pub fn cull(&mut self, bounds: Bounds)
        ensures
            final(self)@ == culled(old(self)@, bounds),
            all_inside(final(self)@, bounds),
            final(self)@.len() <= old(self)@.len(),
    {
        let ghost s = self@;
        let mut kept: Vec<Particle> = Vec::new();
        let mut i: usize = 0;
        while i < self.particles.len()
            invariant
                self@ == s,
                i <= s.len(),
                kept@ == culled(s.take(i as int), bounds),
            decreases s.len() - i,
        {
            let p = self.particles[i];
            assert(s.take(i + 1).drop_last() =~= s.take(i as int));
            assert(s.take(i + 1).last() == p);
            if bounds.contains(p.position) {
                kept.push(p);
            }
            i = i + 1;
        }
        assert(s.take(s.len() as int) =~= s);
        proof {
            lemma_culled_inside(s, bounds);
        }
        self.particles = kept;
    }

    /// Whether `frame` may run on this system with `input`.
    pub fn ready_for(&self, input: &FrameInput) -> (r: bool)
        ensures
            r == frame_ready(self@, *input),
    {
        if self.particles.len() > usize::MAX - SPAWN_LIMIT as usize {
            return false;
        }
        if input.trigger && !spawn_fits_at(input.trigger_position, gravity()) {
            return false;
        }
        self.can_step(gravity())
    }

    /// One frame of the pipeline: when the trigger is held, spawn a random
    /// count from 1 to `SPAWN_LIMIT - 1` at the trigger position; then step
    /// every particle under gravity, coloured from the reference point if there
    /// is one; then cull to the bounds.
    pub fn frame(&mut self, input: FrameInput)
        requires
            frame_ready(old(self)@, input),
        ensures
            frame_result(old(self)@, input, final(self)@),
            all_inside(final(self)@, input.bounds),
            final(self)@.len() <= old(self)@.len() + if input.trigger { SPAWN_LIMIT - 1 } else { 0 },
    {
        let ghost before = self@;
        if input.trigger {
            let count = random_between(1, SPAWN_LIMIT - 1) as usize;
            self.spawn(input.trigger_position, count);
        }
        let ghost batch = self@.subrange(before.len() as int, self@.len() as int);
        assert(before + batch =~= self@);
        assert forall|i: int| 0 <= i < self@.len() implies frame_fits(#[trigger] self@[i], gravity_spec()) by {
            if i >= before.len() {
                assert(is_fresh(self@[i], input.trigger_position));
            } else {
                assert(self@[i] == before[i]);
            }
        }
        assert forall|i: int| 0 <= i < batch.len() implies is_fresh(#[trigger] batch[i], input.trigger_position) by {
            assert(batch[i] == self@[before.len() + i]);
        }
        self.step(gravity(), input.reference);
        let ghost mid = self@;
        self.cull(input.bounds);
        assert(frame_stages(before, input, batch, mid, self@));
    }

    /// The `(position, colour)` of each particle, in the system's order, for a
    /// renderer.
    pub fn snapshot(&self) -> (r: Vec<(Vec2, Rgba)>)
        ensures
            r@.len() == self@.len(),
            forall|i: int| 0 <= i < r@.len() ==> #[trigger] r@[i] == (self@[i].position, self@[i].color),
    {
        let mut out: Vec<(Vec2, Rgba)> = Vec::new();
        let mut i: usize = 0;
        while i < self.particles.len()
            invariant
                i <= self@.len(),
                out@.len() == i,
                forall|j: int| 0 <= j < i ==> #[trigger] out@[j] == (self@[j].position, self@[j].color),
            decreases self@.len() - i,
        {
            let p = self.particles[i];
            out.push((p.position, p.color));
            i = i + 1;
        }
        out
    }
}

} // verus!
