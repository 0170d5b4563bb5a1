//! The particle pool: a fixed array of slots plus two watermarks.
//!
//! Slot state machine: a slot is free until `add_particle` claims it, and it
//! becomes free again when `drive` detects expiry (`age > lifetime`) or when
//! `clear` runs. `add_particle` scans from the `search_from` hint upward and,
//! because every slot below the hint is occupied, always claims the lowest
//! free slot. `drive` only scans below `high_water` and re-tightens both
//! watermarks: `high_water` to one past the highest surviving particle and
//! `search_from` down to the lowest free slot where that lies below the hint.

use vstd::prelude::*;

verus! {

/// Number of slots in a pool built by `ParticleDriver::new`.
pub const PMAX: usize = 1024;

/// A color as three fixed-point channels, opaque to the pool.
#[derive(Clone, Copy, PartialEq, Eq, Structural, Debug)]
pub struct Rgb {
    pub r: i64,
    pub g: i64,
    pub b: i64,
}

/// One slot of the pool. All physical quantities are fixed-point integers:
/// positions in subunits, velocities in subunits per time unit, and
/// `age` / `lifetime` in time units.
#[derive(Clone, Copy, PartialEq, Eq, Structural, Debug)]
pub struct Particle {
    pub active: bool,
    pub lifetime: i64,
    pub age: i64,
    pub xpos: i64,
    pub ypos: i64,
    pub zpos: i64,
    pub xvel: i64,
    pub yvel: i64,
    pub zvel: i64,
    pub tex_id: usize,
    pub color: Rgb,
}

/// The state every slot starts in: inactive, with all quantities zero.
pub open spec fn inactive_particle() -> Particle {
    Particle {
        active: false,
        lifetime: 0,
        age: 0,
        xpos: 0,
        ypos: 0,
        zpos: 0,
        xvel: 0,
        yvel: 0,
        zvel: 0,
        tex_id: 0,
        color: Rgb { r: 0, g: 0, b: 0 },
    }
}

fn blank_particle() -> (p: Particle)
    ensures
        p == inactive_particle(),
{
    Particle {
        active: false,
        lifetime: 0,
        age: 0,
        xpos: 0,
        ypos: 0,
        zpos: 0,
        xvel: 0,
        yvel: 0,
        zvel: 0,
        tex_id: 0,
        color: Rgb { r: 0, g: 0, b: 0 },
    }
}

/// `x` brought back into the `i64` range: fixed-point arithmetic in the pool
/// saturates instead of wrapping.
pub open spec fn clamped(x: int) -> int {
    if x > i64::MAX as int {
        i64::MAX as int
    } else if x < i64::MIN as int {
        i64::MIN as int
    } else {
        x
    }
}

/// The index of the lowest free slot at or above `i`, or `s.len()` if every
/// slot at or above `i` is occupied.
pub open spec fn first_free_from(s: Seq<Particle>, i: int) -> int
    decreases s.len() - i,
{
    if i >= s.len() {
        s.len() as int
    } else if !s[i].active {
        i
    } else {
        first_free_from(s, i + 1)
    }
}

/// The index of the lowest free slot, or `s.len()` if the pool is full.
pub open spec fn first_free(s: Seq<Particle>) -> int {
    first_free_from(s, 0)
}

/// How many slots hold a live particle.
pub open spec fn count_active(s: Seq<Particle>) -> int
    decreases s.len(),
{
    if s.len() == 0 {
        0
    } else {
        count_active(s.drop_last()) + (if s.last().active { 1int } else { 0int })
    }
}

/// A particle as `add_particle` writes it into the claimed slot: live, with
/// age zero and the caller's state.
pub open spec fn spawned_particle(
    x: i64,
    y: i64,
    z: i64,
    xv: i64,
    yv: i64,
    zv: i64,
    lifetime: i64,
    tex_id: usize,
    color: Rgb,
) -> Particle {
    Particle {
        active: true,
        lifetime: lifetime,
        age: 0,
        xpos: x,
        ypos: y,
        zpos: z,
        xvel: xv,
        yvel: yv,
        zvel: zv,
        tex_id: tex_id,
        color: color,
    }
}

/// One Euler step of a live particle: age by `dt`, move by `velocity * dt`,
/// and expire (deactivate) if the new age exceeds the lifetime. All sums
/// saturate at the `i64` bounds.
pub open spec fn step_particle(p: Particle, dt: i64) -> Particle {
    let new_age = clamped(p.age + dt);
    Particle {
        active: new_age <= p.lifetime,
        age: new_age as i64,
        xpos: clamped(p.xpos + p.xvel * dt) as i64,
        ypos: clamped(p.ypos + p.yvel * dt) as i64,
        zpos: clamped(p.zpos + p.zvel * dt) as i64,
        ..p
    }
}

/// A scan that starts at `lo` and finds only occupied slots until the free
/// slot at `i` lands exactly on `i`.
pub proof fn lemma_first_free_from_found(s: Seq<Particle>, lo: int, i: int)
    requires
        0 <= lo <= i < s.len(),
        !s[i].active,
        forall|k: int| lo <= k < i ==> (#[trigger] s[k]).active,
    ensures
        first_free_from(s, lo) == i,
    decreases i - lo,
{
    if lo < i {
        lemma_first_free_from_found(s, lo + 1, i);
    }
}

/// A scan that starts at `lo` and finds only occupied slots runs off the end.
pub proof fn lemma_first_free_from_full(s: Seq<Particle>, lo: int)
    requires
        0 <= lo <= s.len(),
        forall|k: int| lo <= k < s.len() ==> (#[trigger] s[k]).active,
    ensures
        first_free_from(s, lo) == s.len(),
    decreases s.len() - lo,
{
    if lo < s.len() {
        lemma_first_free_from_full(s, lo + 1);
    }
}

/// Bounds for the scan: it never answers below its starting point nor past
/// the end, and where it stops short of the end the slot there is free.
pub proof fn lemma_first_free_from_range(s: Seq<Particle>, lo: int)
    requires
        0 <= lo <= s.len(),
    ensures
        lo <= first_free_from(s, lo) <= s.len(),
        first_free_from(s, lo) < s.len() ==> !s[first_free_from(s, lo)].active,
    decreases s.len() - lo,
{
    if lo < s.len() && s[lo].active {
        lemma_first_free_from_range(s, lo + 1);
    }
}

/// A scan may skip a fully occupied prefix without changing its answer.
pub proof fn lemma_first_free_from_skip(s: Seq<Particle>, lo: int, m: int)
    requires
        0 <= lo <= m <= s.len(),
        forall|k: int| lo <= k < m ==> (#[trigger] s[k]).active,
    ensures
        first_free_from(s, lo) == first_free_from(s, m),
    decreases m - lo,
{
    if lo < m {
        lemma_first_free_from_skip(s, lo + 1, m);
    }
}

/// Writing a live particle into a free slot raises the active count by one.
pub proof fn lemma_count_active_update(s: Seq<Particle>, i: int, p: Particle)
    requires
        0 <= i < s.len(),
        !s[i].active,
        p.active,
    ensures
        count_active(s.update(i, p)) == count_active(s) + 1,
    decreases s.len(),
{
    let t = s.update(i, p);
    if i == s.len() - 1 {
        assert(t.drop_last() =~= s.drop_last());
    } else {
        assert(t.drop_last() =~= s.drop_last().update(i, p));
        lemma_count_active_update(s.drop_last(), i, p);
    }
}

/// The active count is zero exactly when no slot holds a live particle.
pub proof fn lemma_count_active_none(s: Seq<Particle>)
    ensures
        (count_active(s) == 0) <==> (forall|i: int|
            0 <= i < s.len() ==> !(#[trigger] s[i]).active),
    decreases s.len(),
{
    if s.len() > 0 {
        lemma_count_active_none(s.drop_last());
        lemma_count_active_full(s.drop_last());
        assert(forall|i: int| 0 <= i < s.len() - 1 ==> s.drop_last()[i] == s[i]);
        assert(s[s.len() - 1] == s.last());
    }
}

/// The active count never exceeds the slot count, and reaches it exactly
/// when every slot is occupied.
pub proof fn lemma_count_active_full(s: Seq<Particle>)
    ensures
        0 <= count_active(s) <= s.len(),
        (count_active(s) == s.len()) <==> (forall|i: int|
            0 <= i < s.len() ==> (#[trigger] s[i]).active),
    decreases s.len(),
{
    if s.len() > 0 {
        lemma_count_active_full(s.drop_last());
        assert(forall|i: int| 0 <= i < s.len() - 1 ==> s.drop_last()[i] == s[i]);
        if count_active(s) == s.len() {
            assert(s.last().active);
            assert(forall|i: int| 0 <= i < s.len() - 1 ==> (#[trigger] s[i]).active);
            assert(s[s.len() - 1].active);
        }
        if forall|i: int| 0 <= i < s.len() ==> (#[trigger] s[i]).active {
            assert(forall|i: int|
                0 <= i < s.len() - 1 ==> (#[trigger] s.drop_last()[i]).active);
            assert(s[s.len() - 1].active);
        }
    }
}

/// The sum of `a` and `b`, saturating at the `i64` bounds.
fn sat_add64(a: i64, b: i64) -> (r: i64)
    ensures
        r as int == clamped(a + b),
{
    let s: i128 = a as i128 + b as i128;
    if s > i64::MAX as i128 {
        i64::MAX
    } else if s < i64::MIN as i128 {
        i64::MIN
    } else {
        s as i64
    }
}

/// `base + vel * dt`, saturating at the `i64` bounds: one exact Euler step
/// of one coordinate.
fn sat_step64(base: i64, vel: i64, dt: i64) -> (r: i64)
    ensures
        r as int == clamped(base + vel * dt),
{
    proof {
        assert((vel as int) * (dt as int) <= 0x4000_0000_0000_0000_0000_0000_0000_0000int
            && (vel as int) * (dt as int) >= -0x4000_0000_0000_0000_0000_0000_0000_0000int)
            by (nonlinear_arith)
            requires
                i64::MIN as int <= vel as int <= i64::MAX as int,
                i64::MIN as int <= dt as int <= i64::MAX as int,
        ;
    }
    let p: i128 = (vel as i128) * (dt as i128);
    let s: i128 = (base as i128) + p;
    if s > i64::MAX as i128 {
        i64::MAX
    } else if s < i64::MIN as i128 {
        i64::MIN
    } else {
        s as i64
    }
}

/// The pool. `particles` never changes length; `start_search_mark` is the
/// free-slot hint and `last_particle_mark` the exclusive bound on the prefix
/// that may hold an active particle. The `spawn_*` fields are pass-through
/// configuration for an external spawn-decision policy; the pool itself
/// never reads them.
pub struct ParticleDriver {
    start_search_mark: usize,
    last_particle_mark: usize,
    particles: Vec<Particle>,
    pub spawn_ids: Vec<usize>,
    pub spawn_chance: i64,
    pub spawn_tile_set: usize,
}

impl ParticleDriver {
    /// The slot array, as the vector `for_each_particle` hands out.
    pub closed spec fn spec_particles(&self) -> Vec<Particle> {
        self.particles
    }

    /// The `high_water` mark, as the bound `for_each_particle` hands out.
    pub closed spec fn spec_mark(&self) -> usize {
        self.last_particle_mark
    }

    /// The slot array, as a sequence.
    pub open spec fn slots(&self) -> Seq<Particle> {
        self.spec_particles()@
    }

    /// The free-slot search hint: every slot below it is occupied.
    pub closed spec fn search_from(&self) -> int {
        self.start_search_mark as int
    }

    /// Exclusive upper bound on the prefix that may hold an active particle.
    pub open spec fn high_water(&self) -> int {
        self.spec_mark() as int
    }

    /// The fixed number of slots.
    pub open spec fn capacity(&self) -> int {
        self.slots().len() as int
    }

    /// The pool's invariant: both watermarks are in range, every slot at or
    /// above `high_water` is free, and every slot below `search_from` is
    /// occupied (so a scan from the hint can never skip a free slot).
    pub open spec fn wf(&self) -> bool {
        &&& 0 <= self.search_from() <= self.capacity()
        &&& 0 <= self.high_water() <= self.capacity()
        &&& forall|i: int|
            self.high_water() <= i < self.capacity() ==> !(#[trigger] self.slots()[i]).active
        &&& forall|i: int| 0 <= i < self.search_from() ==> (#[trigger] self.slots()[i]).active
    }

    /// The spawn-id list, as a sequence.
    pub closed spec fn spec_spawn_ids(&self) -> Seq<usize> {
        self.spawn_ids@
    }

    /// The configured spawn probability (fixed point).
    pub closed spec fn spec_spawn_chance(&self) -> i64 {
        self.spawn_chance
    }

    /// The configured spawn tile set.
    pub closed spec fn spec_spawn_tile_set(&self) -> usize {
        self.spawn_tile_set
    }

    /// The spawn-policy pass-through fields, unchanged between two states.
    pub open spec fn same_spawn_config(&self, other: &ParticleDriver) -> bool {
        &&& self.spec_spawn_ids() == other.spec_spawn_ids()
        &&& self.spec_spawn_chance() == other.spec_spawn_chance()
        &&& self.spec_spawn_tile_set() == other.spec_spawn_tile_set()
    }

    /// An empty pool with `capacity` slots.
    pub fn with_capacity(capacity: usize) -> (d: ParticleDriver)
        ensures
            d.wf(),
            d.capacity() == capacity,
            d.high_water() == 0,
            d.search_from() == 0,
            forall|i: int| 0 <= i < capacity ==> d.slots()[i] == inactive_particle(),
            d.spec_spawn_ids().len() == 0,
            d.spec_spawn_chance() == 0,
            d.spec_spawn_tile_set() == 1,
    {
        let mut particles: Vec<Particle> = Vec::new();
        let mut i: usize = 0;
        while i < capacity
            invariant
                i <= capacity,
                particles@.len() == i,
                forall|k: int| 0 <= k < i ==> particles@[k] == inactive_particle(),
            decreases capacity - i,
        {
            particles.push(blank_particle());
            i += 1;
        }
        ParticleDriver {
            start_search_mark: 0,
            last_particle_mark: 0,
            particles,
            spawn_ids: Vec::new(),
            spawn_chance: 0,
            spawn_tile_set: 1,
        }
    }

    /// An empty pool with the default `PMAX` slots.
    pub fn new() -> (d: ParticleDriver)
        ensures
            d.wf(),
            d.capacity() == PMAX,
            d.high_water() == 0,
            d.search_from() == 0,
            forall|i: int| 0 <= i < PMAX ==> d.slots()[i] == inactive_particle(),
            d.spec_spawn_ids().len() == 0,
            d.spec_spawn_chance() == 0,
            d.spec_spawn_tile_set() == 1,
    {
        ParticleDriver::with_capacity(PMAX)
    }

    /// Claims the lowest free slot for a new particle, writing the caller's
    /// state into it with age zero, and reports whether a slot was found.
    /// On success `high_water` grows to cover the claimed slot, and the
    /// `search_from` hint moves past it only when the slot lay strictly
    /// above the hint. A full pool is left untouched.
    pub fn add_particle(
        &mut self,
        x: i64,
        y: i64,
        z: i64,
        xv: i64,
        yv: i64,
        zv: i64,
        lifetime: i64,
        tex_id: usize,
        color: Rgb,
    ) -> (added: bool)
        requires
            old(self).wf(),
        ensures
            final(self).wf(),
            final(self).capacity() == old(self).capacity(),
            final(self).same_spawn_config(old(self)),
            added == (first_free(old(self).slots()) < old(self).capacity()),
            !added ==> *final(self) == *old(self),
            added ==> ({
                let i = first_free(old(self).slots());
                &&& final(self).slots() == old(self).slots().update(
                    i,
                    spawned_particle(x, y, z, xv, yv, zv, lifetime, tex_id, color),
                )
                &&& final(self).high_water() == (if i + 1 > old(self).high_water() {
                    i + 1
                } else {
                    old(self).high_water()
                })
                &&& final(self).search_from() == (if i > old(self).search_from() {
                    i + 1
                } else {
                    old(self).search_from()
                })
            }),
            added ==> count_active(final(self).slots()) == count_active(old(self).slots())
                + 1,
    {
        let n: usize = self.particles.len();
        let mut i: usize = self.start_search_mark;
        while i < n
            invariant
                *self == *old(self),
                n == self.particles@.len(),
                self.start_search_mark <= i <= n,
                forall|k: int|
                    self.search_from() <= k < i ==> (#[trigger] self.slots()[k]).active,
            decreases n - i,
        {
            if !self.particles[i].active {
                proof {
                    lemma_first_free_from_found(self.slots(), 0, i as int);
                    lemma_count_active_update(
                        self.slots(),
                        i as int,
                        spawned_particle(x, y, z, xv, yv, zv, lifetime, tex_id, color),
                    );
                }
                let p = Particle {
                    active: true,
                    lifetime: lifetime,
                    age: 0,
                    xpos: x,
                    ypos: y,
                    zpos: z,
                    xvel: xv,
                    yvel: yv,
                    zvel: zv,
                    tex_id: tex_id,
                    color: color,
                };
                self.particles.set(i, p);
                if i + 1 > self.last_particle_mark {
                    self.last_particle_mark = i + 1;
                }
                if i > self.start_search_mark {
                    self.start_search_mark = i + 1;
                }
                return true;
            }
            i += 1;
        }
        proof {
            lemma_first_free_from_full(self.slots(), 0);
        }
        false
    }

    /// What one call of `drive(dt)` does to the pool: every live particle
    /// below `high_water` takes one Euler step (see `step_particle`) and is
    /// deactivated once its age exceeds its lifetime; every other slot is
    /// untouched. Afterwards `high_water` is tight again — one past the
    /// highest surviving particle, or zero — and `search_from` has dropped
    /// to the lowest free slot wherever that lies below the old hint.
    pub open spec fn drive_transition(pre: ParticleDriver, post: ParticleDriver, dt: i64) -> bool {
        &&& post.wf()
        &&& post.capacity() == pre.capacity()
        &&& post.same_spawn_config(&pre)
        &&& forall|i: int|
            0 <= i < pre.high_water() && pre.slots()[i].active
                ==> (#[trigger] post.slots()[i]) == step_particle(pre.slots()[i], dt)
        &&& forall|i: int|
            0 <= i < pre.high_water() && !pre.slots()[i].active
                ==> (#[trigger] post.slots()[i]) == pre.slots()[i]
        &&& forall|i: int|
            pre.high_water() <= i < pre.capacity() ==> (#[trigger] post.slots()[i])
                == pre.slots()[i]
        &&& post.high_water() <= pre.high_water()
        &&& post.high_water() > 0 ==> post.slots()[post.high_water() - 1].active
        &&& forall|i: int|
            post.high_water() <= i < post.capacity() ==> !(#[trigger] post.slots()[i]).active
        &&& post.search_from() == (if first_free(post.slots()) < pre.search_from() {
            first_free(post.slots())
        } else {
            pre.search_from()
        })
    }

    /// One simulation tick, as `drive_transition` states it.
    pub fn drive(&mut self, dt: i64)
        requires
            old(self).wf(),
        ensures
            ParticleDriver::drive_transition(*old(self), *final(self), dt),
    {
        proof {
            assert(old(self).search_from() <= old(self).high_water()) by {
                if old(self).search_from() > old(self).high_water() {
                    assert(old(self).slots()[old(self).high_water()].active);
                    assert(!old(self).slots()[old(self).high_water()].active);
                }
            }
        }
        let hw: usize = self.last_particle_mark;
        let mut new_mark: usize = 0;
        let mut i: usize = 0;
        while i < hw
            invariant
                hw == old(self).last_particle_mark,
                i <= hw,
                new_mark <= i,
                self.particles@.len() == old(self).slots().len(),
                self.last_particle_mark == old(self).last_particle_mark,
                self.same_spawn_config(old(self)),
                self.search_from() <= old(self).search_from(),
                self.search_from() < old(self).search_from() ==> self.search_from() < i
                    && !self.slots()[self.search_from()].active,
                forall|k: int|
                    0 <= k < self.search_from() && k < i ==> (#[trigger] self.slots()[k]).active,
                forall|k: int|
                    0 <= k < i && old(self).slots()[k].active ==> (#[trigger] self.slots()[k])
                        == step_particle(old(self).slots()[k], dt),
                forall|k: int|
                    0 <= k < i && !old(self).slots()[k].active ==> (#[trigger] self.slots()[k])
                        == old(self).slots()[k],
                forall|k: int|
                    i <= k < self.particles@.len() ==> (#[trigger] self.slots()[k]) == old(
                        self,
                    ).slots()[k],
                forall|k: int| new_mark <= k < i ==> !(#[trigger] self.slots()[k]).active,
                new_mark > 0 ==> self.slots()[new_mark - 1].active,
            decreases hw - i,
        {
            let p = self.particles[i];
            let ghost pre = self.slots();
            if p.active {
                let new_age: i64 = sat_add64(p.age, dt);
                let still_alive: bool = new_age <= p.lifetime;
                let q = Particle {
                    active: still_alive,
                    age: new_age,
                    xpos: sat_step64(p.xpos, p.xvel, dt),
                    ypos: sat_step64(p.ypos, p.yvel, dt),
                    zpos: sat_step64(p.zpos, p.zvel, dt),
                    ..p
                };
                proof {
                    assert(q == step_particle(p, dt));
                }
                self.particles.set(i, q);
                if still_alive {
                    new_mark = i + 1;
                } else {
                    if i < self.start_search_mark {
                        self.start_search_mark = i;
                    }
                }
                proof {
                    assert(self.slots() == pre.update(i as int, q));
                }
            } else {
                if i < self.start_search_mark {
                    self.start_search_mark = i;
                }
                proof {
                    assert(self.slots() == pre);
                }
            }
            i += 1;
        }
        let ghost done = self.slots();
        proof {
            assert(forall|k: int|
                0 <= k < self.search_from() && k < hw as int ==> (#[trigger] done[k]).active);
        }
        self.last_particle_mark = new_mark;
        proof {
            assert(self.slots() == done);
            if self.search_from() < old(self).search_from() {
                lemma_first_free_from_found(done, 0, self.search_from());
            } else {
                lemma_first_free_from_skip(done, 0, old(self).search_from());
                lemma_first_free_from_range(done, old(self).search_from());
            }
        }
    }

    /// Deactivates every slot below `high_water` — each keeps its other
    /// state, as the slots above `high_water` keep theirs — and resets both
    /// watermarks to zero. Costs one pass over the active range, not over
    /// the whole capacity.
    pub fn clear(&mut self)
        requires
            old(self).wf(),
        ensures
            final(self).wf(),
            final(self).capacity() == old(self).capacity(),
            final(self).same_spawn_config(old(self)),
            final(self).high_water() == 0,
            final(self).search_from() == 0,
            forall|i: int|
                0 <= i < old(self).high_water() ==> (#[trigger] final(self).slots()[i]) == (Particle {
                    active: false,
                    ..old(self).slots()[i]
                }),
            forall|i: int|
                old(self).high_water() <= i < old(self).capacity()
                    ==> (#[trigger] final(self).slots()[i]) == old(self).slots()[i],
            forall|i: int|
                0 <= i < final(self).capacity() ==> !(#[trigger] final(self).slots()[i]).active,
            count_active(final(self).slots()) == 0,
    {
        let hw: usize = self.last_particle_mark;
        let mut i: usize = 0;
        while i < hw
            invariant
                i <= hw,
                hw == old(self).last_particle_mark,
                self.last_particle_mark == old(self).last_particle_mark,
                self.start_search_mark == old(self).start_search_mark,
                self.particles@.len() == old(self).slots().len(),
                self.same_spawn_config(old(self)),
                forall|k: int|
                    0 <= k < i ==> (#[trigger] self.slots()[k]) == (Particle {
                        active: false,
                        ..old(self).slots()[k]
                    }),
                forall|k: int|
                    i <= k < self.particles@.len() ==> (#[trigger] self.slots()[k]) == old(
                        self,
                    ).slots()[k],
            decreases hw - i,
        {
            let ghost pre = self.slots();
            let p = self.particles[i];
            let q = Particle { active: false, ..p };
            self.particles.set(i, q);
            proof {
                assert(self.slots() == pre.update(i as int, q));
            }
            i += 1;
        }
        let ghost done = self.slots();
        self.start_search_mark = 0;
        self.last_particle_mark = 0;
        proof {
            assert(self.slots() == done);
            lemma_count_active_none(done);
        }
    }

    /// Whether any slot inside the scanned range may hold a live particle:
    /// true exactly when `high_water` is positive. On a well-formed pool a
    /// negative answer means every slot is free.
    pub fn has_particles(&self) -> (r: bool)
        ensures
            r == (self.high_water() > 0),
            !r && self.wf() ==> forall|i: int|
                0 <= i < self.capacity() ==> !(#[trigger] self.slots()[i]).active,
    {
        self.last_particle_mark > 0
    }

    /// Hands the caller read-only access to the backing slot array together
    /// with the current `high_water` bound: the caller iterates the indices
    /// below the bound and checks `active` per slot itself. Nothing is
    /// filtered or copied.
    pub fn for_each_particle<F: FnOnce(&Vec<Particle>, usize)>(&self, call: F)
        requires
            call_requires(call, (&self.spec_particles(), self.spec_mark())),
        ensures
            call_ensures(call, (&self.spec_particles(), self.spec_mark()), ()),
    {
        call(&self.particles, self.last_particle_mark);
    }
}

} // verus!
