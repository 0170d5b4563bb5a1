//! The pool's guarantees that span more than one operation, stated and
//! proved over the same spec functions the operation contracts use.

use vstd::prelude::*;
use crate::particle_driver::{
    clamped, count_active, first_free, first_free_from, lemma_count_active_full,
    lemma_first_free_from_full, step_particle, Particle, ParticleDriver,
};

verus! {

/// One tick applied to a slot as `drive` applies it: a live particle takes
/// an Euler step, a free slot is left alone.
pub open spec fn step_if_active(p: Particle, dt: i64) -> Particle {
    if p.active {
        step_particle(p, dt)
    } else {
        p
    }
}

/// `n` ticks of fixed step `dt` applied to one slot.
pub open spec fn step_n(p: Particle, dt: i64, n: nat) -> Particle
    decreases n,
{
    if n == 0 {
        p
    } else {
        step_if_active(step_n(p, dt, (n - 1) as nat), dt)
    }
}

/// Capacity bound: once the active count has reached the capacity, no free
/// slot is left, so by the contract of `add_particle` a further allocation
/// reports failure and leaves the pool untouched.
pub proof fn lemma_capacity_bound(d: ParticleDriver)
    requires
        d.wf(),
        count_active(d.slots()) == d.capacity(),
    ensures
        forall|i: int| 0 <= i < d.capacity() ==> (#[trigger] d.slots()[i]).active,
        first_free(d.slots()) == d.capacity(),
{
    lemma_count_active_full(d.slots());
    lemma_first_free_from_full(d.slots(), 0);
}

/// Watermark tightness: on any well-formed pool — and `drive` re-establishes
/// well-formedness — every slot at or above `high_water` is free.
pub proof fn lemma_watermark_tightness(d: ParticleDriver)
    requires
        d.wf(),
    ensures
        forall|i: int| d.high_water() <= i < d.capacity() ==> !(#[trigger] d.slots()[i]).active,
{
}

/// Slot reuse: as soon as slot zero is free — because its particle expired
/// or the pool was cleared — it is the lowest free slot, so by the contract
/// of `add_particle` the next allocation claims exactly index zero.
pub proof fn lemma_reclaimed_slot_is_next(d: ParticleDriver)
    requires
        d.wf(),
        0 < d.capacity(),
        !d.slots()[0].active,
    ensures
        first_free(d.slots()) == 0,
{
    assert(first_free_from(d.slots(), 0) == 0);
}

/// Aging: a fresh particle of nonnegative lifetime, ticked `n` times with a
/// fixed nonnegative step `dt`, is still alive exactly while its cumulative
/// age `n * dt` has not passed its lifetime — so it expires on the first
/// tick whose cumulative age exceeds the lifetime, and while alive its age
/// is exactly `n * dt`.
pub proof fn lemma_aging(p: Particle, dt: i64, n: nat)
    requires
        p.active,
        p.age == 0,
        0 <= dt,
        0 <= p.lifetime,
        (n as int) * (dt as int) <= i64::MAX as int,
    ensures
        step_n(p, dt, n).lifetime == p.lifetime,
        step_n(p, dt, n).active <==> (n as int) * (dt as int) <= p.lifetime as int,
        step_n(p, dt, n).active ==> step_n(p, dt, n).age as int == (n as int) * (dt as int),
    decreases n,
{
    let ni: int = n as int;
    let di: int = dt as int;
    if n == 0 {
        assert(step_n(p, dt, n) == p);
        assert(ni * di == 0) by (nonlinear_arith)
            requires
                ni == 0,
        ;
    } else {
        let m: nat = (n - 1) as nat;
        let mi: int = m as int;
        assert(mi * di <= ni * di && 0 <= mi * di && mi * di + di == ni * di)
            by (nonlinear_arith)
            requires
                0 <= di,
                0 <= mi,
                mi + 1 == ni,
        ;
        lemma_aging(p, dt, m);
        let q = step_n(p, dt, m);
        if q.active {
            assert(clamped(q.age as int + di) == ni * di);
            assert(step_n(p, dt, n) == step_particle(q, dt));
        } else {
            assert(step_n(p, dt, n) == q);
        }
    }
}

/// Integration: a particle that survives a first step `dt1` and then takes
/// a second step `dt2` has moved, on every axis, by its velocity times the
/// total elapsed time `dt1 + dt2`, as long as no coordinate leaves the
/// `i64` range on the way.
pub proof fn lemma_integration(p: Particle, dt1: i64, dt2: i64)
    requires
        p.active,
        i64::MIN as int <= p.age + dt1 <= i64::MAX as int,
        p.age + dt1 <= p.lifetime,
        i64::MIN as int <= p.xpos + p.xvel * dt1 <= i64::MAX as int,
        i64::MIN as int <= p.xpos + p.xvel * (dt1 + dt2) <= i64::MAX as int,
        i64::MIN as int <= p.ypos + p.yvel * dt1 <= i64::MAX as int,
        i64::MIN as int <= p.ypos + p.yvel * (dt1 + dt2) <= i64::MAX as int,
        i64::MIN as int <= p.zpos + p.zvel * dt1 <= i64::MAX as int,
        i64::MIN as int <= p.zpos + p.zvel * (dt1 + dt2) <= i64::MAX as int,
    ensures
        step_if_active(step_if_active(p, dt1), dt2).xpos as int == p.xpos + p.xvel * (dt1
            + dt2),
        step_if_active(step_if_active(p, dt1), dt2).ypos as int == p.ypos + p.yvel * (dt1
            + dt2),
        step_if_active(step_if_active(p, dt1), dt2).zpos as int == p.zpos + p.zvel * (dt1
            + dt2),
{
    assert(p.xvel * dt1 + p.xvel * dt2 == p.xvel * (dt1 + dt2)
        && p.yvel * dt1 + p.yvel * dt2 == p.yvel * (dt1 + dt2)
        && p.zvel * dt1 + p.zvel * dt2 == p.zvel * (dt1 + dt2)) by (nonlinear_arith);
    let q = step_if_active(p, dt1);
    assert(q.active);
    assert(q.xpos as int == p.xpos + p.xvel * dt1);
}

} // verus!
