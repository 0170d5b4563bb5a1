//! The simulated world state that the driving loop owns and the renderer
//! reads. Rendering, input handling, and map editing live with the host
//! program; the world keeps only the state whose behaviour this crate
//! verifies — the particle pool — and forwards the per-tick update to it.

use vstd::prelude::*;
use crate::particle_driver::ParticleDriver;

verus! {

/// The world as the per-tick update loop sees it: the owner of the particle
/// pool. The pool's two-watermark invariant is carried here as `wf`.
pub struct GameWorld {
    pub particles: ParticleDriver,
}

impl GameWorld {
    /// The world is well formed when its pool is.
    pub open spec fn wf(&self) -> bool {
        self.particles.wf()
    }

    /// A world with an empty pool of the default capacity.
    pub fn new() -> (w: GameWorld)
        ensures
            w.wf(),
            w.particles.high_water() == 0,
    {
        GameWorld { particles: ParticleDriver::new() }
    }

    /// One tick of simulated time: advances every live particle by `dt`,
    /// exactly as `ParticleDriver::drive` does.
    pub fn update(&mut self, dt: i64)
        requires
            old(self).wf(),
        ensures
            final(self).wf(),
            ParticleDriver::drive_transition(old(self).particles, final(self).particles, dt),
    {
        self.particles.drive(dt);
    }
}

} // verus!
