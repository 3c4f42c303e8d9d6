//! Immutable generation parameters, shared by every component.

use vstd::prelude::*;

verus! {

/// The parameters of one generation run: the square grid's side length, the
/// bounds on a room's nominal extent, how many levels to build in total, how
/// many workers share that total, the per-level candidate budget, and the
/// per-level room-count target.
#[derive(Clone, Copy, Debug)]
pub struct Config {
    /// Side length of the square tile grid.
    pub tile_dim: u32,
    /// Added to every drawn extent, so extents lie in `[min_wid, min_wid + max_wid)`.
    pub min_wid: u32,
    /// Exclusive upper bound on a drawn extent before `min_wid` is added.
    pub max_wid: u32,
    /// Total number of levels generated across all workers.
    pub num_levs: usize,
    /// Number of workers the total is partitioned across.
    pub num_cores: usize,
    /// Candidate proposals a room placer may spend on one level.
    pub num_tries: usize,
    /// Room count at which a room placer stops early.
    pub target_rooms: usize,
}

impl Config {
    /// Bounds under which every arithmetic step of the generator fits its
    /// machine integer: a positive grid whose cell count fits `u32`, extent
    /// bounds whose sum fits `u32`, at least one worker, and counts that fit
    /// `u32` where they become room indices or worker ordinals.
    pub open spec fn wf(self) -> bool {
        &&& 0 < self.tile_dim
        &&& 0 < self.max_wid
        &&& self.tile_dim * self.tile_dim <= u32::MAX
        &&& self.min_wid + self.max_wid <= u32::MAX
        &&& 0 < self.num_cores <= u32::MAX
        &&& self.num_tries <= u32::MAX
    }

    /// The fixed parameters of a standard run.
    pub open spec fn standard_spec() -> Config {
        Config {
            tile_dim: 50,
            min_wid: 2,
            max_wid: 8,
            num_levs: 800,
            num_cores: 4,
            num_tries: 50000,
            target_rooms: 99,
        }
    }

    /// Builds the standard configuration.
    pub fn standard() -> (c: Config)
        ensures
            c == Config::standard_spec(),
            c.wf(),
    {
        Config {
            tile_dim: 50,
            min_wid: 2,
            max_wid: 8,
            num_levs: 800,
            num_cores: 4,
            num_tries: 50000,
            target_rooms: 99,
        }
    }
}

} // verus!
