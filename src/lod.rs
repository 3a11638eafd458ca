use vstd::prelude::*;

verus! {

/// Largest streaming radius a configuration may use, in chunks.
pub const MAX_RADIUS: i32 = 1000;

/// Largest subdivision count of a chunk mesh.
pub const MAX_SUBDIVISIONS: u32 = 4096;

/// The configuration surface of the streaming engine.
#[derive(Clone, Copy, Debug, PartialEq, Eq, Structural)]
pub struct StreamConfig {
    /// Chunks in each direction from the observer's chunk that are kept.
    pub radius: i32,
    /// Chebyshev distance (in chunks) up to which chunks carry a collider.
    pub collider_radius: i32,
    /// Most asynchronous generations started in one tick.
    pub max_async_per_tick: usize,
    /// Distances at which detail drops to the second, third and fourth tier.
    pub lod1_distance: i32,
    pub lod2_distance: i32,
    pub lod3_distance: i32,
    /// Subdivision counts of the four tiers, nearest first.
    pub lod0_subdivisions: u32,
    pub lod1_subdivisions: u32,
    pub lod2_subdivisions: u32,
    pub lod3_subdivisions: u32,
}

impl StreamConfig {
    /// A usable configuration: radii ordered and bounded, tier thresholds
    /// ascending and subdivision counts non-increasing and positive.
    pub open spec fn wf(&self) -> bool {
        &&& 0 <= self.collider_radius <= self.radius <= MAX_RADIUS
        &&& self.lod1_distance <= self.lod2_distance <= self.lod3_distance
        &&& MAX_SUBDIVISIONS >= self.lod0_subdivisions >= self.lod1_subdivisions
        &&& self.lod1_subdivisions >= self.lod2_subdivisions >= self.lod3_subdivisions >= 1
    }

    /// The configuration the game ships with.
    pub fn standard() -> (r: StreamConfig)
        ensures
            r.wf(),
            r.radius == 12,
            r.collider_radius == 2,
            r.max_async_per_tick == 8,
            r.lod1_distance == 3,
            r.lod2_distance == 6,
            r.lod3_distance == 9,
            r.lod0_subdivisions == 64,
            r.lod1_subdivisions == 32,
            r.lod2_subdivisions == 16,
            r.lod3_subdivisions == 8,
    {
        StreamConfig {
            radius: 12,
            collider_radius: 2,
            max_async_per_tick: 8,
            lod1_distance: 3,
            lod2_distance: 6,
            lod3_distance: 9,
            lod0_subdivisions: 64,
            lod1_subdivisions: 32,
            lod2_subdivisions: 16,
            lod3_subdivisions: 8,
        }
    }
}

/// Subdivision count for a chunk at Chebyshev distance `d` from the observer.
pub open spec fn lod_of(cfg: StreamConfig, d: int) -> u32 {
    if d < cfg.lod1_distance {
        cfg.lod0_subdivisions
    } else if d < cfg.lod2_distance {
        cfg.lod1_subdivisions
    } else if d < cfg.lod3_distance {
        cfg.lod2_subdivisions
    } else {
        cfg.lod3_subdivisions
    }
}

/// Subdivision count (level of detail) for a chunk at distance `chunk_distance`.
pub fn get_lod_level(cfg: &StreamConfig, chunk_distance: i64) -> (r: u32)
    ensures
        r == lod_of(*cfg, chunk_distance as int),
{
    if chunk_distance < cfg.lod1_distance as i64 {
        cfg.lod0_subdivisions
    } else if chunk_distance < cfg.lod2_distance as i64 {
        cfg.lod1_subdivisions
    } else if chunk_distance < cfg.lod3_distance as i64 {
        cfg.lod2_subdivisions
    } else {
        cfg.lod3_subdivisions
    }
}

/// Detail never grows with distance: a nearer chunk gets at least as many
/// subdivisions as a farther one.
pub proof fn lemma_lod_monotone(cfg: StreamConfig, d1: int, d2: int)
    requires
        cfg.wf(),
        d1 < d2,
    ensures
        lod_of(cfg, d1) >= lod_of(cfg, d2),
{
}

} // verus!
