use vstd::prelude::*;
use crate::coords::{ChunkCoord, cheb, chebyshev_distance};
use crate::lod::{StreamConfig, lod_of, get_lod_level, MAX_RADIUS};
use crate::state::{Terrain, TerrainChunk};

verus! {

/// What the scene must do to mirror one decision of the streaming engine.
#[derive(Clone, Copy, PartialEq, Eq, Debug)]
pub enum TerrainCommand {
    /// Destroy the chunk entity at this coordinate.
    Despawn(ChunkCoord),
    /// Frustum-cull the chunk entity: keep it and its mesh, stop drawing it.
    Hide(ChunkCoord),
    /// Draw a culled chunk entity again.
    Show(ChunkCoord),
    /// Rebuild the chunk's mesh in place at a new subdivision count, then
    /// attach (or remove) its collider.
    Rebuild { coord: ChunkCoord, lod_level: u32, with_collider: bool },
    /// Build a collider from the chunk's current mesh.
    AttachCollider(ChunkCoord),
    /// Remove the chunk's collider.
    DetachCollider(ChunkCoord),
    /// Build the chunk now, with a collider.
    SpawnNow { coord: ChunkCoord, lod_level: u32 },
    /// Start building the chunk in the background, without a collider.
    SpawnAsync { coord: ChunkCoord, lod_level: u32 },
}

/// Cells of a view mask: one per coordinate of the square window of
/// half-width `radius` around the observer.
pub open spec fn window_len(radius: int) -> int {
    (2 * radius + 1) * (2 * radius + 1)
}

/// Cell of the view mask that holds offset `(dx, dz)` from the observer:
/// rows run over `dx`, columns over `dz`, both from `-radius` to `radius`.
pub open spec fn window_index(radius: int, dx: int, dz: int) -> int {
    (dx + radius) * (2 * radius + 1) + (dz + radius)
}

/// Whether the view mask reports coordinate `c` as inside the camera frustum.
pub open spec fn seen(cfg: StreamConfig, mask: Seq<bool>, obs: ChunkCoord, c: ChunkCoord) -> bool {
    mask[window_index(cfg.radius as int, c.0 - obs.0, c.1 - obs.1)]
}

/// Number of cells a view mask for `cfg` must have.
pub fn view_mask_len(cfg: &StreamConfig) -> (r: usize)
    requires
        cfg.wf(),
    ensures
        r == window_len(cfg.radius as int),
{
    let w: usize = (2 * cfg.radius + 1) as usize;
    assert(w * w <= 2001 * 2001) by (nonlinear_arith)
        requires w <= 2001;
    w * w
}

/// Looks up whether `c`, which lies within the streaming radius, is in view.
pub fn view_at(cfg: &StreamConfig, mask: &Vec<bool>, obs: ChunkCoord, c: ChunkCoord) -> (r: bool)
    requires
        cfg.wf(),
        mask@.len() == window_len(cfg.radius as int),
        cheb(c, obs) <= cfg.radius,
    ensures
        r == seen(*cfg, mask@, obs, c),
{
    let rad: i64 = cfg.radius as i64;
    let w: i64 = 2 * rad + 1;
    let a: i64 = c.0 as i64 - obs.0 as i64 + rad;
    let b: i64 = c.1 as i64 - obs.1 as i64 + rad;
    assert(0 <= a < w && 0 <= b < w && w <= 2001);
    assert(0 <= a * w + b < w * w <= 2001 * 2001) by (nonlinear_arith)
        requires 0 <= a < w, 0 <= b < w, w <= 2001;
    assert(w * w == window_len(rad as int)) by (nonlinear_arith)
        requires w == 2 * rad + 1;
    mask[(a * w + b) as usize]
}

/// The chunk entity after one tick, or `None` when it leaves the streaming
/// radius and is despawned. Out of view it is only culled (its collider
/// and detail stay); in view it is shown, takes the detail level of its
/// distance and carries a collider exactly when within the collider radius.
pub open spec fn chunk_after(cfg: StreamConfig, obs: ChunkCoord, e: TerrainChunk, in_view: bool) -> Option<TerrainChunk> {
    let d = cheb(e.coord(), obs);
    if d > cfg.radius {
        None
    } else if !in_view {
        Some(TerrainChunk { frustum_hidden: true, ..e })
    } else {
        Some(TerrainChunk {
            terrain: Terrain { lod_level: lod_of(cfg, d), ..e.terrain },
            has_collider: d <= cfg.collider_radius,
            frustum_hidden: false,
        })
    }
}

/// The commands that mirror `chunk_after` in the scene, in order.
pub open spec fn chunk_commands(cfg: StreamConfig, obs: ChunkCoord, e: TerrainChunk, in_view: bool) -> Seq<TerrainCommand> {
    let c = e.coord();
    let d = cheb(c, obs);
    if d > cfg.radius {
        seq![TerrainCommand::Despawn(c)]
    } else if !in_view {
        if e.frustum_hidden { seq![] } else { seq![TerrainCommand::Hide(c)] }
    } else {
        let shown = if e.frustum_hidden { seq![TerrainCommand::Show(c)] } else { seq![] };
        let lod = lod_of(cfg, d);
        let needs = d <= cfg.collider_radius;
        if lod != e.terrain.lod_level {
            shown.push(TerrainCommand::Rebuild { coord: c, lod_level: lod, with_collider: needs })
        } else if needs && !e.has_collider {
            shown.push(TerrainCommand::AttachCollider(c))
        } else if !needs && e.has_collider {
            shown.push(TerrainCommand::DetachCollider(c))
        } else {
            shown
        }
    }
}

/// Number of `SpawnAsync` commands in a command list.
pub open spec fn async_count(s: Seq<TerrainCommand>) -> nat
    decreases s.len(),
{
    if s.len() == 0 {
        0
    } else {
        async_count(s.drop_last()) + if s.last() is SpawnAsync { 1nat } else { 0nat }
    }
}

pub proof fn lemma_async_count_push(s: Seq<TerrainCommand>, x: TerrainCommand)
    ensures
        async_count(s.push(x)) == async_count(s) + if x is SpawnAsync { 1nat } else { 0nat },
{
    assert(s.push(x).drop_last() =~= s);
}

/// Decides what happens to one existing chunk entity in a tick and appends
/// the matching commands to `cmds`.
pub fn step_chunk(
    cfg: &StreamConfig,
    obs: ChunkCoord,
    chunk: &TerrainChunk,
    in_view: bool,
    cmds: &mut Vec<TerrainCommand>,
) -> (r: Option<TerrainChunk>)
    requires
        cfg.wf(),
    ensures
        r == chunk_after(*cfg, obs, *chunk, in_view),
        final(cmds)@ == old(cmds)@ + chunk_commands(*cfg, obs, *chunk, in_view),
        async_count(final(cmds)@) == async_count(old(cmds)@),
{
    let ghost c0 = cmds@;
    let c = chunk.chunk_coord();
    let d = chebyshev_distance(c, obs);
    if d > cfg.radius as i64 {
        cmds.push(TerrainCommand::Despawn(c));
        proof { lemma_async_count_push(c0, TerrainCommand::Despawn(c)); }
        assert(cmds@ =~= c0 + chunk_commands(*cfg, obs, *chunk, in_view));
        return None;
    }
    if !in_view {
        if !chunk.frustum_hidden {
            cmds.push(TerrainCommand::Hide(c));
            proof { lemma_async_count_push(c0, TerrainCommand::Hide(c)); }
        }
        assert(cmds@ =~= c0 + chunk_commands(*cfg, obs, *chunk, in_view));
        return Some(TerrainChunk { frustum_hidden: true, ..*chunk });
    }
    if chunk.frustum_hidden {
        cmds.push(TerrainCommand::Show(c));
        proof { lemma_async_count_push(c0, TerrainCommand::Show(c)); }
    }
    let ghost c1 = cmds@;
    let lod = get_lod_level(cfg, d);
    let needs = d <= cfg.collider_radius as i64;
    if lod != chunk.terrain.lod_level {
        let x = TerrainCommand::Rebuild { coord: c, lod_level: lod, with_collider: needs };
        cmds.push(x);
        proof { lemma_async_count_push(c1, x); }
    } else if needs && !chunk.has_collider {
        cmds.push(TerrainCommand::AttachCollider(c));
        proof { lemma_async_count_push(c1, TerrainCommand::AttachCollider(c)); }
    } else if !needs && chunk.has_collider {
        cmds.push(TerrainCommand::DetachCollider(c));
        proof { lemma_async_count_push(c1, TerrainCommand::DetachCollider(c)); }
    }
    assert(cmds@ =~= c0 + chunk_commands(*cfg, obs, *chunk, in_view));
    Some(TerrainChunk {
        terrain: Terrain { lod_level: lod, ..chunk.terrain },
        has_collider: needs,
        frustum_hidden: false,
    })
}

/// Culling never touches a chunk's collider, and colliders never touch its
/// culling: out of view the collider stays as it was, and whether the chunk
/// ends up culled depends on the view alone, not on its collider.
pub proof fn lemma_collider_independent(cfg: StreamConfig, obs: ChunkCoord, e: TerrainChunk, in_view: bool)
    requires
        cfg.wf(),
        cheb(e.coord(), obs) <= cfg.radius,
    ensures
        chunk_after(cfg, obs, e, false).unwrap().has_collider == e.has_collider,
        chunk_after(cfg, obs, e, in_view).unwrap().frustum_hidden == !in_view,
        chunk_after(cfg, obs, TerrainChunk { has_collider: !e.has_collider, ..e }, in_view).unwrap().frustum_hidden
            == chunk_after(cfg, obs, e, in_view).unwrap().frustum_hidden,
        chunk_after(cfg, obs, TerrainChunk { frustum_hidden: !e.frustum_hidden, ..e }, true).unwrap().has_collider
            == chunk_after(cfg, obs, e, true).unwrap().has_collider,
        !(chunk_commands(cfg, obs, e, false).contains(TerrainCommand::AttachCollider(e.coord()))),
        !(chunk_commands(cfg, obs, e, false).contains(TerrainCommand::DetachCollider(e.coord()))),
{
    let c = e.coord();
    if e.frustum_hidden {
        assert(chunk_commands(cfg, obs, e, false) =~= seq![]);
    } else {
        assert(chunk_commands(cfg, obs, e, false) =~= seq![TerrainCommand::Hide(c)]);
        assert(chunk_commands(cfg, obs, e, false)[0] == TerrainCommand::Hide(c));
    }
}

} // verus!
