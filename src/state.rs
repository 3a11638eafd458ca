use vstd::prelude::*;
use crate::coords::ChunkCoord;

verus! {

/// Render state of a grid position (terrain chunk, or any other tile kind).
#[derive(Clone, Copy, PartialEq, Eq, Debug, Structural)]
pub enum RenderState {
    /// An entity exists and is drawn.
    Visible,
    /// An entity exists but is frustum-culled, or none has been spawned yet
    /// because the position is out of view.
    Hidden,
    /// The entity is being generated in the background.
    Pending,
}

/// Grid entry of a terrain chunk: its render state and detail level.
#[derive(Clone, Copy, PartialEq, Eq, Debug, Structural)]
pub struct TerrainChunkState {
    pub render_state: RenderState,
    pub lod_level: u32,
}

impl TerrainChunkState {
    pub fn visible(lod_level: u32) -> (r: Self)
        ensures
            r == (TerrainChunkState { render_state: RenderState::Visible, lod_level }),
    {
        Self { render_state: RenderState::Visible, lod_level }
    }

    pub fn hidden(lod_level: u32) -> (r: Self)
        ensures
            r == (TerrainChunkState { render_state: RenderState::Hidden, lod_level }),
    {
        Self { render_state: RenderState::Hidden, lod_level }
    }

    pub fn pending() -> (r: Self)
        ensures
            r == (TerrainChunkState { render_state: RenderState::Pending, lod_level: 0 }),
    {
        Self { render_state: RenderState::Pending, lod_level: 0 }
    }
}

/// What a terrain chunk entity carries: its coordinate and detail level.
#[derive(Clone, Copy, PartialEq, Eq, Debug, Structural)]
pub struct Terrain {
    pub chunk_x: i32,
    pub chunk_z: i32,
    pub lod_level: u32,
}

/// A live terrain chunk entity: its `Terrain` data, whether a collider is
/// attached and whether it is frustum-culled.
#[derive(Clone, Copy, PartialEq, Eq, Debug, Structural)]
pub struct TerrainChunk {
    pub terrain: Terrain,
    pub has_collider: bool,
    pub frustum_hidden: bool,
}

impl TerrainChunk {
    pub open spec fn coord(&self) -> ChunkCoord {
        (self.terrain.chunk_x, self.terrain.chunk_z)
    }

    /// The grid entry that matches this entity.
    pub open spec fn grid_state(&self) -> TerrainChunkState {
        TerrainChunkState {
            render_state: if self.frustum_hidden { RenderState::Hidden } else { RenderState::Visible },
            lod_level: self.terrain.lod_level,
        }
    }

    pub fn chunk_coord(&self) -> (r: ChunkCoord)
        ensures
            r == self.coord(),
    {
        (self.terrain.chunk_x, self.terrain.chunk_z)
    }

    pub fn state(&self) -> (r: TerrainChunkState)
        ensures
            r == self.grid_state(),
    {
        if self.frustum_hidden {
            TerrainChunkState::hidden(self.terrain.lod_level)
        } else {
            TerrainChunkState::visible(self.terrain.lod_level)
        }
    }
}

} // verus!
