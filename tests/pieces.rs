use terrain_stream::coords::{chebyshev_distance, chunk_to_world, world_to_chunk};
use terrain_stream::grid::TerrainGrid;
use terrain_stream::lod::{get_lod_level, StreamConfig};
use terrain_stream::mesh::{grid_indices, normal_stencil, vertex_count};
use terrain_stream::state::{RenderState, Terrain, TerrainChunk, TerrainChunkState};
use terrain_stream::step::{step_chunk, view_at, TerrainCommand};

#[test]
fn lod_levels_of_the_standard_config() {
    let cfg = StreamConfig::standard();
    let expected = [(0, 64), (2, 64), (3, 32), (5, 32), (6, 16), (8, 16), (9, 8), (100, 8)];
    for (d, l) in expected {
        assert_eq!(get_lod_level(&cfg, d), l);
    }
}

#[test]
fn lod_never_increases_with_distance() {
    let cfg = StreamConfig::standard();
    for d in 0..30 {
        assert!(get_lod_level(&cfg, d) >= get_lod_level(&cfg, d + 1));
    }
}

#[test]
fn world_to_chunk_floors() {
    assert_eq!(world_to_chunk(0, 0), (0, 0));
    assert_eq!(world_to_chunk(511, -1), (0, -1));
    assert_eq!(world_to_chunk(512, -512), (1, -1));
    assert_eq!(world_to_chunk(-513, 1025), (-2, 2));
    assert_eq!(world_to_chunk(i64::MAX, i64::MIN), (i32::MAX, i32::MIN));
}

#[test]
fn chunk_centers() {
    assert_eq!(chunk_to_world(0, 0), (256, 256));
    assert_eq!(chunk_to_world(-1, 2), (-256, 1280));
}

#[test]
fn chebyshev() {
    assert_eq!(chebyshev_distance((0, 0), (3, -5)), 5);
    assert_eq!(chebyshev_distance((i32::MIN, 0), (i32::MAX, 0)), u32::MAX as i64);
}

#[test]
fn chunk_state_constructors() {
    assert_eq!(TerrainChunkState::visible(8), TerrainChunkState { render_state: RenderState::Visible, lod_level: 8 });
    assert_eq!(TerrainChunkState::hidden(4), TerrainChunkState { render_state: RenderState::Hidden, lod_level: 4 });
    assert_eq!(TerrainChunkState::pending(), TerrainChunkState { render_state: RenderState::Pending, lod_level: 0 });
}

#[test]
fn grid_get_set_remove_retain() {
    let mut g = TerrainGrid::new();
    assert_eq!(g.get((1, 1)), None);
    g.set((1, 1), TerrainChunkState::pending());
    g.set((5, 0), TerrainChunkState::hidden(2));
    g.set((1, 1), TerrainChunkState::visible(8));
    assert_eq!(g.get((1, 1)), Some(TerrainChunkState::visible(8)));
    g.remove((1, 1));
    assert_eq!(g.get((1, 1)), None);
    assert_eq!(g.get((5, 0)), Some(TerrainChunkState::hidden(2)));
    g.set((0, 0), TerrainChunkState::pending());
    g.retain_within((0, 0), 4);
    assert_eq!(g.get((5, 0)), None);
    assert_eq!(g.get((0, 0)), Some(TerrainChunkState::pending()));
}

#[test]
fn indices_of_one_cell() {
    assert_eq!(grid_indices(1), vec![0, 2, 1, 1, 2, 3]);
}

#[test]
fn indices_of_a_two_by_two_grid() {
    let r = grid_indices(2);
    assert_eq!(r.len(), 24);
    assert_eq!(&r[18..24], &[4, 7, 5, 5, 7, 8]);
    assert_eq!(&r[6..12], &[1, 4, 2, 2, 4, 5]);
    assert_eq!(vertex_count(2), 9);
    assert!(grid_indices(0).is_empty());
}

#[test]
fn stencil_clamps_at_edges() {
    assert_eq!(normal_stencil(2, 0, 0), (0, 1, 0, 3));
    assert_eq!(normal_stencil(2, 2, 2), (7, 8, 5, 8));
    assert_eq!(normal_stencil(2, 1, 1), (3, 5, 1, 7));
}

#[test]
fn view_lookup_uses_offsets() {
    let cfg = StreamConfig { radius: 1, ..StreamConfig::standard() };
    let mut mask = vec![false; 9];
    mask[5] = true; // dx = 0, dz = 1
    assert!(view_at(&cfg, &mask, (10, 10), (10, 11)));
    assert!(!view_at(&cfg, &mask, (10, 10), (11, 10)));
}

#[test]
fn hiding_a_chunk_keeps_its_collider() {
    let cfg = StreamConfig::standard();
    let ch = TerrainChunk {
        terrain: Terrain { chunk_x: 5, chunk_z: 0, lod_level: 32 },
        has_collider: true,
        frustum_hidden: false,
    };
    let mut cmds = Vec::new();
    let r = step_chunk(&cfg, (0, 0), &ch, false, &mut cmds).unwrap();
    assert!(r.has_collider);
    assert!(r.frustum_hidden);
    assert_eq!(cmds, vec![TerrainCommand::Hide((5, 0))]);
    let mut cmds = Vec::new();
    let r = step_chunk(&cfg, (0, 0), &r, true, &mut cmds).unwrap();
    assert!(!r.has_collider);
    assert!(!r.frustum_hidden);
    assert_eq!(cmds, vec![TerrainCommand::Show((5, 0)), TerrainCommand::DetachCollider((5, 0))]);
    let mut cmds = Vec::new();
    assert!(step_chunk(&cfg, (20, 0), &r, true, &mut cmds).is_none());
    assert_eq!(cmds, vec![TerrainCommand::Despawn((5, 0))]);
}

#[test]
fn index_buffers_are_reproducible() {
    assert_eq!(grid_indices(16), grid_indices(16));
    let a = grid_indices(8);
    assert_eq!(a.len(), 6 * 64);
    assert_eq!(*a.iter().max().unwrap(), 80);
}
