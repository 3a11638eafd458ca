use terrain_stream::coords::ChunkCoord;
use terrain_stream::lod::StreamConfig;
use terrain_stream::state::{RenderState, TerrainChunkState};
use terrain_stream::step::{view_mask_len, TerrainCommand};
use terrain_stream::streamer::{update_terrain, TerrainStreamer};

fn small_config() -> StreamConfig {
    StreamConfig {
        radius: 2,
        collider_radius: 1,
        max_async_per_tick: 8,
        lod1_distance: 1,
        lod2_distance: 2,
        lod3_distance: 3,
        lod0_subdivisions: 16,
        lod1_subdivisions: 8,
        lod2_subdivisions: 4,
        lod3_subdivisions: 2,
    }
}

fn all_visible(cfg: &StreamConfig) -> Vec<bool> {
    vec![true; view_mask_len(cfg)]
}

fn cheb(a: ChunkCoord, b: ChunkCoord) -> i32 {
    (a.0 - b.0).abs().max((a.1 - b.1).abs())
}

fn count_async(cmds: &[TerrainCommand]) -> usize {
    cmds.iter().filter(|c| matches!(c, TerrainCommand::SpawnAsync { .. })).count()
}

fn count_now(cmds: &[TerrainCommand]) -> usize {
    cmds.iter().filter(|c| matches!(c, TerrainCommand::SpawnNow { .. })).count()
}

fn complete_all(s: &mut TerrainStreamer, cmds: &[TerrainCommand]) {
    for c in cmds {
        if let TerrainCommand::SpawnAsync { coord, lod_level } = c {
            assert!(s.complete_async(*coord, *lod_level));
        }
    }
}

#[test]
fn bootstrap_spawns_near_chunks_now_and_far_chunks_async() {
    let cfg = small_config();
    let mut s = TerrainStreamer::new(cfg);
    let cmds = update_terrain(&mut s, (0, 0), &all_visible(&cfg));
    assert_eq!(count_now(&cmds), 9);
    assert_eq!(count_async(&cmds), 16);
    assert_eq!(s.chunks().len(), 9);
    for ch in s.chunks() {
        assert!(ch.has_collider);
        assert!(!ch.frustum_hidden);
        assert!(cheb((ch.terrain.chunk_x, ch.terrain.chunk_z), (0, 0)) <= 1);
    }
    for dx in -2..=2 {
        for dz in -2..=2 {
            let st = s.grid().get((dx, dz)).unwrap();
            if cheb((dx, dz), (0, 0)) <= 1 {
                assert_eq!(st.render_state, RenderState::Visible);
            } else {
                assert_eq!(st, TerrainChunkState::pending());
            }
        }
    }
    complete_all(&mut s, &cmds);
    assert_eq!(s.chunks().len(), 25);
    for dx in -2..=2 {
        for dz in -2..=2 {
            assert_eq!(s.grid().get((dx, dz)).unwrap().render_state, RenderState::Visible);
        }
    }
    // the far ring starts without colliders and gets none while out of the collider radius
    let next = update_terrain(&mut s, (0, 0), &all_visible(&cfg));
    assert!(next.is_empty());
}

#[test]
fn moving_one_chunk_despawns_the_far_edge_and_enumerates_the_new_edge() {
    let cfg = small_config();
    let mut s = TerrainStreamer::new(cfg);
    let cmds = update_terrain(&mut s, (0, 0), &all_visible(&cfg));
    complete_all(&mut s, &cmds);
    let cmds = update_terrain(&mut s, (1, 0), &all_visible(&cfg));
    for dz in -2..=2 {
        assert!(cmds.contains(&TerrainCommand::Despawn((-2, dz))));
        assert!(s.grid().get((-2, dz)).is_none());
        assert!(cmds.iter().any(|c| matches!(c, TerrainCommand::SpawnAsync { coord, .. } if *coord == (3, dz))));
        assert_eq!(s.grid().get((3, dz)), Some(TerrainChunkState::pending()));
    }
    assert_eq!(cmds.iter().filter(|c| matches!(c, TerrainCommand::Despawn(_))).count(), 5);
    for ch in s.chunks() {
        assert!(cheb((ch.terrain.chunk_x, ch.terrain.chunk_z), (1, 0)) <= 2);
    }
}

#[test]
fn async_spawns_are_capped_per_tick_and_the_rest_follow() {
    let cfg = small_config();
    let mut s = TerrainStreamer::new(cfg);
    let cmds = update_terrain(&mut s, (0, 0), &all_visible(&cfg));
    complete_all(&mut s, &cmds);
    // teleport: every old chunk is out of range
    let cmds = update_terrain(&mut s, (100, 100), &all_visible(&cfg));
    assert_eq!(count_now(&cmds), 9);
    assert_eq!(count_async(&cmds), 8);
    let mut started: Vec<ChunkCoord> = Vec::new();
    for c in &cmds {
        if let TerrainCommand::SpawnAsync { coord, .. } = c {
            started.push(*coord);
        }
    }
    let cmds2 = update_terrain(&mut s, (100, 100), &all_visible(&cfg));
    assert_eq!(count_async(&cmds2), 8);
    for c in &cmds2 {
        if let TerrainCommand::SpawnAsync { coord, .. } = c {
            assert!(!started.contains(coord));
            started.push(*coord);
        }
    }
    assert_eq!(started.len(), 16);
    for dx in -2..=2 {
        for dz in -2..=2 {
            assert!(s.grid().get((100 + dx, 100 + dz)).is_some());
        }
    }
}

#[test]
fn culling_keeps_colliders() {
    let cfg = small_config();
    let mut s = TerrainStreamer::new(cfg);
    let cmds = update_terrain(&mut s, (0, 0), &all_visible(&cfg));
    complete_all(&mut s, &cmds);
    let cmds = update_terrain(&mut s, (0, 0), &vec![false; view_mask_len(&cfg)]);
    assert_eq!(cmds.len(), 25);
    assert!(cmds.iter().all(|c| matches!(c, TerrainCommand::Hide(_))));
    for ch in s.chunks() {
        assert!(ch.frustum_hidden);
        let d = cheb((ch.terrain.chunk_x, ch.terrain.chunk_z), (0, 0));
        assert_eq!(ch.has_collider, d <= 1);
        assert_eq!(s.grid().get((ch.terrain.chunk_x, ch.terrain.chunk_z)).unwrap().render_state, RenderState::Hidden);
    }
    let cmds = update_terrain(&mut s, (0, 0), &all_visible(&cfg));
    assert_eq!(cmds.len(), 25);
    assert!(cmds.iter().all(|c| matches!(c, TerrainCommand::Show(_))));
    for ch in s.chunks() {
        assert!(!ch.frustum_hidden);
        let d = cheb((ch.terrain.chunk_x, ch.terrain.chunk_z), (0, 0));
        assert_eq!(ch.has_collider, d <= 1);
    }
}

#[test]
fn out_of_view_chunks_wait_hidden_without_entity() {
    let cfg = small_config();
    let mut s = TerrainStreamer::new(cfg);
    let mut mask = all_visible(&cfg);
    // (dx, dz) = (2, 2) is the last cell
    let last = mask.len() - 1;
    mask[last] = false;
    let cmds = update_terrain(&mut s, (0, 0), &mask);
    assert_eq!(count_async(&cmds), 15);
    assert_eq!(s.grid().get((2, 2)), Some(TerrainChunkState::hidden(4)));
    let cmds = update_terrain(&mut s, (0, 0), &all_visible(&cfg));
    assert_eq!(cmds, vec![TerrainCommand::SpawnAsync { coord: (2, 2), lod_level: 4 }]);
}

#[test]
fn approaching_a_chunk_rebuilds_it_and_attaches_a_collider() {
    let cfg = small_config();
    let mut s = TerrainStreamer::new(cfg);
    let cmds = update_terrain(&mut s, (0, 0), &all_visible(&cfg));
    complete_all(&mut s, &cmds);
    let cmds = update_terrain(&mut s, (1, 0), &all_visible(&cfg));
    // (2, 0) was at distance 2 (lod 4, no collider); now at distance 1
    assert!(cmds.contains(&TerrainCommand::Rebuild { coord: (2, 0), lod_level: 8, with_collider: true }));
    // (0, 0) was at distance 0 (lod 16, collider); now at distance 1 (lod 8, collider)
    assert!(cmds.contains(&TerrainCommand::Rebuild { coord: (0, 0), lod_level: 8, with_collider: true }));
    // (-1, 1) was at distance 1, now 2: detail drops and the collider goes
    assert!(cmds.contains(&TerrainCommand::Rebuild { coord: (-1, 1), lod_level: 4, with_collider: false }));
}

#[test]
fn collider_reconciled_when_detail_is_unchanged() {
    let cfg = StreamConfig { lod1_distance: 5, lod2_distance: 5, lod3_distance: 5, ..small_config() };
    let mut s = TerrainStreamer::new(cfg);
    let cmds = update_terrain(&mut s, (0, 0), &all_visible(&cfg));
    complete_all(&mut s, &cmds);
    let cmds = update_terrain(&mut s, (1, 0), &all_visible(&cfg));
    assert!(cmds.contains(&TerrainCommand::AttachCollider((2, 0))));
    assert!(cmds.contains(&TerrainCommand::DetachCollider((-1, 0))));
}

#[test]
fn stale_async_results_are_discarded() {
    let cfg = small_config();
    let mut s = TerrainStreamer::new(cfg);
    let _ = update_terrain(&mut s, (0, 0), &all_visible(&cfg));
    // not pending: already visible
    assert!(!s.complete_async((0, 0), 16));
    // never asked for
    assert!(!s.complete_async((50, 50), 2));
    assert!(s.complete_async((2, 2), 4));
    assert!(!s.complete_async((2, 2), 4));
    assert_eq!(s.grid().get((2, 2)), Some(TerrainChunkState::visible(4)));
}

#[test]
fn missing_collider_is_retried() {
    let cfg = small_config();
    let mut s = TerrainStreamer::new(cfg);
    let _ = update_terrain(&mut s, (0, 0), &all_visible(&cfg));
    s.collider_missing((0, 0));
    let ch = s.chunks().iter().find(|c| (c.terrain.chunk_x, c.terrain.chunk_z) == (0, 0)).unwrap();
    assert!(!ch.has_collider);
    let cmds = update_terrain(&mut s, (0, 0), &all_visible(&cfg));
    assert!(cmds.contains(&TerrainCommand::AttachCollider((0, 0))));
}

#[test]
fn grid_entries_beyond_radius_plus_one_are_purged() {
    let cfg = small_config();
    let mut s = TerrainStreamer::new(cfg);
    let _ = update_terrain(&mut s, (0, 0), &all_visible(&cfg));
    // pending entries at the left edge have no entity; they survive one step away
    let _ = update_terrain(&mut s, (1, 0), &all_visible(&cfg));
    assert_eq!(s.grid().get((-2, 2)), Some(TerrainChunkState::pending()));
    let _ = update_terrain(&mut s, (2, 0), &all_visible(&cfg));
    assert!(s.grid().get((-2, 2)).is_none());
}

#[test]
fn standard_config_values() {
    let cfg = StreamConfig::standard();
    assert_eq!(cfg.radius, 12);
    assert_eq!(cfg.collider_radius, 2);
    assert_eq!(cfg.max_async_per_tick, 8);
    assert_eq!(view_mask_len(&cfg), 625);
}

#[test]
fn standard_bootstrap_covers_the_window() {
    let cfg = StreamConfig::standard();
    let mut s = TerrainStreamer::new(cfg);
    let cmds = update_terrain(&mut s, (3, -4), &all_visible(&cfg));
    assert_eq!(count_now(&cmds), 25);
    assert_eq!(count_async(&cmds), 600);
    assert!(s.started());
    for dx in -12..=12 {
        for dz in -12..=12 {
            assert!(s.grid().get((3 + dx, -4 + dz)).is_some());
        }
    }
}

#[test]
fn capped_background_builds_go_nearest_first() {
    let cfg = StreamConfig { radius: 3, ..small_config() };
    let mut s = TerrainStreamer::new(cfg);
    let cmds = update_terrain(&mut s, (0, 0), &all_visible(&cfg));
    complete_all(&mut s, &cmds);
    // ring at distance 2 has 16 cells, ring at distance 3 has 24
    let mut by_tick: Vec<Vec<i32>> = Vec::new();
    let mut obs = (50, 0);
    for _ in 0..5 {
        let cmds = update_terrain(&mut s, obs, &all_visible(&cfg));
        let mut ds = Vec::new();
        for c in &cmds {
            if let TerrainCommand::SpawnAsync { coord, .. } = c {
                ds.push(cheb(*coord, obs));
            }
        }
        by_tick.push(ds);
        obs = (50, 0);
    }
    assert_eq!(by_tick[0], vec![2; 8]);
    assert_eq!(by_tick[1], vec![2; 8]);
    assert_eq!(by_tick[2], vec![3; 8]);
    assert_eq!(by_tick[3], vec![3; 8]);
    assert_eq!(by_tick[4], vec![3; 8]);
    let cmds = update_terrain(&mut s, obs, &all_visible(&cfg));
    assert_eq!(count_async(&cmds), 0);
}
