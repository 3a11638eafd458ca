use vstd::prelude::*;
use crate::coords::{ChunkCoord, cheb};
use crate::lod::{StreamConfig, lod_of};
use crate::grid::TerrainGrid;
use crate::state::{RenderState, Terrain, TerrainChunk, TerrainChunkState};
use crate::step::{
    TerrainCommand, async_count, chunk_after, chunk_commands, lemma_async_count_push, seen, step_chunk,
    view_at, window_len,
};

verus! {

/// Some entity in `s` stands at `c`.
pub open spec fn has_chunk(s: Seq<TerrainChunk>, c: ChunkCoord) -> bool {
    exists|i: int| 0 <= i < s.len() && s[i].coord() == c
}

/// The grid and the chunk entities agree: each entity's grid entry records
/// its render state and detail level, and each `Visible` entry has an entity.
pub open spec fn chunks_agree(g: Map<ChunkCoord, TerrainChunkState>, s: Seq<TerrainChunk>) -> bool {
    &&& forall|j: int| 0 <= j < s.len() ==>
        g.contains_key(#[trigger] s[j].coord()) && g[s[j].coord()] == s[j].grid_state()
    &&& forall|c: ChunkCoord| #[trigger] g.contains_key(c) && g[c].render_state == RenderState::Visible ==> has_chunk(s, c)
}

/// Adding an entity at a coordinate that has none, together with its grid
/// entry, keeps the coordinates unique and the grid in agreement.
proof fn lemma_push_fresh_chunk(
    g: Map<ChunkCoord, TerrainChunkState>,
    s: Seq<TerrainChunk>,
    e: TerrainChunk,
    st: TerrainChunkState,
)
    requires
        coords_unique(s),
        chunks_agree(g, s),
        !has_chunk(s, e.coord()),
        st == e.grid_state(),
    ensures
        coords_unique(s.push(e)),
        chunks_agree(g.insert(e.coord(), st), s.push(e)),
{
    let s1 = s.push(e);
    let g1 = g.insert(e.coord(), st);
    assert forall|a: int, b: int| 0 <= a < s1.len() && 0 <= b < s1.len() && a != b
        implies s1[a].coord() != s1[b].coord() by {
        if a == s.len() as int {
            assert(s1[b] == s[b]);
        } else if b == s.len() as int {
            assert(s1[a] == s[a]);
        }
    }
    assert forall|j: int| 0 <= j < s1.len() implies
        g1.contains_key(#[trigger] s1[j].coord()) && g1[s1[j].coord()] == s1[j].grid_state() by {
        if j < s.len() {
            assert(s1[j] == s[j]);
            if s[j].coord() == e.coord() {
                assert(has_chunk(s, e.coord()));
            }
        }
    }
    assert forall|c: ChunkCoord| #[trigger] g1.contains_key(c) && g1[c].render_state == RenderState::Visible
        implies has_chunk(s1, c) by {
        if c == e.coord() {
            assert(s1[s.len() as int].coord() == c);
        } else {
            assert(has_chunk(s, c));
            let i = choose|i: int| 0 <= i < s.len() && s[i].coord() == c;
            assert(s1[i] == s[i]);
        }
    }
}

spec fn later_chunk(s: Seq<TerrainChunk>, i: int, c: ChunkCoord) -> bool {
    exists|m: int| i <= m < s.len() && s[m].coord() == c
}

/// No two chunk entities share a coordinate.
pub open spec fn coords_unique(s: Seq<TerrainChunk>) -> bool {
    forall|i: int, j: int| 0 <= i < s.len() && 0 <= j < s.len() && i != j ==> s[i].coord() != s[j].coord()
}

/// The chunk entities that remain after the reconcile phase of a tick, in order.
pub open spec fn survivors(cfg: StreamConfig, obs: ChunkCoord, mask: Seq<bool>, s: Seq<TerrainChunk>) -> Seq<TerrainChunk>
    decreases s.len(),
{
    if s.len() == 0 {
        seq![]
    } else {
        let rest = survivors(cfg, obs, mask, s.drop_last());
        match chunk_after(cfg, obs, s.last(), seen(cfg, mask, obs, s.last().coord())) {
            Some(e) => rest.push(e),
            None => rest,
        }
    }
}

/// The commands of the reconcile phase of a tick, in order.
pub open spec fn reconcile_commands(cfg: StreamConfig, obs: ChunkCoord, mask: Seq<bool>, s: Seq<TerrainChunk>) -> Seq<TerrainCommand>
    decreases s.len(),
{
    if s.len() == 0 {
        seq![]
    } else {
        reconcile_commands(cfg, obs, mask, s.drop_last())
            + chunk_commands(cfg, obs, s.last(), seen(cfg, mask, obs, s.last().coord()))
    }
}

/// Survivors keep their coordinates, stay within the radius, are unique
/// when the input is, and are shown when in view.
pub proof fn lemma_survivors(cfg: StreamConfig, obs: ChunkCoord, mask: Seq<bool>, s: Seq<TerrainChunk>)
    ensures
        forall|c: ChunkCoord| has_chunk(survivors(cfg, obs, mask, s), c) ==> has_chunk(s, c),
        coords_unique(s) ==> coords_unique(survivors(cfg, obs, mask, s)),
        forall|j: int| 0 <= j < survivors(cfg, obs, mask, s).len() ==>
            cheb(#[trigger] survivors(cfg, obs, mask, s)[j].coord(), obs) <= cfg.radius,
        forall|j: int| 0 <= j < survivors(cfg, obs, mask, s).len() ==>
            (#[trigger] survivors(cfg, obs, mask, s)[j]).frustum_hidden
                == !seen(cfg, mask, obs, survivors(cfg, obs, mask, s)[j].coord()),
    decreases s.len(),
{
    if s.len() > 0 {
        let p = s.drop_last();
        lemma_survivors(cfg, obs, mask, p);
        let rest = survivors(cfg, obs, mask, p);
        assert forall|c: ChunkCoord| has_chunk(p, c) implies has_chunk(s, c) by {
            let i = choose|i: int| 0 <= i < p.len() && p[i].coord() == c;
            assert(s[i].coord() == c);
        }
        let e = s.last();
        match chunk_after(cfg, obs, e, seen(cfg, mask, obs, e.coord())) {
            Some(n) => {
                let out = rest.push(n);
                assert(n.coord() == e.coord());
                assert forall|c: ChunkCoord| has_chunk(out, c) implies has_chunk(s, c) by {
                    let i = choose|i: int| 0 <= i < out.len() && out[i].coord() == c;
                    if i < rest.len() {
                        assert(has_chunk(rest, c));
                    } else {
                        assert(s[s.len() - 1].coord() == c);
                    }
                }
                if coords_unique(s) {
                    assert(coords_unique(p));
                    assert forall|i: int| 0 <= i < rest.len() implies rest[i].coord() != n.coord() by {
                        assert(has_chunk(rest, rest[i].coord()));
                        if rest[i].coord() == n.coord() {
                            assert(has_chunk(p, e.coord()));
                            let m = choose|m: int| 0 <= m < p.len() && p[m].coord() == e.coord();
                            assert(s[m].coord() == s[s.len() - 1].coord());
                        }
                    }
                    assert(coords_unique(out));
                }
                assert forall|j: int| 0 <= j < out.len() implies cheb(#[trigger] out[j].coord(), obs) <= cfg.radius by {
                    if j < rest.len() {
                        assert(out[j] == rest[j]);
                    }
                }
                assert forall|j: int| 0 <= j < out.len() implies
                    (#[trigger] out[j]).frustum_hidden == !seen(cfg, mask, obs, out[j].coord()) by {
                    if j < rest.len() {
                        assert(out[j] == rest[j]);
                    }
                }
            },
            None => {},
        }
    }
}

/// The streaming controller: the chunk grid, the live chunk entities and
/// whether the first tick has run.
pub struct TerrainStreamer {
    config: StreamConfig,
    grid: TerrainGrid,
    chunks: Vec<TerrainChunk>,
    started: bool,
}

impl TerrainStreamer {
    /// The configuration, the grid, the live chunk entities and whether the
    /// first tick has run.
    pub closed spec fn spec_config(&self) -> StreamConfig {
        self.config
    }

    pub closed spec fn spec_grid(&self) -> Map<ChunkCoord, TerrainChunkState> {
        self.grid@
    }

    pub closed spec fn spec_chunks(&self) -> Seq<TerrainChunk> {
        self.chunks@
    }

    pub closed spec fn spec_started(&self) -> bool {
        self.started
    }

    /// Usable: consistent, and empty until the first tick.
    pub closed spec fn wf(&self) -> bool {
        &&& self.consistent()
        &&& !self.started ==> self.grid@ == Map::<ChunkCoord, TerrainChunkState>::empty() && self.chunks@.len() == 0
    }

    /// Configuration usable, grid well formed, entity coordinates unique,
    /// grid and entities in agreement.
    closed spec fn consistent(&self) -> bool {
        &&& self.config.wf()
        &&& self.grid.wf()
        &&& coords_unique(self.chunks@)
        &&& chunks_agree(self.grid@, self.chunks@)
    }

    /// Between ticks no two chunk entities share a coordinate, each entity's
    /// grid entry records its render state and detail level, and every
    /// `Visible` entry has an entity.
    pub proof fn lemma_agree(&self)
        requires
            self.wf(),
        ensures
            chunks_agree(self.spec_grid(), self.spec_chunks()),
            coords_unique(self.spec_chunks()),
    {
    }

    /// A controller with no chunks that bootstraps on its first tick.
    pub fn new(config: StreamConfig) -> (r: Self)
        requires
            config.wf(),
        ensures
            r.wf(),
            r.spec_config() == config,
            r.spec_grid() == Map::<ChunkCoord, TerrainChunkState>::empty(),
            r.spec_chunks() == Seq::<TerrainChunk>::empty(),
            !r.spec_started(),
    {
        let r = TerrainStreamer { config, grid: TerrainGrid::new(), chunks: Vec::new(), started: false };
        assert(r.chunks@ =~= Seq::<TerrainChunk>::empty());
        r
    }

    pub fn config(&self) -> (r: StreamConfig)
        ensures
            r == self.spec_config(),
    {
        self.config
    }

    pub fn grid(&self) -> (r: &TerrainGrid)
        ensures
            r@ == self.spec_grid(),
            self.wf() ==> r.wf(),
    {
        &self.grid
    }

    pub fn chunks(&self) -> (r: &Vec<TerrainChunk>)
        ensures
            r@ == self.spec_chunks(),
    {
        &self.chunks
    }

    pub fn started(&self) -> (r: bool)
        ensures
            r == self.spec_started(),
    {
        self.started
    }

    /// Reconcile phase: each existing chunk is despawned, culled, shown,
    /// rebuilt at a new detail level or has its collider reconciled, and its
    /// grid entry follows.
    fn reconcile_chunks(&mut self, obs: ChunkCoord, mask: &Vec<bool>, cmds: &mut Vec<TerrainCommand>)
        requires
            old(self).consistent(),
            mask@.len() == window_len(old(self).config.radius as int),
        ensures
            final(self).consistent(),
            final(self).config == old(self).config,
            final(self).started == old(self).started,
            final(self).chunks@ == survivors(old(self).config, obs, mask@, old(self).chunks@),
            forall|m: int| 0 <= m < old(self).chunks@.len() && cheb(old(self).chunks@[m].coord(), obs) > old(self).config.radius
                ==> !final(self).grid@.contains_key(#[trigger] old(self).chunks@[m].coord()),
            forall|k: ChunkCoord| #[trigger] final(self).grid@.contains_key(k)
                && final(self).grid@[k].render_state == RenderState::Pending
                ==> old(self).grid@.contains_key(k) && old(self).grid@[k].render_state == RenderState::Pending,
            final(cmds)@ == old(cmds)@ + reconcile_commands(old(self).config, obs, mask@, old(self).chunks@),
            async_count(final(cmds)@) == async_count(old(cmds)@),
    {
        let ghost s0 = self.chunks@;
        let ghost c0 = cmds@;
        let ghost cfg = self.config;
        let ghost st = self.started;
        let ghost g0 = self.grid@;
        let mut kept: Vec<TerrainChunk> = Vec::new();
        let mut i: usize = 0;
        while i < self.chunks.len()
            invariant
                self.chunks@ == s0,
                self.config == cfg,
                self.started == st,
                cfg.wf(),
                self.grid.wf(),
                mask@.len() == window_len(cfg.radius as int),
                i <= s0.len(),
                kept@ == survivors(cfg, obs, mask@, s0.take(i as int)),
                cmds@ == c0 + reconcile_commands(cfg, obs, mask@, s0.take(i as int)),
                async_count(cmds@) == async_count(c0),
                coords_unique(s0),
                forall|j: int| 0 <= j < kept@.len() ==>
                    self.grid@.contains_key(#[trigger] kept@[j].coord()) && self.grid@[kept@[j].coord()] == kept@[j].grid_state(),
                forall|m: int| i <= m < s0.len() ==>
                    self.grid@.contains_key(#[trigger] s0[m].coord()) && self.grid@[s0[m].coord()] == s0[m].grid_state(),
                forall|k: ChunkCoord| #[trigger] self.grid@.contains_key(k) && self.grid@[k].render_state == RenderState::Visible
                    ==> has_chunk(kept@, k) || later_chunk(s0, i as int, k),
                forall|m: int| 0 <= m < i && cheb(s0[m].coord(), obs) > cfg.radius
                    ==> !self.grid@.contains_key(#[trigger] s0[m].coord()),
                forall|k: ChunkCoord| #[trigger] self.grid@.contains_key(k)
                    && self.grid@[k].render_state == RenderState::Pending
                    ==> g0.contains_key(k) && g0[k].render_state == RenderState::Pending,
            decreases s0.len() - i,
        {
            let e = self.chunks[i];
            let c = e.chunk_coord();
            let in_view = if crate::coords::chebyshev_distance(c, obs) <= self.config.radius as i64 {
                view_at(&self.config, mask, obs, c)
            } else {
                true
            };
            let ghost cb = cmds@;
            let r = step_chunk(&self.config, obs, &e, in_view, cmds);
            proof {
                let t = s0.take(i + 1);
                assert(t.drop_last() =~= s0.take(i as int));
                assert(t.last() == e);
                if cheb(c, obs) > cfg.radius {
                    assert(chunk_after(cfg, obs, e, in_view) == chunk_after(cfg, obs, e, seen(cfg, mask@, obs, c)));
                    assert(chunk_commands(cfg, obs, e, in_view) == chunk_commands(cfg, obs, e, seen(cfg, mask@, obs, c)));
                }
                assert(cmds@ =~= c0 + reconcile_commands(cfg, obs, mask@, t));
            }
            let ghost gb = self.grid@;
            let ghost kb = kept@;
            proof {
                lemma_survivors(cfg, obs, mask@, s0.take(i as int));
                assert forall|j: int| 0 <= j < kb.len() implies kb[j].coord() != c by {
                    let t = s0.take(i as int);
                    assert(kb[j].coord() == survivors(cfg, obs, mask@, t)[j].coord());
                    assert(has_chunk(survivors(cfg, obs, mask@, t), kb[j].coord()));
                    assert(has_chunk(t, kb[j].coord()));
                    let m = choose|m: int| 0 <= m < t.len() && t[m].coord() == kb[j].coord();
                    assert(s0[m].coord() == kb[j].coord());
                }
            }
            match r {
                Some(n) => {
                    self.grid.set(c, n.state());
                    kept.push(n);
                    proof {
                        assert forall|j: int| 0 <= j < kept@.len() implies
                            self.grid@.contains_key(#[trigger] kept@[j].coord())
                            && self.grid@[kept@[j].coord()] == kept@[j].grid_state() by {
                            if j < kb.len() {
                                assert(kept@[j] == kb[j]);
                            }
                        }
                        assert forall|k: ChunkCoord| #[trigger] self.grid@.contains_key(k)
                            && self.grid@[k].render_state == RenderState::Visible
                            implies has_chunk(kept@, k) || later_chunk(s0, i + 1, k) by {
                            if k == c {
                                assert(kept@[kb.len() as int].coord() == k);
                            } else {
                                assert(gb.contains_key(k));
                                if has_chunk(kb, k) {
                                    let j = choose|j: int| 0 <= j < kb.len() && kb[j].coord() == k;
                                    assert(kept@[j] == kb[j]);
                                } else {
                                    let m = choose|m: int| i <= m < s0.len() && s0[m].coord() == k;
                                    assert(m != i as int);
                                }
                            }
                        }
                    }
                },
                None => {
                    self.grid.remove(c);
                    proof {
                        assert forall|k: ChunkCoord| #[trigger] self.grid@.contains_key(k)
                            && self.grid@[k].render_state == RenderState::Visible
                            implies has_chunk(kept@, k) || later_chunk(s0, i + 1, k) by {
                            assert(gb.contains_key(k));
                            if !has_chunk(kb, k) {
                                let m = choose|m: int| i <= m < s0.len() && s0[m].coord() == k;
                                assert(m != i as int);
                            }
                        }
                    }
                },
            }
            proof {
                assert forall|m: int| 0 <= m < i + 1 && cheb(s0[m].coord(), obs) > cfg.radius
                    implies !self.grid@.contains_key(#[trigger] s0[m].coord()) by {
                    if m < i {
                        assert(s0[m].coord() != s0[i as int].coord());
                    }
                }
                assert forall|m: int| i + 1 <= m < s0.len() implies
                    self.grid@.contains_key(#[trigger] s0[m].coord()) && self.grid@[s0[m].coord()] == s0[m].grid_state() by {
                    assert(s0[m].coord() != s0[i as int].coord());
                    assert(gb.contains_key(s0[m].coord()));
                }
            }
            i += 1;
        }
        proof {
            assert(s0.take(s0.len() as int) =~= s0);
            lemma_survivors(cfg, obs, mask@, s0);
        }
        self.chunks = kept;
    }

    /// Window phase: every coordinate within the radius gets a grid entry
    /// (a new one is `Hidden` at the detail level of its distance), and every
    /// in-view coordinate whose entry is `Hidden` is queued for spawning.
    fn enumerate_window(&mut self, obs: ChunkCoord, mask: &Vec<bool>) -> (q: Vec<(ChunkCoord, i64, u32)>)
        requires
            old(self).consistent(),
            mask@.len() == window_len(old(self).config.radius as int),
            window_fits(old(self).config, obs),
        ensures
            final(self).consistent(),
            final(self).config == old(self).config,
            final(self).started == old(self).started,
            final(self).chunks@ == old(self).chunks@,
            forall|c: ChunkCoord| cheb(c, obs) <= final(self).config.radius ==> #[trigger] final(self).grid@.contains_key(c),
            forall|c: ChunkCoord| #[trigger] old(self).grid@.contains_key(c) ==>
                final(self).grid@.contains_key(c) && final(self).grid@[c] == old(self).grid@[c],
            forall|c: ChunkCoord| #[trigger] final(self).grid@.contains_key(c) && !old(self).grid@.contains_key(c) ==>
                cheb(c, obs) <= final(self).config.radius && final(self).grid@[c].render_state == RenderState::Hidden,
            forall|j: int| 0 <= j < q@.len() ==> queue_item_ok(final(self).config, obs, mask@, final(self).grid@, #[trigger] q@[j]),
            forall|c: ChunkCoord| cheb(c, obs) <= final(self).config.radius && seen(final(self).config, mask@, obs, c)
                && #[trigger] final(self).grid@[c].render_state == RenderState::Hidden ==> queued(q@, c),
    {
        let ghost g0 = self.grid@;
        let ghost cfg = self.config;
        let ghost ch0 = self.chunks@;
        let ghost st = self.started;
        let rad: i64 = self.config.radius as i64;
        let mut queue: Vec<(ChunkCoord, i64, u32)> = Vec::new();
        let mut dx: i64 = -rad;
        while dx <= rad
            invariant
                self.config == cfg,
                self.config.wf(),
                self.grid.wf(),
                self.chunks@ == ch0,
                coords_unique(ch0),
                chunks_agree(self.grid@, ch0),
                self.started == st,
                rad == cfg.radius,
                window_fits(cfg, obs),
                mask@.len() == window_len(cfg.radius as int),
                -rad <= dx <= rad + 1,
                forall|c: ChunkCoord| cheb(c, obs) <= rad && c.0 - obs.0 < dx ==> #[trigger] self.grid@.contains_key(c),
                forall|c: ChunkCoord| #[trigger] g0.contains_key(c) ==> self.grid@.contains_key(c) && self.grid@[c] == g0[c],
                forall|c: ChunkCoord| #[trigger] self.grid@.contains_key(c) && !g0.contains_key(c) ==>
                    cheb(c, obs) <= rad && self.grid@[c].render_state == RenderState::Hidden,
                forall|j: int| 0 <= j < queue@.len() ==> queue_item_ok(cfg, obs, mask@, self.grid@, #[trigger] queue@[j]),
                forall|c: ChunkCoord| cheb(c, obs) <= rad && c.0 - obs.0 < dx && seen(cfg, mask@, obs, c)
                    && #[trigger] self.grid@[c].render_state == RenderState::Hidden ==> queued(queue@, c),
            decreases rad + 1 - dx,
        {
            let mut dz: i64 = -rad;
            while dz <= rad
                invariant
                    self.config == cfg,
                    self.config.wf(),
                    self.grid.wf(),
                    self.chunks@ == ch0,
                    coords_unique(ch0),
                    chunks_agree(self.grid@, ch0),
                    self.started == st,
                    rad == cfg.radius,
                    window_fits(cfg, obs),
                    mask@.len() == window_len(cfg.radius as int),
                    -rad <= dx <= rad,
                    -rad <= dz <= rad + 1,
                    forall|c: ChunkCoord| cheb(c, obs) <= rad && (c.0 - obs.0 < dx || (c.0 - obs.0 == dx && c.1 - obs.1 < dz))
                        ==> #[trigger] self.grid@.contains_key(c),
                    forall|c: ChunkCoord| #[trigger] g0.contains_key(c) ==> self.grid@.contains_key(c) && self.grid@[c] == g0[c],
                    forall|c: ChunkCoord| #[trigger] self.grid@.contains_key(c) && !g0.contains_key(c) ==>
                    cheb(c, obs) <= rad && self.grid@[c].render_state == RenderState::Hidden,
                    forall|j: int| 0 <= j < queue@.len() ==> queue_item_ok(cfg, obs, mask@, self.grid@, #[trigger] queue@[j]),
                    forall|c: ChunkCoord| cheb(c, obs) <= rad && (c.0 - obs.0 < dx || (c.0 - obs.0 == dx && c.1 - obs.1 < dz))
                        && seen(cfg, mask@, obs, c)
                        && #[trigger] self.grid@[c].render_state == RenderState::Hidden ==> queued(queue@, c),
                decreases rad + 1 - dz,
            {
                let c: ChunkCoord = ((obs.0 as i64 + dx) as i32, (obs.1 as i64 + dz) as i32);
                let d = crate::coords::chebyshev_distance(c, obs);
                let lod = crate::lod::get_lod_level(&self.config, d);
                let vis = view_at(&self.config, mask, obs, c);
                let ghost gb = self.grid@;
                let ghost qb = queue@;
                match self.grid.get(c) {
                    None => {
                        self.grid.set(c, TerrainChunkState::hidden(lod));
                        if vis {
                            queue.push((c, d, lod));
                        }
                    },
                    Some(st) => {
                        if vis && st.render_state == RenderState::Hidden {
                            queue.push((c, d, lod));
                        }
                    },
                }
                proof {
                    assert forall|j: int| 0 <= j < ch0.len() implies
                        self.grid@.contains_key(#[trigger] ch0[j].coord()) && self.grid@[ch0[j].coord()] == ch0[j].grid_state() by {
                        assert(gb.contains_key(ch0[j].coord()));
                    }
                    assert forall|k: ChunkCoord| #[trigger] self.grid@.contains_key(k) && self.grid@[k].render_state == RenderState::Visible
                        implies has_chunk(ch0, k) by {
                        if k != c {
                            assert(gb.contains_key(k));
                        }
                    }
                    assert forall|j: int| 0 <= j < queue@.len() implies
                        queue_item_ok(cfg, obs, mask@, self.grid@, #[trigger] queue@[j]) by {
                        if j < qb.len() {
                            assert(queue@[j] == qb[j]);
                            assert(queue_item_ok(cfg, obs, mask@, gb, qb[j]));
                        }
                    }
                    assert forall|k: ChunkCoord| cheb(k, obs) <= rad && (k.0 - obs.0 < dx || (k.0 - obs.0 == dx && k.1 - obs.1 < dz + 1))
                        && seen(cfg, mask@, obs, k)
                        && #[trigger] self.grid@[k].render_state == RenderState::Hidden implies queued(queue@, k) by {
                        if k != c {
                            assert(gb.contains_key(k));
                            assert(self.grid@[k] == gb[k]);
                            assert(queued(qb, k));
                            let j = choose|j: int| 0 <= j < qb.len() && qb[j].0 == k;
                            assert(queue@[j] == qb[j]);
                        } else {
                            assert(queue@[queue@.len() - 1].0 == k);
                        }
                    }
                }
                dz += 1;
            }
            dx += 1;
        }
        queue
    }

    /// Spawn phase: queued coordinates whose entry is still `Hidden` and
    /// that hold no entity are spawned in order of distance. Those within the
    /// collider radius are built now with a collider and become `Visible`;
    /// the others start in the background and become `Pending`, at most `cap`
    /// of them. The rest stay `Hidden` and are queued again next tick.
    fn spawn_queued(
        &mut self,
        obs: ChunkCoord,
        mask: &Vec<bool>,
        queue: &Vec<(ChunkCoord, i64, u32)>,
        cap: Option<usize>,
        cmds: &mut Vec<TerrainCommand>,
    )
        requires
            old(self).consistent(),
            forall|j: int| 0 <= j < old(self).chunks@.len() ==>
                (#[trigger] old(self).chunks@[j]).frustum_hidden ==> !seen(old(self).config, mask@, obs, old(self).chunks@[j].coord()),
            forall|j: int| 0 <= j < queue@.len() ==>
                queue_item_ok(old(self).config, obs, mask@, old(self).grid@, #[trigger] queue@[j]),
        ensures
            final(self).consistent(),
            final(self).config == old(self).config,
            final(self).started == old(self).started,
            forall|c: ChunkCoord| #[trigger] final(self).grid@.contains_key(c) == old(self).grid@.contains_key(c),
            final(self).chunks@.len() >= old(self).chunks@.len(),
            final(self).chunks@.subrange(0, old(self).chunks@.len() as int) == old(self).chunks@,
            forall|j: int| old(self).chunks@.len() <= j < final(self).chunks@.len() ==>
                fresh_spawn(final(self).config, obs, mask@, #[trigger] final(self).chunks@[j]),
            final(cmds)@.len() >= old(cmds)@.len(),
            final(cmds)@.subrange(0, old(cmds)@.len() as int) == old(cmds)@,
            forall|k: int| old(cmds)@.len() <= k < final(cmds)@.len() ==>
                spawn_command_ok(final(self).config, obs, mask@, #[trigger] final(cmds)@[k]),
            cap is Some ==> async_count(final(cmds)@) <= async_count(old(cmds)@) + cap.unwrap(),
            forall|c: ChunkCoord| #[trigger] old(self).grid@.contains_key(c)
                && old(self).grid@[c].render_state != RenderState::Hidden
                ==> final(self).grid@[c].render_state != RenderState::Hidden,
            forall|j: int| 0 <= j < queue@.len() ==>
                final(self).grid@[(#[trigger] queue@[j]).0].render_state != RenderState::Hidden
                || (queue@[j].1 > final(self).config.collider_radius
                    && cap is Some && async_count(final(cmds)@) == async_count(old(cmds)@) + cap.unwrap()),
            forall|k: int| old(cmds)@.len() <= k < final(cmds)@.len() ==>
                spawn_effect(final(self).grid@, final(self).chunks@, #[trigger] final(cmds)@[k]),
            forall|j: int| old(self).chunks@.len() <= j < final(self).chunks@.len() ==>
                announced(final(cmds)@, old(cmds)@.len() as int, TerrainCommand::SpawnNow {
                    coord: (#[trigger] final(self).chunks@[j]).coord(),
                    lod_level: final(self).chunks@[j].terrain.lod_level,
                }),
            forall|c: ChunkCoord| #[trigger] final(self).grid@.contains_key(c)
                && final(self).grid@[c].render_state == RenderState::Pending
                && old(self).grid@[c].render_state != RenderState::Pending
                ==> announced_async(final(cmds)@, old(cmds)@.len() as int, c),
            forall|j: int| 0 <= j < queue@.len()
                && final(self).grid@[(#[trigger] queue@[j]).0].render_state == RenderState::Hidden
                ==> async_within(final(cmds)@, old(cmds)@.len() as int, obs, queue@[j].1 as int),
    {
        let ghost g0 = self.grid@;
        let ghost cfg = self.config;
        let ghost st = self.started;
        let ghost ch0 = self.chunks@;
        let ghost c0 = cmds@;
        let rad: i64 = self.config.radius as i64;
        let mut spawned: usize = 0;
        let mut dist: i64 = 0;
        while dist <= rad
            invariant
                self.config == cfg,
                cfg.wf(),
                self.started == st,
                self.grid.wf(),
                coords_unique(self.chunks@),
                chunks_agree(self.grid@, self.chunks@),
                rad == cfg.radius,
                0 <= dist <= rad + 1,
                forall|j: int| 0 <= j < queue@.len() ==> queue_item_ok(cfg, obs, mask@, g0, #[trigger] queue@[j]),
                forall|c: ChunkCoord| #[trigger] self.grid@.contains_key(c) == g0.contains_key(c),
                self.chunks@.len() >= ch0.len(),
                self.chunks@.subrange(0, ch0.len() as int) == ch0,
                forall|j: int| ch0.len() <= j < self.chunks@.len() ==> fresh_spawn(cfg, obs, mask@, #[trigger] self.chunks@[j]),
                cmds@.len() >= c0.len(),
                cmds@.subrange(0, c0.len() as int) == c0,
                forall|k: int| c0.len() <= k < cmds@.len() ==> spawn_command_ok(cfg, obs, mask@, #[trigger] cmds@[k]),
                async_within(cmds@, c0.len() as int, obs, dist as int),
                forall|jj: int| 0 <= jj < queue@.len() && queue@[jj].1 < dist
                    && self.grid@[(#[trigger] queue@[jj]).0].render_state == RenderState::Hidden
                    ==> async_within(cmds@, c0.len() as int, obs, queue@[jj].1 as int),
                forall|k: int| c0.len() <= k < cmds@.len() ==>
                    spawn_effect(self.grid@, self.chunks@, #[trigger] cmds@[k]),
                forall|j: int| ch0.len() <= j < self.chunks@.len() ==>
                    announced(cmds@, c0.len() as int, TerrainCommand::SpawnNow {
                        coord: (#[trigger] self.chunks@[j]).coord(),
                        lod_level: self.chunks@[j].terrain.lod_level,
                    }),
                forall|c: ChunkCoord| #[trigger] self.grid@.contains_key(c)
                    && self.grid@[c].render_state == RenderState::Pending
                    && g0[c].render_state != RenderState::Pending
                    ==> announced_async(cmds@, c0.len() as int, c),
                cap is Some ==> spawned <= cap.unwrap() && async_count(cmds@) == async_count(c0) + spawned,
                forall|j: int| 0 <= j < self.chunks@.len() ==>
                    (#[trigger] self.chunks@[j]).frustum_hidden ==> !seen(cfg, mask@, obs, self.chunks@[j].coord()),
                forall|c: ChunkCoord| #[trigger] g0.contains_key(c) && g0[c].render_state != RenderState::Hidden
                    ==> self.grid@[c].render_state != RenderState::Hidden,
                forall|jj: int| 0 <= jj < queue@.len() && queue@[jj].1 < dist ==>
                    settled(cfg, self.grid@, #[trigger] queue@[jj], cap, spawned),
            decreases rad + 1 - dist,
        {
            let mut j: usize = 0;
            while j < queue.len()
                invariant
                    self.config == cfg,
                    cfg.wf(),
                    self.started == st,
                    self.grid.wf(),
                    coords_unique(self.chunks@),
                    chunks_agree(self.grid@, self.chunks@),
                    rad == cfg.radius,
                    0 <= dist <= rad,
                    j <= queue@.len(),
                    forall|j: int| 0 <= j < queue@.len() ==> queue_item_ok(cfg, obs, mask@, g0, #[trigger] queue@[j]),
                    forall|c: ChunkCoord| #[trigger] self.grid@.contains_key(c) == g0.contains_key(c),
                    self.chunks@.len() >= ch0.len(),
                    self.chunks@.subrange(0, ch0.len() as int) == ch0,
                    forall|j: int| ch0.len() <= j < self.chunks@.len() ==> fresh_spawn(cfg, obs, mask@, #[trigger] self.chunks@[j]),
                    cmds@.len() >= c0.len(),
                    cmds@.subrange(0, c0.len() as int) == c0,
                    forall|k: int| c0.len() <= k < cmds@.len() ==> spawn_command_ok(cfg, obs, mask@, #[trigger] cmds@[k]),
                    async_within(cmds@, c0.len() as int, obs, dist as int),
                    forall|jj: int| 0 <= jj < queue@.len() && (queue@[jj].1 < dist || (queue@[jj].1 == dist && jj < j))
                        && self.grid@[(#[trigger] queue@[jj]).0].render_state == RenderState::Hidden
                        ==> async_within(cmds@, c0.len() as int, obs, queue@[jj].1 as int),
                    forall|k: int| c0.len() <= k < cmds@.len() ==>
                        spawn_effect(self.grid@, self.chunks@, #[trigger] cmds@[k]),
                    forall|j: int| ch0.len() <= j < self.chunks@.len() ==>
                        announced(cmds@, c0.len() as int, TerrainCommand::SpawnNow {
                            coord: (#[trigger] self.chunks@[j]).coord(),
                            lod_level: self.chunks@[j].terrain.lod_level,
                        }),
                    forall|c: ChunkCoord| #[trigger] self.grid@.contains_key(c)
                        && self.grid@[c].render_state == RenderState::Pending
                        && g0[c].render_state != RenderState::Pending
                        ==> announced_async(cmds@, c0.len() as int, c),
                    cap is Some ==> spawned <= cap.unwrap() && async_count(cmds@) == async_count(c0) + spawned,
                    forall|j: int| 0 <= j < self.chunks@.len() ==>
                        (#[trigger] self.chunks@[j]).frustum_hidden ==> !seen(cfg, mask@, obs, self.chunks@[j].coord()),
                    forall|c: ChunkCoord| #[trigger] g0.contains_key(c) && g0[c].render_state != RenderState::Hidden
                        ==> self.grid@[c].render_state != RenderState::Hidden,
                    forall|jj: int| 0 <= jj < queue@.len() && (queue@[jj].1 < dist || (queue@[jj].1 == dist && jj < j)) ==>
                        settled(cfg, self.grid@, #[trigger] queue@[jj], cap, spawned),
                decreases queue@.len() - j,
            {
                let item = queue[j];
                assert(queue_item_ok(cfg, obs, mask@, g0, queue@[j as int]));
                if item.1 == dist {
                    let c = item.0;
                    let hidden_now = match self.grid.get(c) {
                        Some(s) => s.render_state == RenderState::Hidden,
                        None => false,
                    };
                    if hidden_now && !self.has_chunk_at(c) {
                        let ghost cb = cmds@;
                        let ghost chb = self.chunks@;
                        let ghost gb = self.grid@;
                        if dist <= self.config.collider_radius as i64 {
                            let e = TerrainChunk {
                                terrain: Terrain { chunk_x: c.0, chunk_z: c.1, lod_level: item.2 },
                                has_collider: true,
                                frustum_hidden: false,
                            };
                            self.chunks.push(e);
                            self.grid.set(c, TerrainChunkState::visible(item.2));
                            let x = TerrainCommand::SpawnNow { coord: c, lod_level: item.2 };
                            cmds.push(x);
                            proof {
                                lemma_async_count_push(cb, x);
                                lemma_push_fresh_chunk(gb, chb, e, e.grid_state());
                                lemma_announced_push(cb, c0.len() as int, x);
                                lemma_async_within_push(cb, c0.len() as int, obs, dist as int, x);
                                assert forall|jj: int| 0 <= jj < queue@.len() && (queue@[jj].1 < dist || (queue@[jj].1 == dist && jj < j))
                                    && self.grid@[(#[trigger] queue@[jj]).0].render_state == RenderState::Hidden
                                    implies async_within(cmds@, c0.len() as int, obs, queue@[jj].1 as int) by {
                                    lemma_async_within_push(cb, c0.len() as int, obs, queue@[jj].1 as int, x);
                                }
                                assert forall|k: int| c0.len() <= k < cmds@.len() implies
                                    spawn_command_ok(cfg, obs, mask@, #[trigger] cmds@[k]) by {
                                    if k < cb.len() {
                                        assert(cmds@[k] == cb[k]);
                                    }
                                }
                                assert(self.chunks@[chb.len() as int] == e);
                                assert(has_chunk(self.chunks@, c));
                                assert forall|k: int| c0.len() <= k < cmds@.len() implies
                                    spawn_effect(self.grid@, self.chunks@, #[trigger] cmds@[k]) by {
                                    if k < cb.len() {
                                        assert(cmds@[k] == cb[k]);
                                        assert(spawn_effect(gb, chb, cb[k]));
                                        match cb[k] {
                                            TerrainCommand::SpawnNow { coord, lod_level } => {
                                                assert(coord != c);
                                                let m = choose|m: int| 0 <= m < chb.len() && chb[m].coord() == coord;
                                                assert(self.chunks@[m] == chb[m]);
                                            },
                                            TerrainCommand::SpawnAsync { coord, lod_level } => {
                                                assert(coord != c);
                                            },
                                            _ => {},
                                        }
                                    }
                                }
                                assert forall|jj: int| ch0.len() <= jj < self.chunks@.len() implies
                                    announced(cmds@, c0.len() as int, TerrainCommand::SpawnNow {
                                        coord: (#[trigger] self.chunks@[jj]).coord(),
                                        lod_level: self.chunks@[jj].terrain.lod_level,
                                    }) by {
                                    if jj < chb.len() {
                                        assert(self.chunks@[jj] == chb[jj]);
                                    }
                                }
                                assert forall|k: ChunkCoord| #[trigger] self.grid@.contains_key(k)
                                    && self.grid@[k].render_state == RenderState::Pending
                                    && g0[k].render_state != RenderState::Pending
                                    implies announced_async(cmds@, c0.len() as int, k) by {
                                    assert(k != c);
                                }
                                assert(cmds@.subrange(0, c0.len() as int) =~= cb.subrange(0, c0.len() as int));
                                assert(self.chunks@.subrange(0, ch0.len() as int) =~= chb.subrange(0, ch0.len() as int));
                                assert forall|k: int| ch0.len() <= k < self.chunks@.len() implies
                                    fresh_spawn(cfg, obs, mask@, #[trigger] self.chunks@[k]) by {
                                    if k < chb.len() {
                                        assert(self.chunks@[k] == chb[k]);
                                    }
                                }
                            }
                        } else if match cap { Some(k) => spawned < k, None => true } {
                            self.grid.set(c, TerrainChunkState::pending());
                            let x = TerrainCommand::SpawnAsync { coord: c, lod_level: item.2 };
                            cmds.push(x);
                            if cap.is_some() {
                                spawned += 1;
                            }
                            proof {
                                lemma_async_count_push(cb, x);
                                lemma_announced_push(cb, c0.len() as int, x);
                                lemma_async_within_push(cb, c0.len() as int, obs, dist as int, x);
                                assert(cmds@.subrange(0, c0.len() as int) =~= cb.subrange(0, c0.len() as int));
                                assert forall|k: int| c0.len() <= k < cmds@.len() implies
                                    spawn_command_ok(cfg, obs, mask@, #[trigger] cmds@[k]) by {
                                    if k < cb.len() {
                                        assert(cmds@[k] == cb[k]);
                                    }
                                }
                                assert forall|k: int| c0.len() <= k < cmds@.len() implies
                                    spawn_effect(self.grid@, self.chunks@, #[trigger] cmds@[k]) by {
                                    if k < cb.len() {
                                        assert(cmds@[k] == cb[k]);
                                        assert(spawn_effect(gb, chb, cb[k]));
                                        match cb[k] {
                                            TerrainCommand::SpawnNow { coord, lod_level } => {
                                                assert(coord != c);
                                            },
                                            TerrainCommand::SpawnAsync { coord, lod_level } => {
                                                assert(coord != c);
                                            },
                                            _ => {},
                                        }
                                    }
                                }
                                assert forall|k: ChunkCoord| #[trigger] self.grid@.contains_key(k)
                                    && self.grid@[k].render_state == RenderState::Pending
                                    && g0[k].render_state != RenderState::Pending
                                    implies announced_async(cmds@, c0.len() as int, k) by {
                                    if k == c {
                                        assert(async_coord(x) == Some(c));
                                    }
                                }
                                assert forall|j: int| 0 <= j < chb.len() implies
                                    self.grid@.contains_key(#[trigger] chb[j].coord())
                                    && self.grid@[chb[j].coord()] == chb[j].grid_state() by {
                                    if chb[j].coord() == c {
                                        assert(has_chunk(chb, c));
                                    }
                                }
                                assert forall|k: ChunkCoord| #[trigger] self.grid@.contains_key(k)
                                    && self.grid@[k].render_state == RenderState::Visible implies has_chunk(chb, k) by {
                                    if k != c {
                                        assert(gb.contains_key(k));
                                    }
                                }
                            }
                        }
                    }
                }
                j += 1;
            }
            dist += 1;
        }
    }

    /// Applies the result of a background generation for `coord` at
    /// `lod_level`. It is applied exactly when the grid still waits for it
    /// (`Pending`) and no entity stands there: the chunk entity is added,
    /// shown and without a collider, and the entry becomes `Visible`.
    /// Otherwise nothing changes and the caller discards the result.
    pub fn complete_async(&mut self, coord: ChunkCoord, lod_level: u32) -> (applied: bool)
        requires
            old(self).wf(),
        ensures
            final(self).wf(),
            final(self).spec_config() == old(self).spec_config(),
            final(self).spec_started() == old(self).spec_started(),
            applied == (old(self).spec_grid().contains_key(coord)
                && old(self).spec_grid()[coord].render_state == RenderState::Pending
                && !has_chunk(old(self).spec_chunks(), coord)),
            applied ==> final(self).spec_chunks() == old(self).spec_chunks().push(TerrainChunk {
                terrain: Terrain { chunk_x: coord.0, chunk_z: coord.1, lod_level },
                has_collider: false,
                frustum_hidden: false,
            }),
            applied ==> final(self).spec_grid() == old(self).spec_grid().insert(
                coord,
                TerrainChunkState { render_state: RenderState::Visible, lod_level },
            ),
            !applied ==> final(self).spec_chunks() == old(self).spec_chunks() && final(self).spec_grid() == old(self).spec_grid(),
    {
        let waiting = match self.grid.get(coord) {
            Some(s) => s.render_state == RenderState::Pending,
            None => false,
        };
        if !waiting || self.has_chunk_at(coord) {
            return false;
        }
        let ghost chb = self.chunks@;
        let e = TerrainChunk {
            terrain: Terrain { chunk_x: coord.0, chunk_z: coord.1, lod_level },
            has_collider: false,
            frustum_hidden: false,
        };
        self.chunks.push(e);
        self.grid.set(coord, TerrainChunkState::visible(lod_level));
        proof {
            lemma_push_fresh_chunk(old(self).grid@, chb, e, e.grid_state());
        }
        true
    }

    /// Records that building the collider of the chunk at `coord` failed
    /// (a degenerate mesh): the chunk stays without one, and a later tick
    /// tries again.
    pub fn collider_missing(&mut self, coord: ChunkCoord)
        requires
            old(self).wf(),
        ensures
            final(self).wf(),
            final(self).spec_config() == old(self).spec_config(),
            final(self).spec_started() == old(self).spec_started(),
            final(self).spec_grid() == old(self).spec_grid(),
            final(self).spec_chunks().len() == old(self).spec_chunks().len(),
            forall|j: int| 0 <= j < old(self).spec_chunks().len() ==> #[trigger] final(self).spec_chunks()[j] == (
                if old(self).spec_chunks()[j].coord() == coord {
                    TerrainChunk { has_collider: false, ..old(self).spec_chunks()[j] }
                } else {
                    old(self).spec_chunks()[j]
                }),
    {
        let ghost ch0 = self.chunks@;
        let ghost cfg = self.config;
        let ghost st = self.started;
        let ghost g0 = self.grid@;
        let mut i: usize = 0;
        while i < self.chunks.len()
            invariant
                self.config == cfg,
                cfg.wf(),
                self.started == st,
                self.grid@ == g0,
                self.grid.wf(),
                coords_unique(ch0),
                self.chunks@.len() == ch0.len(),
                i <= ch0.len(),
                forall|j: int| 0 <= j < ch0.len() ==> self.chunks@[j].coord() == ch0[j].coord(),
                forall|j: int| 0 <= j < i ==> #[trigger] self.chunks@[j] == (
                    if ch0[j].coord() == coord { TerrainChunk { has_collider: false, ..ch0[j] } } else { ch0[j] }),
                forall|j: int| i <= j < ch0.len() ==> #[trigger] self.chunks@[j] == ch0[j],
            decreases ch0.len() - i,
        {
            let e = self.chunks[i];
            let c = e.chunk_coord();
            if c.0 == coord.0 && c.1 == coord.1 {
                self.chunks.set(i, TerrainChunk { has_collider: false, ..e });
            }
            i += 1;
        }
        proof {
            assert forall|a: int, b: int| 0 <= a < self.chunks@.len() && 0 <= b < self.chunks@.len() && a != b
                implies self.chunks@[a].coord() != self.chunks@[b].coord() by {
                assert(ch0[a].coord() != ch0[b].coord());
            }
        }
    }

    /// Whether a live chunk entity stands at `coord`.
    fn has_chunk_at(&self, coord: ChunkCoord) -> (r: bool)
        ensures
            r == has_chunk(self.chunks@, coord),
    {
        let mut i: usize = 0;
        while i < self.chunks.len()
            invariant
                i <= self.chunks@.len(),
                forall|j: int| 0 <= j < i ==> self.chunks@[j].coord() != coord,
            decreases self.chunks@.len() - i,
        {
            let c = self.chunks[i].chunk_coord();
            if c.0 == coord.0 && c.1 == coord.1 {
                return true;
            }
            i += 1;
        }
        false
    }
}

/// A chunk built on the spot by the spawn phase: within the collider radius
/// and in view, at the detail level of its distance, shown, with a collider.
pub open spec fn fresh_spawn(cfg: StreamConfig, obs: ChunkCoord, mask: Seq<bool>, e: TerrainChunk) -> bool {
    let d = cheb(e.coord(), obs);
    &&& d <= cfg.collider_radius
    &&& seen(cfg, mask, obs, e.coord())
    &&& e.terrain.lod_level == lod_of(cfg, d)
    &&& e.has_collider
    &&& !e.frustum_hidden
}

/// One tick of the streaming engine for an observer in chunk `observer`.
/// `in_view` tells, for each coordinate of the window of half-width
/// `radius` around the observer (rows over `dx`, columns over `dz`, both
/// from `-radius` to `radius`), whether it passes the frustum test; with no
/// camera every cell is `true`.
///
/// In order: existing chunks are despawned, culled, shown, rebuilt or have
/// their collider reconciled; every coordinate of the window gets a grid
/// entry; in-view coordinates with no entity are spawned, nearest first,
/// with at most `max_async_per_tick` background builds after the first
/// tick; grid entries more than `radius + 1` away are dropped. The returned
/// commands tell the scene what to do.
///
/// Afterwards every coordinate within the radius has exactly one grid entry
/// and the grid agrees with the entities; each old chunk becomes
/// `chunk_after` of itself (the reconcile commands come first, in order);
/// each new chunk was built now, with a command that says so; an in-view
/// coordinate is still waiting (`Hidden`) only beyond the collider radius,
/// only when the tick used its whole quota of background builds, and never
/// nearer than one of those builds.
pub fn update_terrain(streamer: &mut TerrainStreamer, observer: ChunkCoord, in_view: &Vec<bool>) -> (r: Vec<TerrainCommand>)
    requires
        old(streamer).wf(),
        in_view@.len() == window_len(old(streamer).spec_config().radius as int),
        window_fits(old(streamer).spec_config(), observer),
    ensures
        final(streamer).wf(),
        final(streamer).spec_config() == old(streamer).spec_config(),
        final(streamer).spec_started(),
        forall|c: ChunkCoord| cheb(c, observer) <= final(streamer).spec_config().radius
            ==> #[trigger] final(streamer).spec_grid().contains_key(c),
        forall|c: ChunkCoord| #[trigger] final(streamer).spec_grid().contains_key(c)
            ==> cheb(c, observer) <= final(streamer).spec_config().radius + 1,
        forall|m: int| 0 <= m < old(streamer).spec_chunks().len()
            && cheb(old(streamer).spec_chunks()[m].coord(), observer) > final(streamer).spec_config().radius
            ==> !final(streamer).spec_grid().contains_key(#[trigger] old(streamer).spec_chunks()[m].coord()),
        forall|c: ChunkCoord| cheb(c, observer) <= final(streamer).spec_config().radius
            && seen(final(streamer).spec_config(), in_view@, observer, c)
            && #[trigger] final(streamer).spec_grid()[c].render_state == RenderState::Hidden
            ==> cheb(c, observer) > final(streamer).spec_config().collider_radius
                && old(streamer).spec_started()
                && async_count(r@) == final(streamer).spec_config().max_async_per_tick,
        ({
            let cfg = old(streamer).spec_config();
            let surv = survivors(cfg, observer, in_view@, old(streamer).spec_chunks());
            let rc = reconcile_commands(cfg, observer, in_view@, old(streamer).spec_chunks());
            let fin = final(streamer).spec_chunks();
            &&& fin.len() >= surv.len()
            &&& fin.subrange(0, surv.len() as int) == surv
            &&& forall|j: int| surv.len() <= j < fin.len() ==> fresh_spawn(cfg, observer, in_view@, #[trigger] fin[j])
            &&& forall|j: int| 0 <= j < fin.len() ==> cheb(#[trigger] fin[j].coord(), observer) <= cfg.radius
            &&& r@.len() >= rc.len()
            &&& r@.subrange(0, rc.len() as int) == rc
            &&& forall|k: int| rc.len() <= k < r@.len() ==> spawn_command_ok(cfg, observer, in_view@, #[trigger] r@[k])
            &&& forall|k: int| rc.len() <= k < r@.len() ==>
                spawn_effect(final(streamer).spec_grid(), fin, #[trigger] r@[k])
            &&& forall|j: int| surv.len() <= j < fin.len() ==>
                announced(r@, rc.len() as int, TerrainCommand::SpawnNow {
                    coord: (#[trigger] fin[j]).coord(),
                    lod_level: fin[j].terrain.lod_level,
                })
            &&& forall|c: ChunkCoord| cheb(c, observer) <= cfg.radius && seen(cfg, in_view@, observer, c)
                && #[trigger] final(streamer).spec_grid()[c].render_state == RenderState::Hidden
                ==> async_within(r@, rc.len() as int, observer, cheb(c, observer))
            &&& forall|c: ChunkCoord| #[trigger] final(streamer).spec_grid().contains_key(c)
                && final(streamer).spec_grid()[c].render_state == RenderState::Pending
                ==> (old(streamer).spec_grid().contains_key(c)
                    && old(streamer).spec_grid()[c].render_state == RenderState::Pending)
                    || announced_async(r@, rc.len() as int, c)
            &&& old(streamer).spec_started() ==> async_count(r@) <= cfg.max_async_per_tick
            &&& !old(streamer).spec_started() ==> forall|c: ChunkCoord|
                cheb(c, observer) <= cfg.radius && seen(cfg, in_view@, observer, c) ==> bootstrapped_at(
                    cfg, observer, #[trigger] final(streamer).spec_grid()[c], fin, c)
        }),
{
    let ghost cfg = streamer.config;
    let ghost ch0 = streamer.chunks@;
    let ghost g00 = streamer.grid@;
    let mut cmds: Vec<TerrainCommand> = Vec::new();
    streamer.reconcile_chunks(observer, in_view, &mut cmds);
    proof {
        lemma_survivors(cfg, observer, in_view@, ch0);
        assert(async_count(Seq::<TerrainCommand>::empty()) == 0);
        assert(cmds@ =~= reconcile_commands(cfg, observer, in_view@, ch0));
    }
    let ghost surv = streamer.chunks@;
    let ghost rc = cmds@;
    let ghost gr = streamer.grid@;
    let queue = streamer.enumerate_window(observer, in_view);
    let ghost g1 = streamer.grid@;
    let cap = if streamer.started { Some(streamer.config.max_async_per_tick) } else { None };
    streamer.spawn_queued(observer, in_view, &queue, cap, &mut cmds);
    let ghost g2 = streamer.grid@;
    let reach: i64 = streamer.config.radius as i64 + 1;
    streamer.grid.retain_within(observer, reach);
    streamer.started = true;
    proof {
        assert forall|k: int| rc.len() <= k < cmds@.len() implies
            spawn_effect(streamer.grid@, streamer.chunks@, #[trigger] cmds@[k]) by {
            assert(spawn_command_ok(cfg, observer, in_view@, cmds@[k]));
            assert(spawn_effect(g2, streamer.chunks@, cmds@[k]));
        }
        assert forall|c: ChunkCoord| cheb(c, observer) <= cfg.radius && seen(cfg, in_view@, observer, c)
            && #[trigger] streamer.grid@[c].render_state == RenderState::Hidden
            implies async_within(cmds@, rc.len() as int, observer, cheb(c, observer)) by {
            assert(g1.contains_key(c));
            assert(streamer.grid@[c] == g2[c]);
            if g1[c].render_state != RenderState::Hidden {
                assert(g2[c].render_state != RenderState::Hidden);
            }
            assert(queued(queue@, c));
            let j = choose|j: int| 0 <= j < queue@.len() && queue@[j].0 == c;
            assert(queue_item_ok(cfg, observer, in_view@, g1, queue@[j]));
        }
        assert forall|c: ChunkCoord| #[trigger] streamer.grid@.contains_key(c)
            && streamer.grid@[c].render_state == RenderState::Pending
            implies (g00.contains_key(c) && g00[c].render_state == RenderState::Pending)
                || announced_async(cmds@, rc.len() as int, c) by {
            assert(g2.contains_key(c));
            if g1[c].render_state == RenderState::Pending {
                if !gr.contains_key(c) {
                    assert(g1[c].render_state == RenderState::Hidden);
                }
            }
        }
        assert forall|m: int| 0 <= m < ch0.len() && cheb(ch0[m].coord(), observer) > cfg.radius
            implies !streamer.grid@.contains_key(#[trigger] ch0[m].coord()) by {
            if g1.contains_key(ch0[m].coord()) {
                assert(cheb(ch0[m].coord(), observer) <= cfg.radius);
            }
        }
        assert forall|c: ChunkCoord| cheb(c, observer) <= cfg.radius
            && seen(cfg, in_view@, observer, c)
            && #[trigger] streamer.grid@[c].render_state == RenderState::Hidden
            implies cheb(c, observer) > cfg.collider_radius
                && old(streamer).spec_started()
                && async_count(cmds@) == cfg.max_async_per_tick by {
            assert(g1.contains_key(c));
            assert(streamer.grid@[c] == g2[c]);
            if g1[c].render_state != RenderState::Hidden {
                assert(g2[c].render_state != RenderState::Hidden);
            }
            assert(g1[c].render_state == RenderState::Hidden);
            assert(queued(queue@, c));
            let j = choose|j: int| 0 <= j < queue@.len() && queue@[j].0 == c;
            assert(queue_item_ok(cfg, observer, in_view@, g1, queue@[j]));
        }
        let fin = streamer.chunks@;
        if !old(streamer).spec_started() {
            assert(ch0.len() == 0);
            assert(surv.len() == 0);
            assert forall|c: ChunkCoord| cheb(c, observer) <= cfg.radius && seen(cfg, in_view@, observer, c)
                implies bootstrapped_at(cfg, observer, #[trigger] streamer.grid@[c], fin, c) by {
                assert(streamer.grid@.contains_key(c));
                let st = streamer.grid@[c];
                if st.render_state == RenderState::Visible {
                    assert(has_chunk(fin, c));
                    let j = choose|j: int| 0 <= j < fin.len() && fin[j].coord() == c;
                    assert(fresh_spawn(cfg, observer, in_view@, fin[j]));
                    assert(streamer.grid@[fin[j].coord()] == fin[j].grid_state());
                } else if st.render_state == RenderState::Pending {
                    assert(!g00.contains_key(c));
                    assert(announced_async(cmds@, rc.len() as int, c));
                    let k = choose|k: int| rc.len() <= k < cmds@.len() && async_coord(cmds@[k]) == Some(c);
                    assert(spawn_command_ok(cfg, observer, in_view@, cmds@[k]));
                    assert(spawn_effect(streamer.grid@, fin, cmds@[k]));
                }
            }
        }
        assert forall|j: int| 0 <= j < fin.len() implies cheb(#[trigger] fin[j].coord(), observer) <= cfg.radius by {
            if j < surv.len() {
                assert(fin[j] == fin.subrange(0, surv.len() as int)[j]);
            }
        }
    }
    cmds
}

/// A command of the spawn phase: an immediate build, with collider, of an
/// in-view chunk within the collider radius, or a background build of an
/// in-view chunk beyond it and within the radius; both at the detail level
/// of the chunk's distance.
pub open spec fn spawn_command_ok(cfg: StreamConfig, obs: ChunkCoord, mask: Seq<bool>, x: TerrainCommand) -> bool {
    match x {
        TerrainCommand::SpawnNow { coord, lod_level } => {
            &&& cheb(coord, obs) <= cfg.collider_radius
            &&& seen(cfg, mask, obs, coord)
            &&& lod_level == lod_of(cfg, cheb(coord, obs))
        },
        TerrainCommand::SpawnAsync { coord, lod_level } => {
            &&& cfg.collider_radius < cheb(coord, obs) <= cfg.radius
            &&& seen(cfg, mask, obs, coord)
            &&& lod_level == lod_of(cfg, cheb(coord, obs))
        },
        _ => false,
    }
}

/// What a spawn command leaves behind: an immediate build leaves an entity
/// and a `Visible` entry at its detail level; a background build leaves a
/// `Pending` entry.
pub open spec fn spawn_effect(g: Map<ChunkCoord, TerrainChunkState>, s: Seq<TerrainChunk>, x: TerrainCommand) -> bool {
    match x {
        TerrainCommand::SpawnNow { coord, lod_level } => {
            &&& g.contains_key(coord)
            &&& g[coord] == (TerrainChunkState { render_state: RenderState::Visible, lod_level })
            &&& has_chunk(s, coord)
        },
        TerrainCommand::SpawnAsync { coord, lod_level } => {
            &&& g.contains_key(coord)
            &&& g[coord] == (TerrainChunkState { render_state: RenderState::Pending, lod_level: 0 })
        },
        _ => true,
    }
}

/// `x` is among the commands of `cmds` from index `from` on.
pub open spec fn announced(cmds: Seq<TerrainCommand>, from: int, x: TerrainCommand) -> bool {
    exists|k: int| from <= k < cmds.len() && cmds[k] == x
}

pub open spec fn async_coord(x: TerrainCommand) -> Option<ChunkCoord> {
    match x {
        TerrainCommand::SpawnAsync { coord, .. } => Some(coord),
        _ => None,
    }
}

/// A background build of `c` is among the commands of `cmds` from index `from` on.
pub open spec fn announced_async(cmds: Seq<TerrainCommand>, from: int, c: ChunkCoord) -> bool {
    exists|k: int| from <= k < cmds.len() && async_coord(cmds[k]) == Some(c)
}

proof fn lemma_announced_push(cmds: Seq<TerrainCommand>, from: int, y: TerrainCommand)
    requires
        0 <= from,
    ensures
        forall|x: TerrainCommand| announced(cmds, from, x) ==> #[trigger] announced(cmds.push(y), from, x),
        forall|c: ChunkCoord| announced_async(cmds, from, c) ==> #[trigger] announced_async(cmds.push(y), from, c),
        announced(cmds.push(y), from, y) || from > cmds.len(),
        from <= cmds.len() && async_coord(y) is Some ==> announced_async(cmds.push(y), from, async_coord(y).unwrap()),
{
    let t = cmds.push(y);
    assert forall|x: TerrainCommand| announced(cmds, from, x) implies #[trigger] announced(t, from, x) by {
        let k = choose|k: int| from <= k < cmds.len() && cmds[k] == x;
        assert(t[k] == cmds[k]);
    }
    assert forall|c: ChunkCoord| announced_async(cmds, from, c) implies #[trigger] announced_async(t, from, c) by {
        let k = choose|k: int| from <= k < cmds.len() && async_coord(cmds[k]) == Some(c);
        assert(t[k] == cmds[k]);
    }
    if from <= cmds.len() {
        assert(t[cmds.len() as int] == y);
    }
}

/// After the first tick, an in-view coordinate within the collider radius
/// holds a shown chunk with a collider at the detail level of its distance,
/// and one beyond it is `Pending`.
pub open spec fn bootstrapped_at(
    cfg: StreamConfig,
    obs: ChunkCoord,
    st: TerrainChunkState,
    s: Seq<TerrainChunk>,
    c: ChunkCoord,
) -> bool {
    let d = cheb(c, obs);
    if d <= cfg.collider_radius {
        &&& st == (TerrainChunkState { render_state: RenderState::Visible, lod_level: lod_of(cfg, d) })
        &&& exists|j: int| 0 <= j < s.len() && s[j].coord() == c && s[j].has_collider && !s[j].frustum_hidden
            && s[j].terrain.lod_level == lod_of(cfg, d)
    } else {
        st == (TerrainChunkState { render_state: RenderState::Pending, lod_level: 0 })
    }
}

/// Every background build among the commands of `cmds` from index `from`
/// on is for a chunk at distance at most `d`.
pub open spec fn async_within(cmds: Seq<TerrainCommand>, from: int, obs: ChunkCoord, d: int) -> bool {
    forall|k: int| from <= k < cmds.len() && (#[trigger] async_coord(cmds[k])) is Some
        ==> cheb(async_coord(cmds[k]).unwrap(), obs) <= d
}

proof fn lemma_async_within_push(cmds: Seq<TerrainCommand>, from: int, obs: ChunkCoord, d: int, y: TerrainCommand)
    requires
        0 <= from,
        async_within(cmds, from, obs, d),
        async_coord(y) is Some ==> cheb(async_coord(y).unwrap(), obs) <= d,
    ensures
        async_within(cmds.push(y), from, obs, d),
{
    let t = cmds.push(y);
    assert forall|k: int| from <= k < t.len() && (#[trigger] async_coord(t[k])) is Some
        implies cheb(async_coord(t[k]).unwrap(), obs) <= d by {
        if k < cmds.len() {
            assert(t[k] == cmds[k]);
        }
    }
}

/// A queued spawn is settled: its entry is no longer `Hidden`, or it lies
/// beyond the collider radius and the cap on background builds is used up.
spec fn settled(
    cfg: StreamConfig,
    g: Map<ChunkCoord, TerrainChunkState>,
    item: (ChunkCoord, i64, u32),
    cap: Option<usize>,
    spawned: usize,
) -> bool {
    g[item.0].render_state != RenderState::Hidden || (item.1 > cfg.collider_radius && cap == Some(spawned))
}

/// The observer's window, one chunk beyond the radius, fits in `i32`.
pub open spec fn window_fits(cfg: StreamConfig, obs: ChunkCoord) -> bool {
    &&& i32::MIN + cfg.radius + 1 <= obs.0 <= i32::MAX - cfg.radius - 1
    &&& i32::MIN + cfg.radius + 1 <= obs.1 <= i32::MAX - cfg.radius - 1
}

/// A queued spawn: a coordinate within the radius and in view, its distance
/// and detail level, and a grid entry for it that is `Hidden`.
spec fn queue_item_ok(
    cfg: StreamConfig,
    obs: ChunkCoord,
    mask: Seq<bool>,
    g: Map<ChunkCoord, TerrainChunkState>,
    item: (ChunkCoord, i64, u32),
) -> bool {
    &&& item.1 == cheb(item.0, obs)
    &&& item.1 <= cfg.radius
    &&& seen(cfg, mask, obs, item.0)
    &&& item.2 == lod_of(cfg, item.1 as int)
    &&& g.contains_key(item.0)
    &&& g[item.0].render_state == RenderState::Hidden
}

spec fn queued(q: Seq<(ChunkCoord, i64, u32)>, c: ChunkCoord) -> bool {
    exists|j: int| 0 <= j < q.len() && q[j].0 == c
}

} // verus!
