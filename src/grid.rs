use vstd::prelude::*;
use crate::coords::{ChunkCoord, cheb};
use crate::state::TerrainChunkState;

verus! {

/// Keys of an entry list are pairwise distinct.
spec fn keys_unique(s: Seq<(ChunkCoord, TerrainChunkState)>) -> bool {
    forall|i: int, j: int| 0 <= i < s.len() && 0 <= j < s.len() && i != j ==> s[i].0 != s[j].0
}

spec fn in_prefix(s: Seq<(ChunkCoord, TerrainChunkState)>, n: int, e: (ChunkCoord, TerrainChunkState)) -> bool {
    exists|m: int| 0 <= m < n && s[m] == e
}

spec fn keeps(k: ChunkCoord, center: ChunkCoord, reach: int, drop: Option<ChunkCoord>) -> bool {
    cheb(k, center) <= reach && drop != Some(k)
}

spec fn has_key(s: Seq<(ChunkCoord, TerrainChunkState)>, k: ChunkCoord) -> bool {
    exists|i: int| 0 <= i < s.len() && s[i].0 == k
}

/// The map that an entry list stands for.
spec fn entries_map(s: Seq<(ChunkCoord, TerrainChunkState)>) -> Map<ChunkCoord, TerrainChunkState> {
    Map::new(
        |k: ChunkCoord| has_key(s, k),
        |k: ChunkCoord| s[choose|i: int| 0 <= i < s.len() && s[i].0 == k].1,
    )
}

proof fn lemma_entry_in_map(s: Seq<(ChunkCoord, TerrainChunkState)>, i: int)
    requires
        keys_unique(s),
        0 <= i < s.len(),
    ensures
        entries_map(s).contains_key(s[i].0),
        entries_map(s)[s[i].0] == s[i].1,
{
    let k = s[i].0;
    assert(has_key(s, k));
    let j = choose|j: int| 0 <= j < s.len() && s[j].0 == k;
    assert(j == i);
}

/// The authoritative map from chunk coordinate to chunk state.
pub struct TerrainGrid {
    entries: Vec<(ChunkCoord, TerrainChunkState)>,
}

impl View for TerrainGrid {
    type V = Map<ChunkCoord, TerrainChunkState>;

    closed spec fn view(&self) -> Self::V {
        entries_map(self.entries@)
    }
}

impl TerrainGrid {
    pub closed spec fn wf(&self) -> bool {
        keys_unique(self.entries@)
    }

    pub fn new() -> (r: Self)
        ensures
            r.wf(),
            r@ == Map::<ChunkCoord, TerrainChunkState>::empty(),
    {
        let r = TerrainGrid { entries: Vec::new() };
        assert(r@ =~= Map::<ChunkCoord, TerrainChunkState>::empty());
        r
    }

    fn find(&self, coord: ChunkCoord) -> (r: Option<usize>)
        requires
            self.wf(),
        ensures
            match r {
                Some(i) => i < self.entries@.len() && self.entries@[i as int].0 == coord,
                None => !has_key(self.entries@, coord),
            },
    {
        let mut i: usize = 0;
        while i < self.entries.len()
            invariant
                i <= self.entries@.len(),
                forall|j: int| 0 <= j < i ==> self.entries@[j].0 != coord,
            decreases self.entries@.len() - i,
        {
            let k = self.entries[i].0;
            if k.0 == coord.0 && k.1 == coord.1 {
                return Some(i);
            }
            i += 1;
        }
        None
    }

    /// The state recorded for `coord`, if any.
    pub fn get(&self, coord: ChunkCoord) -> (r: Option<TerrainChunkState>)
        requires
            self.wf(),
        ensures
            r == (if self@.contains_key(coord) { Some(self@[coord]) } else { None::<TerrainChunkState> }),
    {
        match self.find(coord) {
            Some(i) => {
                proof { lemma_entry_in_map(self.entries@, i as int); }
                Some(self.entries[i].1)
            },
            None => None,
        }
    }

    /// Records `state` for `coord`, replacing any earlier entry.
    pub fn set(&mut self, coord: ChunkCoord, state: TerrainChunkState)
        requires
            old(self).wf(),
        ensures
            final(self).wf(),
            final(self)@ == old(self)@.insert(coord, state),
    {
        let ghost s0 = self.entries@;
        match self.find(coord) {
            Some(i) => {
                self.entries.set(i, (coord, state));
                let ghost s1 = self.entries@;
                assert(keys_unique(s1));
                assert forall|k: ChunkCoord| #[trigger] has_key(s1, k) == has_key(s0, k) by {
                    if has_key(s0, k) {
                        let j = choose|j: int| 0 <= j < s0.len() && s0[j].0 == k;
                        assert(s1[j].0 == k);
                    }
                    if has_key(s1, k) {
                        let j = choose|j: int| 0 <= j < s1.len() && s1[j].0 == k;
                        assert(s0[j].0 == k);
                    }
                }
                assert forall|k: ChunkCoord| #[trigger] entries_map(s1).contains_key(k)
                    implies entries_map(s1)[k] == old(self)@.insert(coord, state)[k] by {
                    let j = choose|j: int| 0 <= j < s1.len() && s1[j].0 == k;
                    lemma_entry_in_map(s1, j);
                    if j != i as int {
                        lemma_entry_in_map(s0, j);
                    }
                }
                assert(self@ =~= old(self)@.insert(coord, state));
            },
            None => {
                self.entries.push((coord, state));
                let ghost s1 = self.entries@;
                assert(keys_unique(s1));
                assert forall|k: ChunkCoord| #[trigger] has_key(s1, k) == (has_key(s0, k) || k == coord) by {
                    if has_key(s0, k) {
                        let j = choose|j: int| 0 <= j < s0.len() && s0[j].0 == k;
                        assert(s1[j].0 == k);
                    }
                    if k == coord {
                        assert(s1[s0.len() as int].0 == k);
                    }
                }
                assert forall|k: ChunkCoord| #[trigger] entries_map(s1).contains_key(k)
                    implies entries_map(s1)[k] == old(self)@.insert(coord, state)[k] by {
                    let j = choose|j: int| 0 <= j < s1.len() && s1[j].0 == k;
                    lemma_entry_in_map(s1, j);
                    if j != s0.len() as int {
                        lemma_entry_in_map(s0, j);
                    }
                }
                assert(self@ =~= old(self)@.insert(coord, state));
            },
        }
    }

    /// Keeps, in order, the entries whose key is within `reach` of `center`
    /// and is not `drop`.
    fn retain_keys(&mut self, center: ChunkCoord, reach: i64, drop: Option<ChunkCoord>)
        requires
            old(self).wf(),
        ensures
            final(self).wf(),
            forall|k: ChunkCoord| #[trigger] final(self)@.contains_key(k) <==>
                (old(self)@.contains_key(k) && keeps(k, center, reach as int, drop)),
            forall|k: ChunkCoord| #[trigger] final(self)@.contains_key(k) ==> final(self)@[k] == old(self)@[k],
    {
        let ghost s0 = self.entries@;
        let mut kept: Vec<(ChunkCoord, TerrainChunkState)> = Vec::new();
        let mut i: usize = 0;
        while i < self.entries.len()
            invariant
                self.entries@ == s0,
                keys_unique(s0),
                i <= s0.len(),
                keys_unique(kept@),
                forall|j: int| 0 <= j < kept@.len() ==> in_prefix(s0, i as int, #[trigger] kept@[j]),
                forall|m: int| 0 <= m < i && keeps(s0[m].0, center, reach as int, drop) ==> has_key(kept@, #[trigger] s0[m].0),
                forall|j: int| 0 <= j < kept@.len() ==> keeps(#[trigger] kept@[j].0, center, reach as int, drop),
            decreases s0.len() - i,
        {
            let e = self.entries[i];
            let dropped = match drop {
                Some(d) => d.0 == e.0.0 && d.1 == e.0.1,
                None => false,
            };
            if !dropped && crate::coords::chebyshev_distance(e.0, center) <= reach {
                proof {
                    assert forall|j: int| 0 <= j < kept@.len() implies kept@[j].0 != e.0 by {
                        assert(in_prefix(s0, i as int, kept@[j]));
                        let m = choose|m: int| 0 <= m < i && s0[m] == kept@[j];
                        assert(m != i as int);
                    }
                }
                let ghost k0 = kept@;
                kept.push(e);
                proof {
                    assert forall|j: int| 0 <= j < kept@.len() implies in_prefix(s0, i + 1, #[trigger] kept@[j]) by {
                        if j == kept@.len() - 1 {
                            assert(s0[i as int] == kept@[j]);
                        } else {
                            assert(in_prefix(s0, i as int, kept@[j]));
                            let m = choose|m: int| 0 <= m < i && s0[m] == kept@[j];
                            assert(s0[m] == kept@[j]);
                        }
                    }
                    assert forall|m: int| 0 <= m < i + 1 && keeps(s0[m].0, center, reach as int, drop) implies has_key(kept@, #[trigger] s0[m].0) by {
                        if m == i as int {
                            assert(kept@[kept@.len() - 1].0 == s0[m].0);
                        } else {
                            assert(has_key(k0, s0[m].0));
                            let j = choose|j: int| 0 <= j < k0.len() && k0[j].0 == s0[m].0;
                            assert(kept@[j].0 == s0[m].0);
                        }
                    }
                }
            }
            i += 1;
        }
        self.entries = kept;
        proof {
            let s1 = self.entries@;
            assert forall|k: ChunkCoord| #[trigger] self@.contains_key(k) <==>
                (old(self)@.contains_key(k) && keeps(k, center, reach as int, drop)) by {
                if has_key(s1, k) {
                    let j = choose|j: int| 0 <= j < s1.len() && s1[j].0 == k;
                    assert(in_prefix(s0, s0.len() as int, s1[j]));
                    let m = choose|m: int| 0 <= m < s0.len() && s0[m] == s1[j];
                    assert(s0[m].0 == k);
                    assert(has_key(s0, k));
                }
                if has_key(s0, k) && keeps(k, center, reach as int, drop) {
                    let m = choose|m: int| 0 <= m < s0.len() && s0[m].0 == k;
                    assert(has_key(s1, s0[m].0));
                }
            }
            assert forall|k: ChunkCoord| #[trigger] self@.contains_key(k) implies self@[k] == old(self)@[k] by {
                let j = choose|j: int| 0 <= j < s1.len() && s1[j].0 == k;
                assert(in_prefix(s0, s0.len() as int, s1[j]));
                let m = choose|m: int| 0 <= m < s0.len() && s0[m] == s1[j];
                lemma_entry_in_map(s1, j);
                lemma_entry_in_map(s0, m);
            }
        }
    }

    /// Removes the entry for `coord`, if any.
    pub fn remove(&mut self, coord: ChunkCoord)
        requires
            old(self).wf(),
        ensures
            final(self).wf(),
            final(self)@ == old(self)@.remove(coord),
    {
        self.retain_keys((0, 0), 0x1_0000_0000, Some(coord));
        assert(self@ =~= old(self)@.remove(coord));
    }

    /// Drops every entry whose coordinate is more than `reach` chunks
    /// (Chebyshev) from `center`; the others are kept unchanged.
    pub fn retain_within(&mut self, center: ChunkCoord, reach: i64)
        requires
            old(self).wf(),
        ensures
            final(self).wf(),
            final(self)@ == old(self)@.restrict(Set::new(|k: ChunkCoord| cheb(k, center) <= reach)),
    {
        self.retain_keys(center, reach, None);
        assert(self@ =~= old(self)@.restrict(Set::new(|k: ChunkCoord| cheb(k, center) <= reach)));
    }
}

} // verus!
