use vstd::prelude::*;

verus! {

/// A chunk coordinate `(cx, cz)` on the integer chunk lattice.
pub type ChunkCoord = (i32, i32);

/// Edge length of a terrain chunk, in world units.
pub const CHUNK_SIZE: i64 = 512;

pub open spec fn abs_diff(a: int, b: int) -> int {
    if a >= b { a - b } else { b - a }
}

/// Chebyshev distance between two chunk coordinates, in chunks.
pub open spec fn cheb(a: ChunkCoord, b: ChunkCoord) -> int {
    let dx = abs_diff(a.0 as int, b.0 as int);
    let dz = abs_diff(a.1 as int, b.1 as int);
    if dx >= dz { dx } else { dz }
}

/// Clamps an integer into the range of `i32`, as a saturating cast does.
pub open spec fn saturate_i32(v: int) -> int {
    if v < i32::MIN { i32::MIN as int } else if v > i32::MAX { i32::MAX as int } else { v }
}

/// The chunk index that contains world position `w` along one axis
/// (floor of `w / CHUNK_SIZE`), saturated to `i32`.
pub open spec fn chunk_index_of(w: int) -> int {
    saturate_i32(w / (CHUNK_SIZE as int))
}

/// Chebyshev distance between two chunk coordinates.
pub fn chebyshev_distance(a: ChunkCoord, b: ChunkCoord) -> (r: i64)
    ensures
        r == cheb(a, b),
        r >= 0,
{
    let dx: i64 = if a.0 >= b.0 { a.0 as i64 - b.0 as i64 } else { b.0 as i64 - a.0 as i64 };
    let dz: i64 = if a.1 >= b.1 { a.1 as i64 - b.1 as i64 } else { b.1 as i64 - a.1 as i64 };
    if dx >= dz { dx } else { dz }
}

/// Floor of `w / CHUNK_SIZE`, computed without signed division.
fn floor_chunk_index(w: i64) -> (r: i64)
    ensures
        r == (w as int) / (CHUNK_SIZE as int),
        r * CHUNK_SIZE <= w < r * CHUNK_SIZE + CHUNK_SIZE,
{
    if w >= 0 {
        let q: i64 = w / CHUNK_SIZE;
        assert(q * 512 <= w < q * 512 + 512) by (nonlinear_arith)
            requires q == w / 512, w >= 0;
        q
    } else {
        let m: i64 = -(w + 1);
        let q: i64 = m / CHUNK_SIZE;
        let r: i64 = -q - 1;
        assert(r * 512 <= w < r * 512 + 512) by (nonlinear_arith)
            requires q == m / 512, m >= 0, m == -(w + 1), r == -q - 1;
        assert(r == (w as int) / 512) by (nonlinear_arith)
            requires r * 512 <= w < r * 512 + 512;
        r
    }
}

fn saturating_i32(v: i64) -> (r: i32)
    ensures
        r == saturate_i32(v as int),
{
    if v < i32::MIN as i64 {
        i32::MIN
    } else if v > i32::MAX as i64 {
        i32::MAX
    } else {
        v as i32
    }
}

/// The chunk that contains the world position `(x, z)`, with world positions
/// already floored to whole units. Each axis is `floor(w / CHUNK_SIZE)`,
/// saturated to the range of `i32`.
pub fn world_to_chunk(x: i64, z: i64) -> (r: ChunkCoord)
    ensures
        r.0 == chunk_index_of(x as int),
        r.1 == chunk_index_of(z as int),
{
    (saturating_i32(floor_chunk_index(x)), saturating_i32(floor_chunk_index(z)))
}

/// World position of the center of a chunk: `c * CHUNK_SIZE + CHUNK_SIZE / 2` on each axis.
pub fn chunk_to_world(chunk_x: i32, chunk_z: i32) -> (r: (i64, i64))
    ensures
        r.0 == chunk_x * CHUNK_SIZE + CHUNK_SIZE / 2,
        r.1 == chunk_z * CHUNK_SIZE + CHUNK_SIZE / 2,
{
    (chunk_x as i64 * CHUNK_SIZE + CHUNK_SIZE / 2, chunk_z as i64 * CHUNK_SIZE + CHUNK_SIZE / 2)
}

} // verus!
