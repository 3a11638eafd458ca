use vstd::prelude::*;

verus! {

/// Largest subdivision count of a grid mesh.
pub const MAX_GRID_SUBDIVISIONS: u32 = 4096;

/// Index of grid vertex `(x, z)` in a grid of `n` cells per side, row by row.
pub open spec fn vertex_index(n: int, x: int, z: int) -> int {
    z * (n + 1) + x
}

/// The six indices of cell `(x, z)`: two triangles with the same winding.
pub open spec fn cell_indices(n: int, x: int, z: int) -> Seq<int> {
    let i = vertex_index(n, x, z);
    seq![i, i + n + 1, i + 1, i + 1, i + n + 1, i + n + 2]
}

proof fn lemma_cell_offsets(n: int, x1: int, z1: int, x2: int, z2: int)
    requires
        0 <= x1 < n,
        0 <= x2 < n,
        0 <= z1,
        0 <= z2,
        z1 < z2 || (z1 == z2 && x1 < x2),
    ensures
        z1 * n + x1 < z2 * n + x2,
{
    if z1 < z2 {
        assert(z1 * n + n <= z2 * n) by (nonlinear_arith)
            requires z1 < z2, n >= 0;
    }
}

/// Number of vertices of a grid with `n` cells per side.
pub fn vertex_count(n: u32) -> (r: usize)
    requires
        n <= MAX_GRID_SUBDIVISIONS,
    ensures
        r == (n + 1) * (n + 1),
{
    let m: usize = n as usize + 1;
    assert(m * m <= 4097 * 4097) by (nonlinear_arith)
        requires m <= 4097;
    m * m
}

/// Triangle index buffer of a grid with `n` cells per side: for each cell,
/// row by row, the six indices of `cell_indices`.
pub fn grid_indices(n: u32) -> (r: Vec<u32>)
    requires
        n <= MAX_GRID_SUBDIVISIONS,
    ensures
        r@.len() == 6 * n * n,
        forall|x: int, z: int, k: int| 0 <= x < n && 0 <= z < n && 0 <= k < 6 ==>
            #[trigger] r@[6 * (z * n + x) + k] == cell_indices(n as int, x, z)[k],
{
    let mut r: Vec<u32> = Vec::new();
    let mut z: u32 = 0;
    while z < n
        invariant
            n <= MAX_GRID_SUBDIVISIONS,
            z <= n,
            r@.len() == 6 * (z * n),
            forall|x: int, zz: int, k: int| 0 <= x < n && 0 <= zz < z && 0 <= k < 6 ==>
                #[trigger] r@[6 * (zz * n + x) + k] == cell_indices(n as int, x, zz)[k],
        decreases n - z,
    {
        let mut x: u32 = 0;
        while x < n
            invariant
                n <= MAX_GRID_SUBDIVISIONS,
                z < n,
                x <= n,
                r@.len() == 6 * (z * n + x),
                forall|xx: int, zz: int, k: int| 0 <= xx < n && 0 <= zz < n && 0 <= k < 6
                    && (zz < z || (zz == z && xx < x)) ==>
                    #[trigger] r@[6 * (zz * n + xx) + k] == cell_indices(n as int, xx, zz)[k],
            decreases n - x,
        {
            assert((z as int) * (n as int + 1) + x + n + 2 <= 4097 * 4097) by (nonlinear_arith)
                requires z < n, x < n, n <= 4096;
            assert(6 * ((z as int) * (n as int) + x) + 6 <= 6 * 4096 * 4096) by (nonlinear_arith)
                requires z < n, x < n, n <= 4096;
            let i: u32 = z * (n + 1) + x;
            let ghost r0 = r@;
            r.push(i);
            r.push(i + n + 1);
            r.push(i + 1);
            r.push(i + 1);
            r.push(i + n + 1);
            r.push(i + n + 2);
            proof {
                let base = 6 * (z * n + x);
                assert(r@.len() == base + 6);
                assert forall|xx: int, zz: int, k: int| 0 <= xx < n && 0 <= zz < n && 0 <= k < 6
                    && (zz < z || (zz == z && xx < x + 1)) implies
                    #[trigger] r@[6 * (zz * n + xx) + k] == cell_indices(n as int, xx, zz)[k] by {
                    if zz == z && xx == x {
                        assert(r@[base + k] == cell_indices(n as int, xx, zz)[k]);
                    } else {
                        lemma_cell_offsets(n as int, xx, zz, x as int, z as int);
                        assert(r@[6 * (zz * n + xx) + k] == r0[6 * (zz * n + xx) + k]);
                    }
                }
            }
            x += 1;
        }
        assert((z as int) * (n as int) + n == (z as int + 1) * (n as int)) by (nonlinear_arith);
        z += 1;
    }
    assert(6 * ((z as int) * (n as int)) == 6 * (n as int) * (n as int)) by (nonlinear_arith)
        requires z == n;
    r
}

/// Neighbours used for the normal of grid vertex `(x, z)`: the vertices to
/// its left, right, up and down, each replaced by the vertex itself where it
/// would fall off the edge of the grid.
pub fn normal_stencil(n: u32, x: u32, z: u32) -> (r: (usize, usize, usize, usize))
    requires
        n <= MAX_GRID_SUBDIVISIONS,
        x <= n,
        z <= n,
    ensures
        r.0 == vertex_index(n as int, if x > 0 { x - 1 } else { x as int }, z as int),
        r.1 == vertex_index(n as int, if x < n { x + 1 } else { x as int }, z as int),
        r.2 == vertex_index(n as int, x as int, if z > 0 { z - 1 } else { z as int }),
        r.3 == vertex_index(n as int, x as int, if z < n { z + 1 } else { z as int }),
{
    let row: usize = n as usize + 1;
    assert((z as int) * row + x + row <= 4098 * 4097) by (nonlinear_arith)
        requires z <= n, x <= n, n <= 4096, row == n + 1;
    let idx: usize = z as usize * row + x as usize;
    assert(z > 0 ==> idx >= row) by (nonlinear_arith)
        requires idx == z * row + x, x >= 0, row >= 0;
    let left = if x > 0 { idx - 1 } else { idx };
    let right = if x < n { idx + 1 } else { idx };
    let up = if z > 0 { idx - row } else { idx };
    let down = if z < n { idx + row } else { idx };
    assert((z as int - 1) * row + x == idx - row) by (nonlinear_arith)
        requires idx == z * row + x;
    assert((z as int + 1) * row + x == idx + row) by (nonlinear_arith)
        requires idx == z * row + x;
    (left, right, up, down)
}

} // verus!
