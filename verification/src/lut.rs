use vstd::prelude::*;
use vstd::arithmetic::div_mod::{
    lemma_fundamental_div_mod_converse, lemma_fundamental_div_mod, lemma_div_denominator,
    lemma_mod_bound, lemma_div_pos_is_pos,
};

verus! {

/// Default per-axis resolution of the palette lookup table.
pub const PALETTE_LUT_RESOLUTION: u32 = 64;

/// Per-axis resolution of the placeholder table baked for an empty palette,
/// which the shader never samples.
pub const EMPTY_PALETTE_LUT_RESOLUTION: u32 = 2;

/// Bytes per texel of the baked table (four 32-bit float channels).
pub const LUT_TEXEL_BYTES: usize = 16;

/// Side length of the table baked for a requested `resolution`: at least 1.
pub open spec fn lut_side(resolution: u32) -> int {
    if resolution == 0 { 1 } else { resolution as int }
}

/// Index of cell `(x, y, z)` in a table of side `n`: `x` varies fastest,
/// then `y`, then `z`.
pub open spec fn lut_index(n: int, x: int, y: int, z: int) -> int {
    (z * n + y) * n + x
}

/// The cell stored at index `i` of a table of side `n`.
pub open spec fn lut_cell(n: int, i: int) -> (int, int, int) {
    (i % n, (i / n) % n, i / (n * n))
}

/// The cell at index `i`, as the `u32` coordinates handed to the baker.
pub open spec fn lut_cell_u32(n: int, i: int) -> (u32, u32, u32) {
    let (x, y, z) = lut_cell(n, i);
    (x as u32, y as u32, z as u32)
}

/// Side length of the table baked for a requested resolution.
pub fn lut_side_of(resolution: u32) -> (r: u32)
    ensures
        r == lut_side(resolution),
        r >= 1,
        resolution > 0 ==> r == resolution,
{
    if resolution == 0 { 1 } else { resolution }
}

proof fn lemma_index_decodes(n: int, x: int, y: int, z: int)
    requires
        n > 0,
        0 <= x < n,
        0 <= y < n,
        0 <= z,
    ensures
        lut_cell(n, lut_index(n, x, y, z)) == (x, y, z),
{
    let i = lut_index(n, x, y, z);
    lemma_fundamental_div_mod_converse(i, n, z * n + y, x);
    lemma_fundamental_div_mod_converse(z * n + y, n, z, y);
    lemma_div_denominator(i, n, n);
}

/// Indexing and decoding are inverse: each cell of a table of side `n` has
/// its own index below `n³`, and each such index names exactly one cell.
pub proof fn lemma_lut_layout_is_a_bijection(n: int, x: int, y: int, z: int, i: int)
    requires
        n > 0,
    ensures
        0 <= x < n && 0 <= y < n && 0 <= z < n ==> lut_cell(n, lut_index(n, x, y, z)) == (x, y, z)
            && 0 <= lut_index(n, x, y, z) < n * n * n,
        0 <= i < n * n * n ==> ({
            let (cx, cy, cz) = lut_cell(n, i);
            &&& 0 <= cx < n
            &&& 0 <= cy < n
            &&& 0 <= cz < n
            &&& lut_index(n, cx, cy, cz) == i
        }),
{
    if 0 <= x < n && 0 <= y < n && 0 <= z < n {
        lemma_index_decodes(n, x, y, z);
        lemma_index_below_cube(n, x, y, z);
    }
    if 0 <= i < n * n * n {
        let q = i / n;
        let cx = i % n;
        let cy = q % n;
        let cz = q / n;
        lemma_fundamental_div_mod(i, n);
        lemma_fundamental_div_mod(q, n);
        lemma_mod_bound(i, n);
        lemma_mod_bound(q, n);
        lemma_div_pos_is_pos(i, n);
        lemma_div_pos_is_pos(q, n);
        lemma_div_denominator(i, n, n);
        assert(i == (cz * n + cy) * n + cx) by (nonlinear_arith)
            requires
                i == n * q + cx,
                q == n * cz + cy,
        ;
        assert(cz < n) by (nonlinear_arith)
            requires
                i == (cz * n + cy) * n + cx,
                0 <= cy,
                0 <= cx,
                i < n * n * n,
                n > 0,
        ;
    }
}

proof fn lemma_index_below_cube(n: int, x: int, y: int, z: int)
    requires
        n > 0,
        0 <= x < n,
        0 <= y < n,
        0 <= z < n,
    ensures
        0 <= lut_index(n, x, y, z) < n * n * n,
{
    assert(0 <= z * n + y < n * n) by (nonlinear_arith)
        requires 0 <= y < n, 0 <= z < n, n > 0;
    assert(0 <= (z * n + y) * n + x < n * n * n) by (nonlinear_arith)
        requires 0 <= z * n + y < n * n, 0 <= x < n, n > 0;
}

/// Bakes one value per cell of a `n × n × n` table, `n` being the side for
/// `resolution`, in index order (`x` fastest, then `y`, then `z`). The
/// value at index `i` is what `cell` returns for the cell at `i`.
pub fn bake_lut<T, F: Fn(u32, u32, u32) -> T>(resolution: u32, cell: F) -> (r: Vec<T>)
    requires
        lut_side(resolution) * lut_side(resolution) * lut_side(resolution) <= u32::MAX,
        forall|x: u32, y: u32, z: u32|
            x < lut_side(resolution) && y < lut_side(resolution) && z < lut_side(resolution)
                ==> call_requires(cell, (x, y, z)),
    ensures
        r@.len() == lut_side(resolution) * lut_side(resolution) * lut_side(resolution),
        forall|i: int|
            0 <= i < r@.len() ==> call_ensures(
                cell,
                lut_cell_u32(lut_side(resolution), i),
                #[trigger] r@[i],
            ),
        forall|x: u32, y: u32, z: u32|
            x < lut_side(resolution) && y < lut_side(resolution) && z < lut_side(resolution)
                ==> call_ensures(
                cell,
                (x, y, z),
                #[trigger] r@[(z as int * lut_side(resolution) + y) * lut_side(resolution) + x],
            ),
{
    let n = lut_side_of(resolution);
    let ghost ni = n as int;
    let mut data: Vec<T> = Vec::new();
    let mut z: u32 = 0;
    while z < n
        invariant
            n as int == lut_side(resolution),
            ni == n as int,
            ni * ni * ni <= u32::MAX,
            forall|x: u32, y: u32, z: u32|
                x < ni && y < ni && z < ni ==> call_requires(cell, (x, y, z)),
            z <= n,
            data@.len() == lut_index(ni, 0, 0, z as int),
            forall|i: int|
                0 <= i < data@.len() ==> call_ensures(cell, lut_cell_u32(ni, i), #[trigger] data@[i]),
        decreases n - z,
    {
        let mut y: u32 = 0;
        while y < n
            invariant
                n as int == lut_side(resolution),
                ni == n as int,
                ni * ni * ni <= u32::MAX,
                forall|x: u32, y: u32, z: u32|
                    x < ni && y < ni && z < ni ==> call_requires(cell, (x, y, z)),
                z < n,
                y <= n,
                data@.len() == lut_index(ni, 0, y as int, z as int),
                forall|i: int|
                    0 <= i < data@.len() ==> call_ensures(cell, lut_cell_u32(ni, i), #[trigger] data@[i]),
            decreases n - y,
        {
            let mut x: u32 = 0;
            while x < n
                invariant
                    n as int == lut_side(resolution),
                    ni == n as int,
                    ni * ni * ni <= u32::MAX,
                    forall|x: u32, y: u32, z: u32|
                        x < ni && y < ni && z < ni ==> call_requires(cell, (x, y, z)),
                    z < n,
                    y < n,
                    x <= n,
                    data@.len() == lut_index(ni, x as int, y as int, z as int),
                    forall|i: int|
                        0 <= i < data@.len() ==> call_ensures(cell, lut_cell_u32(ni, i), #[trigger] data@[i]),
                decreases n - x,
            {
                let v = cell(x, y, z);
                proof {
                    lemma_index_decodes(ni, x as int, y as int, z as int);
                }
                data.push(v);
                x = x + 1;
            }
            assert(lut_index(ni, ni, y as int, z as int) == lut_index(ni, 0, y + 1, z as int))
                by (nonlinear_arith);
            y = y + 1;
        }
        assert(lut_index(ni, 0, ni, z as int) == lut_index(ni, 0, 0, z + 1)) by (nonlinear_arith);
        z = z + 1;
    }
    assert(lut_index(ni, 0, 0, ni) == ni * ni * ni) by (nonlinear_arith);
    assert forall|x: u32, y: u32, z: u32| x < ni && y < ni && z < ni implies call_ensures(
        cell,
        (x, y, z),
        #[trigger] data@[(z as int * ni + y) * ni + x],
    ) by {
        lemma_index_decodes(ni, x as int, y as int, z as int);
        lemma_index_below_cube(ni, x as int, y as int, z as int);
        let i = lut_index(ni, x as int, y as int, z as int);
        assert(lut_cell_u32(ni, i) == (x, y, z));
    }
    data
}

/// What to do about the baked palette table this frame.
#[derive(Debug, Clone, Copy, PartialEq, Eq, Structural)]
pub enum LutPlan {
    /// The cached table was baked from the same palette: use it again.
    Reuse,
    /// Bake a new table at this per-axis resolution and cache it.
    Rebuild { resolution: u32 },
}

/// The table resolution for a palette of `palette_size` colors: the full
/// resolution, or a tiny placeholder for an empty palette, which the
/// display shader never samples.
pub open spec fn lut_resolution(palette_size: u32) -> u32 {
    if palette_size == 0 { EMPTY_PALETTE_LUT_RESOLUTION } else { PALETTE_LUT_RESOLUTION }
}

/// The plan for a palette with key `key`, given the key of the cached table.
pub open spec fn lut_plan(cached_key: Option<u64>, key: u64, palette_size: u32) -> LutPlan {
    if cached_key == Some(key) {
        LutPlan::Reuse
    } else {
        LutPlan::Rebuild { resolution: lut_resolution(palette_size) }
    }
}

/// Decides whether the cached table can be reused for the palette whose key
/// is `key`, or at what resolution a new one must be baked.
pub fn plan_lut(cached_key: Option<u64>, key: u64, palette_size: u32) -> (r: LutPlan)
    ensures
        r == lut_plan(cached_key, key, palette_size),
        cached_key == Some(key) ==> r == LutPlan::Reuse,
        cached_key != Some(key) && palette_size > 0 ==> r == (LutPlan::Rebuild {
            resolution: PALETTE_LUT_RESOLUTION,
        }),
        cached_key != Some(key) && palette_size == 0 ==> r == (LutPlan::Rebuild {
            resolution: EMPTY_PALETTE_LUT_RESOLUTION,
        }),
{
    match cached_key {
        Some(k) if k == key => LutPlan::Reuse,
        _ => {
            let resolution = if palette_size == 0 {
                EMPTY_PALETTE_LUT_RESOLUTION
            } else {
                PALETTE_LUT_RESOLUTION
            };
            LutPlan::Rebuild { resolution }
        },
    }
}

/// The table is baked only when the palette changes: once a table for key
/// `key` is cached, every later frame with that key reuses it, and a frame
/// with another key (or with nothing cached) bakes anew, at the full
/// resolution of 64 cells per axis for any palette with a color and at the
/// 2-cell placeholder only for an empty one. A baked table is then reused
/// by the next frame with the same key.
pub proof fn lemma_table_rebuilt_only_on_change(
    cached_key: Option<u64>,
    key: u64,
    palette_size: u32,
)
    ensures
        cached_key == Some(key) <==> lut_plan(cached_key, key, palette_size) == LutPlan::Reuse,
        cached_key != Some(key) && palette_size > 0 ==> lut_plan(cached_key, key, palette_size)
            == (LutPlan::Rebuild { resolution: 64 }),
        cached_key != Some(key) && palette_size == 0 ==> lut_plan(cached_key, key, palette_size)
            == (LutPlan::Rebuild { resolution: 2 }),
        lut_plan(cached_key, key, palette_size) is Rebuild ==> lut_plan(
            Some(key),
            key,
            palette_size,
        ) == LutPlan::Reuse,
{
}

} // verus!
