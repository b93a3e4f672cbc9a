//! How a frame is cut into render jobs: square tiles of a fixed size, row
//! after row, the last tile of a row or column clipped to the image.

use vstd::prelude::*;

verus! {

/// The pixels `tile_x .. tile_x + tile_width` of rows
/// `tile_y .. tile_y + tile_height`.
#[derive(Clone, Copy, Debug, PartialEq, Eq, Structural)]
pub struct TileJob {
    pub tile_x: u32,
    pub tile_y: u32,
    pub tile_width: u32,
    pub tile_height: u32,
}

impl TileJob {
    pub open spec fn contains(&self, x: int, y: int) -> bool {
        &&& self.tile_x <= x < self.tile_x + self.tile_width
        &&& self.tile_y <= y < self.tile_y + self.tile_height
    }
}

/// How many tiles of side `tile_size` it takes to span `extent` pixels.
pub open spec fn tiles_across(extent: int, tile_size: int) -> int {
    (extent + tile_size - 1) / tile_size
}

pub open spec fn min(a: int, b: int) -> int {
    if a <= b {
        a
    } else {
        b
    }
}

/// The tile in column `i` and row `j` of the tiling of a `width` by
/// `height` image by tiles of side `tile_size`.
pub open spec fn tile_at(width: u32, height: u32, tile_size: u32, i: int, j: int) -> TileJob {
    TileJob {
        tile_x: (i * tile_size) as u32,
        tile_y: (j * tile_size) as u32,
        tile_width: min(tile_size as int, width - i * tile_size) as u32,
        tile_height: min(tile_size as int, height - j * tile_size) as u32,
    }
}

/// The `k`-th job of the tiling, counting row after row.
pub open spec fn job_at(width: u32, height: u32, tile_size: u32, k: int) -> TileJob {
    let nx = tiles_across(width as int, tile_size as int);
    tile_at(width, height, tile_size, k % nx, k / nx)
}

/// The index of the job whose tile holds pixel `(x, y)`.
pub open spec fn job_index(width: u32, tile_size: u32, x: int, y: int) -> int {
    (y / tile_size as int) * tiles_across(width as int, tile_size as int) + x / tile_size as int
}

/// Tile `i` of a row starts inside the image exactly when `i` is below the
/// number of tiles across.
proof fn lemma_tile_starts_inside(extent: int, tile_size: int, i: int)
    requires
        extent >= 0,
        tile_size > 0,
        i >= 0,
    ensures
        i < tiles_across(extent, tile_size) <==> i * tile_size < extent,
{
    let n = tiles_across(extent, tile_size);
    let a = extent + tile_size - 1;
    vstd::arithmetic::div_mod::lemma_fundamental_div_mod(a, tile_size);
    assert(a == tile_size * n + a % tile_size);
    assert(0 <= a % tile_size < tile_size) by {
        vstd::arithmetic::div_mod::lemma_mod_bound(a, tile_size);
    }
    if i < n {
        assert(i * tile_size + tile_size <= n * tile_size) by (nonlinear_arith)
            requires
                i < n,
                tile_size > 0,
        ;
    } else {
        assert(n * tile_size <= i * tile_size) by (nonlinear_arith)
            requires
                n <= i,
                tile_size > 0,
        ;
    }
}

/// Tile `(i, j)` of the tiling, when it starts inside the image, lies inside
/// the image, is not empty and is at most `tile_size` on each side; and it
/// holds pixel `(x, y)` exactly when `i` and `j` are the quotients of `x` and
/// `y` by the tile size.
proof fn lemma_tile_at(width: u32, height: u32, tile_size: u32, i: int, j: int, x: int, y: int)
    requires
        tile_size > 0,
        0 <= i < tiles_across(width as int, tile_size as int),
        0 <= j < tiles_across(height as int, tile_size as int),
    ensures
        ({
            let t = tile_at(width, height, tile_size, i, j);
            &&& t.tile_x == i * tile_size
            &&& t.tile_y == j * tile_size
            &&& 1 <= t.tile_width <= tile_size
            &&& 1 <= t.tile_height <= tile_size
            &&& t.tile_x + t.tile_width <= width
            &&& t.tile_y + t.tile_height <= height
            &&& (0 <= x < width && 0 <= y < height) ==> (t.contains(x, y) <==> (i == x / (
                tile_size as int) && j == y / (tile_size as int)))
        }),
{
    let ts = tile_size as int;
    lemma_tile_starts_inside(width as int, ts, i);
    lemma_tile_starts_inside(height as int, ts, j);
    if 0 <= x < width && 0 <= y < height {
        if i * ts <= x < i * ts + ts {
            vstd::arithmetic::div_mod::lemma_fundamental_div_mod_converse(x, ts, i, x - i * ts);
        }
        if j * ts <= y < j * ts + ts {
            vstd::arithmetic::div_mod::lemma_fundamental_div_mod_converse(y, ts, j, y - j * ts);
        }
        if i == x / ts {
            vstd::arithmetic::div_mod::lemma_fundamental_div_mod(x, ts);
            vstd::arithmetic::div_mod::lemma_mod_bound(x, ts);
            assert(ts * (x / ts) == i * ts) by (nonlinear_arith)
                requires
                    i == x / ts,
            ;
        }
        if j == y / ts {
            vstd::arithmetic::div_mod::lemma_fundamental_div_mod(y, ts);
            vstd::arithmetic::div_mod::lemma_mod_bound(y, ts);
            assert(ts * (y / ts) == j * ts) by (nonlinear_arith)
                requires
                    j == y / ts,
            ;
        }
    }
}

/// The jobs of `tile_jobs` partition the frame: every job lies inside it,
/// is not empty and is at most `tile_size` on each side, and every pixel of
/// the frame lies in exactly one job, the job of index
/// `(y / tile_size) * tiles_across(width) + x / tile_size`.
pub proof fn lemma_tile_jobs_partition(width: u32, height: u32, tile_size: u32, x: int, y: int)
    requires
        tile_size > 0,
        0 <= x < width,
        0 <= y < height,
    ensures
        ({
            let ts = tile_size as int;
            let nx = tiles_across(width as int, ts);
            let n = nx * tiles_across(height as int, ts);
            let k = (y / ts) * nx + x / ts;
            &&& 0 <= k < n
            &&& job_at(width, height, tile_size, k).contains(x, y)
            &&& forall|k2: int|
                0 <= k2 < n && #[trigger] job_at(width, height, tile_size, k2).contains(x, y)
                    ==> k2 == k
            &&& forall|k2: int|
                0 <= k2 < n ==> {
                    let t = #[trigger] job_at(width, height, tile_size, k2);
                    &&& 1 <= t.tile_width <= tile_size
                    &&& 1 <= t.tile_height <= tile_size
                    &&& t.tile_x + t.tile_width <= width
                    &&& t.tile_y + t.tile_height <= height
                }
        }),
{
    let ts = tile_size as int;
    let nx = tiles_across(width as int, ts);
    let ny = tiles_across(height as int, ts);
    let n = nx * ny;
    let i = x / ts;
    let j = y / ts;
    let k = j * nx + i;
    vstd::arithmetic::div_mod::lemma_fundamental_div_mod(x, ts);
    vstd::arithmetic::div_mod::lemma_mod_bound(x, ts);
    vstd::arithmetic::div_mod::lemma_fundamental_div_mod(y, ts);
    vstd::arithmetic::div_mod::lemma_mod_bound(y, ts);
    assert(0 <= i && 0 <= j) by {
        vstd::arithmetic::div_mod::lemma_div_pos_is_pos(x, ts);
        vstd::arithmetic::div_mod::lemma_div_pos_is_pos(y, ts);
    }
    assert(i * ts <= x) by (nonlinear_arith)
        requires
            x == ts * i + x % ts,
            0 <= x % ts,
    ;
    assert(j * ts <= y) by (nonlinear_arith)
        requires
            y == ts * j + y % ts,
            0 <= y % ts,
    ;
    lemma_tile_starts_inside(width as int, ts, i);
    lemma_tile_starts_inside(height as int, ts, j);
    assert(0 <= k < n) by (nonlinear_arith)
        requires
            0 <= i < nx,
            0 <= j < ny,
            k == j * nx + i,
            n == nx * ny,
    ;
    vstd::arithmetic::div_mod::lemma_fundamental_div_mod_converse(k, nx, j, i);
    lemma_tile_at(width, height, tile_size, i, j, x, y);
    assert forall|k2: int|
        0 <= k2 < n && #[trigger] job_at(width, height, tile_size, k2).contains(x, y) implies k2 == k by {
        let i2 = k2 % nx;
        let j2 = k2 / nx;
        vstd::arithmetic::div_mod::lemma_fundamental_div_mod(k2, nx);
        vstd::arithmetic::div_mod::lemma_mod_bound(k2, nx);
        vstd::arithmetic::div_mod::lemma_div_pos_is_pos(k2, nx);
        assert(j2 < ny) by (nonlinear_arith)
            requires
                k2 == nx * j2 + i2,
                0 <= i2,
                k2 < nx * ny,
                nx > 0,
        ;
        lemma_tile_at(width, height, tile_size, i2, j2, x, y);
        assert(k2 == j2 * nx + i2) by (nonlinear_arith)
            requires
                k2 == nx * j2 + i2,
        ;
    }
    assert forall|k2: int| 0 <= k2 < n implies {
        let t = #[trigger] job_at(width, height, tile_size, k2);
        &&& 1 <= t.tile_width <= tile_size
        &&& 1 <= t.tile_height <= tile_size
        &&& t.tile_x + t.tile_width <= width
        &&& t.tile_y + t.tile_height <= height
    } by {
        let i2 = k2 % nx;
        let j2 = k2 / nx;
        vstd::arithmetic::div_mod::lemma_fundamental_div_mod(k2, nx);
        vstd::arithmetic::div_mod::lemma_mod_bound(k2, nx);
        vstd::arithmetic::div_mod::lemma_div_pos_is_pos(k2, nx);
        assert(j2 < ny) by (nonlinear_arith)
            requires
                k2 == nx * j2 + i2,
                0 <= i2,
                k2 < nx * ny,
                nx > 0,
        ;
        lemma_tile_at(width, height, tile_size, i2, j2, x, y);
    }
}

/// The jobs that render a `width` by `height` frame in tiles of side
/// `tile_size`: tile columns left to right within tile rows top to bottom,
/// each tile clipped to the image.
pub fn tile_jobs(width: u32, height: u32, tile_size: u32) -> (jobs: Vec<TileJob>)
    requires
        tile_size > 0,
    ensures
        jobs@.len() == tiles_across(width as int, tile_size as int) * tiles_across(
            height as int,
            tile_size as int,
        ),
        forall|k: int|
            0 <= k < jobs@.len() ==> #[trigger] jobs@[k] == job_at(width, height, tile_size, k),
{
    let ts = tile_size as u64;
    let nx: u64 = (width as u64 + ts - 1) / ts;
    let ny: u64 = (height as u64 + ts - 1) / ts;
    let mut jobs: Vec<TileJob> = Vec::new();
    let mut j: u64 = 0;
    while j < ny
        invariant
            ts == tile_size,
            ts > 0,
            nx == tiles_across(width as int, ts as int),
            ny == tiles_across(height as int, ts as int),
            j <= ny,
            jobs@.len() == j * nx,
            forall|k: int|
                0 <= k < jobs@.len() ==> #[trigger] jobs@[k] == job_at(width, height, tile_size, k),
        decreases ny - j,
    {
        proof {
            lemma_tile_starts_inside(height as int, ts as int, j as int);
        }
        let tile_y: u64 = j * ts;
        let tile_height: u64 = if ts <= height as u64 - tile_y {
            ts
        } else {
            height as u64 - tile_y
        };
        let mut i: u64 = 0;
        while i < nx
            invariant
                ts == tile_size,
                ts > 0,
                nx == tiles_across(width as int, ts as int),
                j < ny,
                tile_y == j * ts,
                tile_y < height,
                tile_height == min(ts as int, height - tile_y),
                i <= nx,
                jobs@.len() == j * nx + i,
                forall|k: int|
                    0 <= k < jobs@.len() ==> #[trigger] jobs@[k] == job_at(width, height, tile_size, k),
            decreases nx - i,
        {
            proof {
                lemma_tile_starts_inside(width as int, ts as int, i as int);
            }
            let tile_x: u64 = i * ts;
            let tile_width: u64 = if ts <= width as u64 - tile_x {
                ts
            } else {
                width as u64 - tile_x
            };
            let job = TileJob {
                tile_x: tile_x as u32,
                tile_y: tile_y as u32,
                tile_width: tile_width as u32,
                tile_height: tile_height as u32,
            };
            proof {
                let k = j * nx + i;
                vstd::arithmetic::div_mod::lemma_fundamental_div_mod_converse(
                    k as int,
                    nx as int,
                    j as int,
                    i as int,
                );
                assert(job == job_at(width, height, tile_size, k as int));
            }
            jobs.push(job);
            i += 1;
        }
        j += 1;
        proof {
            assert(jobs@.len() == j * nx) by (nonlinear_arith)
                requires
                    jobs@.len() == (j - 1) * nx + nx,
            ;
        }
    }
    proof {
        assert(jobs@.len() == nx * ny) by (nonlinear_arith)
            requires
                jobs@.len() == j * nx,
                j == ny,
        ;
    }
    jobs
}

} // verus!
