//! Integer coordinates: chunk-grid positions, world positions, and the
//! floored division that relates them.

use vstd::arithmetic::div_mod::{
    lemma_fundamental_div_mod, lemma_fundamental_div_mod_converse, lemma_mod_bound,
};
use vstd::prelude::*;

verus! {

/// Position of a chunk on the chunk grid, measured in chunks.
#[derive(Clone, Copy, Debug, PartialEq, Eq, Hash, Structural)]
pub struct ChunkCoord {
    pub x: i32,
    pub y: i32,
    pub z: i32,
}

/// Position of a voxel in the world, measured in voxels.
#[derive(Clone, Copy, Debug, PartialEq, Eq, Hash, Structural)]
pub struct WorldPos {
    pub x: i64,
    pub y: i64,
    pub z: i64,
}

/// Index along one axis of the chunk that owns world coordinate `p`, for
/// chunks of edge length `n`: the floor of `p / n`.
pub open spec fn chunk_index(p: int, n: int) -> int {
    p / n
}

/// Offset of world coordinate `p` inside its chunk along one axis: the
/// floored remainder of `p` by `n`, which is never negative.
pub open spec fn local_index(p: int, n: int) -> int {
    p % n
}

/// A world coordinate is its chunk index times the edge length plus its
/// local index, and the local index lies in `[0, n)`, whatever the sign of
/// the coordinate.
pub proof fn lemma_world_split(p: int, n: int)
    requires
        n > 0,
    ensures
        0 <= local_index(p, n) < n,
        chunk_index(p, n) * n + local_index(p, n) == p,
{
    lemma_mod_bound(p, n);
    lemma_fundamental_div_mod(p, n);
    assert(n * (p / n) == (p / n) * n) by (nonlinear_arith);
}

/// The split of a world coordinate is unique: the coordinate at offset `l`
/// of chunk `c` resolves back to exactly `c` and `l`.
pub proof fn lemma_world_join(c: int, l: int, n: int)
    requires
        n > 0,
        0 <= l < n,
    ensures
        chunk_index(c * n + l, n) == c,
        local_index(c * n + l, n) == l,
{
    lemma_fundamental_div_mod_converse(c * n + l, n, c, l);
}

/// Moving a world coordinate by whole chunks moves its chunk index by the
/// same number of chunks and leaves its local index alone, so negative and
/// positive coordinates resolve alike.
pub proof fn lemma_world_shift(p: int, k: int, n: int)
    requires
        n > 0,
    ensures
        chunk_index(p + k * n, n) == chunk_index(p, n) + k,
        local_index(p + k * n, n) == local_index(p, n),
{
    lemma_world_split(p, n);
    let c = chunk_index(p, n);
    let l = local_index(p, n);
    assert(p + k * n == (c + k) * n + l) by (nonlinear_arith)
        requires
            c * n + l == p,
    ;
    lemma_world_join(c + k, l, n);
}

/// Floored division of a world coordinate by the chunk edge length.
pub fn floor_div(a: i64, n: i32) -> (q: i64)
    requires
        n > 0,
    ensures
        q == chunk_index(a as int, n as int),
{
    let m: i64 = n as i64;
    if a >= 0 {
        a / m
    } else {
        let b: i64 = -(a + 1);
        proof {
            lemma_negative_split(a as int, m as int);
        }
        -(b / m) - 1
    }
}

/// Floored remainder of a world coordinate by the chunk edge length.
pub fn floor_mod(a: i64, n: i32) -> (r: i32)
    requires
        n > 0,
    ensures
        r == local_index(a as int, n as int),
        0 <= r < n,
{
    let m: i64 = n as i64;
    proof {
        lemma_world_split(a as int, m as int);
    }
    if a >= 0 {
        (a % m) as i32
    } else {
        let b: i64 = -(a + 1);
        proof {
            lemma_negative_split(a as int, m as int);
            lemma_world_split(b as int, m as int);
        }
        (m - 1 - b % m) as i32
    }
}

/// For a negative coordinate `a`, the split of `-(a + 1)` gives the split of
/// `a`: the chunk index is mirrored and moved down by one, and the local
/// index is counted from the other end of the chunk.
proof fn lemma_negative_split(a: int, n: int)
    requires
        n > 0,
        a < 0,
    ensures
        chunk_index(a, n) == -chunk_index(-(a + 1), n) - 1,
        local_index(a, n) == n - 1 - local_index(-(a + 1), n),
{
    let b = -(a + 1);
    let q0 = chunk_index(b, n);
    let r0 = local_index(b, n);
    lemma_world_split(b, n);
    assert(a == (-q0 - 1) * n + (n - 1 - r0)) by (nonlinear_arith)
        requires
            q0 * n + r0 == b,
            b == -(a + 1),
    ;
    lemma_world_join(-q0 - 1, n - 1 - r0, n);
}

/// The chunk coordinate with components `(x, y, z)`, where each fits in 32
/// bits; no chunk lies beyond that range.
pub open spec fn coord_from_ints(x: int, y: int, z: int) -> Option<ChunkCoord> {
    if i32::MIN <= x <= i32::MAX && i32::MIN <= y <= i32::MAX && i32::MIN <= z <= i32::MAX {
        Some(ChunkCoord { x: x as i32, y: y as i32, z: z as i32 })
    } else {
        None
    }
}

/// The chunk coordinate with components `(x, y, z)`, or `None` where one of
/// them does not fit in 32 bits.
pub fn coord_from_wide(x: i64, y: i64, z: i64) -> (c: Option<ChunkCoord>)
    ensures
        c == coord_from_ints(x as int, y as int, z as int),
{
    if x < -0x8000_0000 || x > 0x7fff_ffff || y < -0x8000_0000 || y > 0x7fff_ffff || z
        < -0x8000_0000 || z > 0x7fff_ffff {
        None
    } else {
        Some(ChunkCoord { x: x as i32, y: y as i32, z: z as i32 })
    }
}

impl ChunkCoord {
    /// World position of the voxel at offset `(x, y, z)` of this chunk.
    pub open spec fn voxel_position(self, n: int, x: int, y: int, z: int) -> (int, int, int) {
        (self.x * n + x, self.y * n + y, self.z * n + z)
    }

    /// World position of the voxel at offset `(x, y, z)` of this chunk, for
    /// chunks of edge length `n`.
    pub fn world_position(self, n: i32, x: i32, y: i32, z: i32) -> (p: WorldPos)
        ensures
            (p.x as int, p.y as int, p.z as int) == self.voxel_position(
                n as int,
                x as int,
                y as int,
                z as int,
            ),
    {
        let m: i64 = n as i64;
        proof {
            lemma_product_fits(self.x as int, m as int);
            lemma_product_fits(self.y as int, m as int);
            lemma_product_fits(self.z as int, m as int);
        }
        WorldPos {
            x: self.x as i64 * m + x as i64,
            y: self.y as i64 * m + y as i64,
            z: self.z as i64 * m + z as i64,
        }
    }
}

/// The product of two 32-bit numbers leaves room in 64 bits for a third
/// to be added.
proof fn lemma_product_fits(a: int, b: int)
    requires
        -0x8000_0000 <= a <= 0x7fff_ffff,
        -0x8000_0000 <= b <= 0x7fff_ffff,
    ensures
        -0x4000_0000_0000_0000 <= a * b <= 0x4000_0000_0000_0000,
{
    assert(-0x4000_0000_0000_0000 <= a * b <= 0x4000_0000_0000_0000) by (nonlinear_arith)
        requires
            -0x8000_0000 <= a <= 0x7fff_ffff,
            -0x8000_0000 <= b <= 0x7fff_ffff,
    ;
}

} // verus!
