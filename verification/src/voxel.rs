//! Voxels and the dense cubic volume that holds one chunk's worth of them.

use vstd::arithmetic::div_mod::{
    lemma_div_denominator, lemma_div_pos_is_pos, lemma_fundamental_div_mod,
    lemma_fundamental_div_mod_converse, lemma_mod_bound,
};
use vstd::prelude::*;

verus! {

/// Largest supported chunk edge length. With it the number of voxels of a
/// chunk, and twelve times as many mesh vertices, fit in 32 bits.
pub const MAX_CHUNK_SIZE: i32 = 512;

/// Material of a voxel.
#[derive(Clone, Copy, Debug, PartialEq, Eq, Structural)]
pub enum BlockType {
    Default,
    Grass,
}

/// One sample of the terrain: solid or empty, and its material.
#[derive(Clone, Copy, Debug, PartialEq, Eq, Structural)]
pub struct Voxel {
    pub is_active: bool,
    pub block_type: BlockType,
}

impl Default for Voxel {
    /// The empty voxel.
    fn default() -> (v: Voxel)
        ensures
            v == empty_voxel(),
    {
        Voxel { is_active: false, block_type: BlockType::Default }
    }
}

/// The empty voxel: inactive, of the default material.
pub open spec fn empty_voxel() -> Voxel {
    Voxel { is_active: false, block_type: BlockType::Default }
}

/// The voxel that terrain generation writes: solid grass, or empty.
pub open spec fn terrain_voxel(solid: bool) -> Voxel {
    if solid {
        Voxel { is_active: true, block_type: BlockType::Grass }
    } else {
        empty_voxel()
    }
}

/// Linear index of local coordinate `(x, y, z)` in a cube of edge `size`:
/// `x` runs fastest, then `y`, then `z`.
pub open spec fn grid_index(size: int, x: int, y: int, z: int) -> int {
    x + y * size + z * size * size
}

/// Local coordinate of linear index `i` in a cube of edge `size`.
pub open spec fn grid_coords(size: int, i: int) -> (int, int, int) {
    (i % size, (i / size) % size, i / (size * size))
}

/// Whether `(x, y, z)` is a local coordinate of a cube of edge `size`.
pub open spec fn grid_contains(size: int, x: int, y: int, z: int) -> bool {
    0 <= x < size && 0 <= y < size && 0 <= z < size
}

/// Every local coordinate has a linear index below `size³`, and the index
/// leads back to the coordinate.
pub proof fn lemma_grid_index(size: int, x: int, y: int, z: int)
    requires
        0 < size,
        grid_contains(size, x, y, z),
    ensures
        0 <= grid_index(size, x, y, z) < size * size * size,
        grid_coords(size, grid_index(size, x, y, z)) == (x, y, z),
{
    let i = grid_index(size, x, y, z);
    let w = y + z * size;
    assert(i == w * size + x && 0 <= w && 0 <= i) by (nonlinear_arith)
        requires
            i == x + y * size + z * size * size,
            w == y + z * size,
            0 <= x,
            0 <= y,
            0 <= z,
            0 < size,
    ;
    assert(i < size * size * size) by (nonlinear_arith)
        requires
            i == x + y * size + z * size * size,
            0 <= x < size,
            0 <= y < size,
            0 <= z < size,
    ;
    lemma_fundamental_div_mod_converse(i, size, w, x);
    lemma_fundamental_div_mod_converse(w, size, z, y);
    lemma_div_denominator(i, size, size);
}

/// Every linear index below `size³` names a local coordinate, and the
/// coordinate leads back to the index.
pub proof fn lemma_grid_coords(size: int, i: int)
    requires
        0 < size,
        0 <= i < size * size * size,
    ensures
        ({
            let (x, y, z) = grid_coords(size, i);
            grid_contains(size, x, y, z) && grid_index(size, x, y, z) == i
        }),
{
    let x = i % size;
    let w = i / size;
    let y = w % size;
    let z = w / size;
    lemma_mod_bound(i, size);
    lemma_fundamental_div_mod(i, size);
    lemma_div_pos_is_pos(i, size);
    lemma_mod_bound(w, size);
    lemma_fundamental_div_mod(w, size);
    lemma_div_pos_is_pos(w, size);
    lemma_div_denominator(i, size, size);
    assert(w < size * size) by (nonlinear_arith)
        requires
            i == size * w + x,
            0 <= x,
            i < size * size * size,
            0 < size,
    ;
    assert(z < size) by (nonlinear_arith)
        requires
            w == size * z + y,
            0 <= y,
            w < size * size,
            0 < size,
    ;
    assert(x + y * size + z * size * size == i) by (nonlinear_arith)
        requires
            i == size * w + x,
            w == size * z + y,
    ;
}

/// The voxels of one chunk as a mathematical value: a cube of edge `size`
/// stored as a sequence in linear-index order.
pub struct VoxelGrid {
    pub size: int,
    pub cells: Seq<Voxel>,
}

impl VoxelGrid {
    /// The edge length is supported and there is one cell per coordinate.
    pub open spec fn wf(self) -> bool {
        &&& 0 < self.size <= MAX_CHUNK_SIZE
        &&& self.cells.len() == self.size * self.size * self.size
    }

    /// Whether `(x, y, z)` lies inside the cube.
    pub open spec fn contains(self, x: int, y: int, z: int) -> bool {
        grid_contains(self.size, x, y, z)
    }

    /// The voxel at local coordinate `(x, y, z)`.
    pub open spec fn voxel(self, x: int, y: int, z: int) -> Voxel {
        self.cells[grid_index(self.size, x, y, z)]
    }
}

/// The volume that a height map describes: the voxel at `(x, y, z)` is solid
/// grass where `y` lies below the height of column `(x, z)`, which is entry
/// `x + z * size` of `heights`, and empty elsewhere.
pub open spec fn height_map_grid(size: int, heights: Seq<i32>) -> VoxelGrid {
    VoxelGrid {
        size,
        cells: Seq::new(
            (size * size * size) as nat,
            |i: int|
                {
                    let (x, y, z) = grid_coords(size, i);
                    terrain_voxel(y < heights[x + z * size])
                },
        ),
    }
}

/// The volume that holds a filled ball of radius `size / 2` around the
/// point `(size / 2, size / 2, size / 2)`.
pub open spec fn sphere_grid(size: int) -> VoxelGrid {
    VoxelGrid {
        size,
        cells: Seq::new(
            (size * size * size) as nat,
            |i: int|
                {
                    let (x, y, z) = grid_coords(size, i);
                    terrain_voxel(in_ball(size / 2, x, y, z))
                },
        ),
    }
}

/// Whether `(x, y, z)` is at most `r` away from `(r, r, r)`.
pub open spec fn in_ball(r: int, x: int, y: int, z: int) -> bool {
    (x - r) * (x - r) + (y - r) * (y - r) + (z - r) * (z - r) <= r * r
}

/// A height-map volume read by coordinate.
pub proof fn lemma_height_map_voxel(size: int, heights: Seq<i32>, x: int, y: int, z: int)
    requires
        0 < size,
        grid_contains(size, x, y, z),
    ensures
        height_map_grid(size, heights).voxel(x, y, z) == terrain_voxel(
            y < heights[x + z * size],
        ),
{
    lemma_grid_index(size, x, y, z);
}

/// A sphere volume read by coordinate.
pub proof fn lemma_sphere_voxel(size: int, x: int, y: int, z: int)
    requires
        0 < size,
        grid_contains(size, x, y, z),
    ensures
        sphere_grid(size).voxel(x, y, z) == terrain_voxel(in_ball(size / 2, x, y, z)),
{
    lemma_grid_index(size, x, y, z);
}

/// The voxels of one chunk: a cube of `size³` voxels in linear-index order.
#[derive(Debug, Clone)]
pub struct VoxelData {
    pub size: i32,
    pub voxels: Vec<Voxel>,
}

impl View for VoxelData {
    type V = VoxelGrid;

    open spec fn view(&self) -> VoxelGrid {
        VoxelGrid { size: self.size as int, cells: self.voxels@ }
    }
}

/// The volume that a height map describes is a well-formed cube, whatever
/// the heights are.
pub proof fn lemma_volume(size: int)
    requires
        0 < size <= MAX_CHUNK_SIZE,
    ensures
        forall|heights: Seq<i32>| (#[trigger] height_map_grid(size, heights)).wf(),
        sphere_grid(size).wf(),
{
    lemma_volume_bound(size);
}

/// `size³` for a supported edge length, with the bound that makes it fit.
proof fn lemma_volume_bound(size: int)
    requires
        0 < size <= MAX_CHUNK_SIZE,
    ensures
        0 < size * size <= 0x4_0000,
        0 < size * size * size <= 0x800_0000,
{
    assert(0 < size * size <= 0x4_0000) by (nonlinear_arith)
        requires
            0 < size <= 512,
    ;
    assert(0 < size * size * size <= 0x800_0000) by (nonlinear_arith)
        requires
            0 < size <= 512,
            0 < size * size <= 0x4_0000,
    ;
}

impl VoxelData {
    /// The volume is a well-formed cube.
    pub open spec fn wf(&self) -> bool {
        self@.wf()
    }

    /// Linear index of the voxel at local coordinate `(x, y, z)`.
    pub fn coords_to_index(&self, x: i32, y: i32, z: i32) -> (i: usize)
        requires
            self.wf(),
            self@.contains(x as int, y as int, z as int),
        ensures
            i == grid_index(self.size as int, x as int, y as int, z as int),
            i < self.voxels.len(),
            grid_coords(self.size as int, i as int) == (x as int, y as int, z as int),
    {
        let n: i32 = self.size;
        proof {
            lemma_volume_bound(n as int);
            lemma_grid_index(n as int, x as int, y as int, z as int);
            assert(0 <= y * n <= 0x4_0000 && 0 <= z * n <= 0x4_0000 && 0 <= z * n * n
                <= 0x800_0000) by (nonlinear_arith)
                requires
                    0 <= y < n,
                    0 <= z < n,
                    0 < n <= 512,
            ;
        }
        (x + y * n + z * n * n) as usize
    }

    /// Local coordinate of the voxel at linear index `i`.
    pub fn index_to_coords(&self, i: usize) -> (c: (i32, i32, i32))
        requires
            self.wf(),
            i < self.voxels.len(),
        ensures
            (c.0 as int, c.1 as int, c.2 as int) == grid_coords(self.size as int, i as int),
            self@.contains(c.0 as int, c.1 as int, c.2 as int),
            grid_index(self.size as int, c.0 as int, c.1 as int, c.2 as int) == i,
    {
        let n: usize = self.size as usize;
        proof {
            lemma_volume_bound(n as int);
            lemma_grid_coords(n as int, i as int);
        }
        let x: usize = i % n;
        let y: usize = (i / n) % n;
        let z: usize = i / (n * n);
        (x as i32, y as i32, z as i32)
    }

    /// The voxel at local coordinate `(x, y, z)`, or `None` where the
    /// coordinate lies outside the volume.
    pub fn get(&self, x: i32, y: i32, z: i32) -> (v: Option<&Voxel>)
        requires
            self.wf(),
        ensures
            match v {
                Some(voxel) => self@.contains(x as int, y as int, z as int) && *voxel
                    == self@.voxel(x as int, y as int, z as int),
                None => !self@.contains(x as int, y as int, z as int),
            },
    {
        let n: i32 = self.size;
        if 0 <= x && x < n && 0 <= y && y < n && 0 <= z && z < n {
            let i: usize = self.coords_to_index(x, y, z);
            Some(&self.voxels[i])
        } else {
            None
        }
    }

    /// Builds the volume of edge `size` that the height map `heights`
    /// describes. `heights` holds one entry per column, `size * size` in
    /// all, with the height of column `(x, z)` at `x + z * size`.
    pub fn generate_height_map(size: i32, heights: &Vec<i32>) -> (data: VoxelData)
        requires
            0 < size <= MAX_CHUNK_SIZE,
            heights@.len() == size * size,
        ensures
            data@ == height_map_grid(size as int, heights@),
            data.wf(),
    {
        let n: usize = size as usize;
        proof {
            lemma_volume_bound(size as int);
        }
        let total: usize = n * n * n;
        let mut voxels: Vec<Voxel> = Vec::new();
        let mut i: usize = 0;
        while i < total
            invariant
                0 < size <= MAX_CHUNK_SIZE,
                n == size,
                total == size * size * size,
                heights@.len() == size * size,
                i <= total,
                voxels@.len() == i,
                forall|k: int|
                    0 <= k < i ==> #[trigger] voxels@[k] == height_map_grid(
                        size as int,
                        heights@,
                    ).cells[k],
            decreases total - i,
        {
            proof {
                lemma_volume_bound(size as int);
                lemma_grid_coords(size as int, i as int);
            }
            let x: usize = i % n;
            let y: usize = (i / n) % n;
            let z: usize = i / (n * n);
            assert(x + z * n < n * n) by (nonlinear_arith)
                requires
                    0 <= x < n,
                    0 <= z < n,
            ;
            let solid: bool = (y as i32) < heights[x + z * n];
            if solid {
                voxels.push(Voxel { is_active: true, block_type: BlockType::Grass });
            } else {
                voxels.push(Voxel::default());
            }
            i = i + 1;
        }
        let data = VoxelData { size, voxels };
        assert(data@.cells =~= height_map_grid(size as int, heights@).cells);
        data
    }

    /// Builds the volume of edge `size` that holds a filled ball of radius
    /// `size / 2` centred in it.
    pub fn generate_sphere(size: i32) -> (data: VoxelData)
        requires
            0 < size <= MAX_CHUNK_SIZE,
        ensures
            data@ == sphere_grid(size as int),
            data.wf(),
    {
        let n: usize = size as usize;
        proof {
            lemma_volume_bound(size as int);
        }
        let total: usize = n * n * n;
        let r: i32 = size / 2;
        let mut voxels: Vec<Voxel> = Vec::new();
        let mut i: usize = 0;
        while i < total
            invariant
                0 < size <= MAX_CHUNK_SIZE,
                n == size,
                r == size as int / 2,
                total == size * size * size,
                i <= total,
                voxels@.len() == i,
                forall|k: int|
                    0 <= k < i ==> #[trigger] voxels@[k] == sphere_grid(size as int).cells[k],
            decreases total - i,
        {
            proof {
                lemma_volume_bound(size as int);
                lemma_grid_coords(size as int, i as int);
            }
            let dx: i32 = (i % n) as i32 - r;
            let dy: i32 = ((i / n) % n) as i32 - r;
            let dz: i32 = (i / (n * n)) as i32 - r;
            assert(0 <= dx * dx <= 0x4_0000 && 0 <= dy * dy <= 0x4_0000 && 0 <= dz * dz
                <= 0x4_0000 && 0 <= r * r <= 0x4_0000) by (nonlinear_arith)
                requires
                    -512 <= dx <= 512,
                    -512 <= dy <= 512,
                    -512 <= dz <= 512,
                    0 <= r <= 512,
            ;
            let solid: bool = dx * dx + dy * dy + dz * dz <= r * r;
            if solid {
                voxels.push(Voxel { is_active: true, block_type: BlockType::Grass });
            } else {
                voxels.push(Voxel::default());
            }
            i = i + 1;
        }
        let data = VoxelData { size, voxels };
        assert(data@.cells =~= sphere_grid(size as int).cells);
        data
    }
}

} // verus!
