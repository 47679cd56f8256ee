//! A chunk: one cube of voxels and its place on the chunk grid.

use crate::coord::ChunkCoord;
use crate::voxel::{height_map_grid, VoxelData, VoxelGrid, MAX_CHUNK_SIZE};
use vstd::prelude::*;

verus! {

/// Edge length of a chunk, in voxels, where none is configured.
pub const CHUNK_SIZE: i32 = 4;

/// A chunk as a mathematical value.
pub struct ChunkView {
    pub position: ChunkCoord,
    pub grid: VoxelGrid,
}

/// A cube of voxels at a position of the chunk grid.
#[derive(Debug, Clone)]
pub struct Chunk {
    pub voxel_data: VoxelData,
    pub position: ChunkCoord,
}

impl View for Chunk {
    type V = ChunkView;

    open spec fn view(&self) -> ChunkView {
        ChunkView { position: self.position, grid: self.voxel_data@ }
    }
}

impl Chunk {
    /// The chunk's volume is a well-formed cube.
    pub open spec fn wf(&self) -> bool {
        self.voxel_data.wf()
    }

    /// Builds the chunk at `position` whose terrain the height map `heights`
    /// describes, with `size * size` column heights, that of column
    /// `(x, z)` at `x + z * size`.
    pub fn new(position: ChunkCoord, size: i32, heights: &Vec<i32>) -> (chunk: Chunk)
        requires
            0 < size <= MAX_CHUNK_SIZE,
            heights@.len() == size * size,
        ensures
            chunk@ == (ChunkView { position, grid: height_map_grid(size as int, heights@) }),
            chunk.wf(),
    {
        let voxel_data = VoxelData::generate_height_map(size, heights);
        Chunk { voxel_data, position }
    }
}

} // verus!
