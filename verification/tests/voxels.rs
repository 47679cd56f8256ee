use voxel_engine::chunk::{Chunk, CHUNK_SIZE};
use voxel_engine::coord::ChunkCoord;
use voxel_engine::voxel::{BlockType, Voxel, VoxelData, MAX_CHUNK_SIZE};

fn grass() -> Voxel {
    Voxel { is_active: true, block_type: BlockType::Grass }
}

fn air() -> Voxel {
    Voxel { is_active: false, block_type: BlockType::Default }
}

#[test]
fn default_voxel_is_empty() {
    assert_eq!(Voxel::default(), air());
}

#[test]
fn coords_to_index_runs_x_fastest() {
    let data = VoxelData::generate_sphere(4);
    assert_eq!(data.coords_to_index(0, 0, 0), 0);
    assert_eq!(data.coords_to_index(1, 0, 0), 1);
    assert_eq!(data.coords_to_index(0, 1, 0), 4);
    assert_eq!(data.coords_to_index(0, 0, 1), 16);
    assert_eq!(data.coords_to_index(1, 2, 3), 57);
    assert_eq!(data.coords_to_index(3, 3, 3), 63);
}

#[test]
fn index_to_coords_undoes_coords_to_index() {
    let data = VoxelData::generate_sphere(4);
    assert_eq!(data.index_to_coords(57), (1, 2, 3));
    assert_eq!(data.index_to_coords(0), (0, 0, 0));
    assert_eq!(data.index_to_coords(63), (3, 3, 3));
}

#[test]
fn coordinates_and_indices_correspond_one_to_one() {
    for n in [1, 2, 3, 4, 5] {
        let data = VoxelData::generate_sphere(n);
        let mut seen = vec![false; (n * n * n) as usize];
        for z in 0..n {
            for y in 0..n {
                for x in 0..n {
                    let i = data.coords_to_index(x, y, z);
                    assert!(!seen[i]);
                    seen[i] = true;
                    assert_eq!(data.index_to_coords(i), (x, y, z));
                }
            }
        }
        assert!(seen.iter().all(|s| *s));
        for i in 0..(n * n * n) as usize {
            let (x, y, z) = data.index_to_coords(i);
            assert_eq!(data.coords_to_index(x, y, z), i);
        }
    }
}

#[test]
fn get_returns_none_outside_the_volume() {
    let data = VoxelData::generate_sphere(4);
    assert!(data.get(-1, 0, 0).is_none());
    assert!(data.get(0, 4, 0).is_none());
    assert!(data.get(0, 0, 4).is_none());
    assert!(data.get(i32::MIN, i32::MAX, 0).is_none());
    assert!(data.get(3, 3, 3).is_some());
}

#[test]
fn height_map_fills_each_column_up_to_its_height() {
    let heights = vec![1, 2, 0, 1];
    let data = VoxelData::generate_height_map(2, &heights);
    assert_eq!(data.size, 2);
    assert_eq!(data.voxels.len(), 8);
    assert_eq!(data.get(0, 0, 0), Some(&grass()));
    assert_eq!(data.get(0, 1, 0), Some(&air()));
    assert_eq!(data.get(1, 0, 0), Some(&grass()));
    assert_eq!(data.get(1, 1, 0), Some(&grass()));
    assert_eq!(data.get(0, 0, 1), Some(&air()));
    assert_eq!(data.get(0, 1, 1), Some(&air()));
    assert_eq!(data.get(1, 0, 1), Some(&grass()));
    assert_eq!(data.get(1, 1, 1), Some(&air()));
}

#[test]
fn height_map_is_stored_in_index_order() {
    let heights = vec![1, 2, 0, 1];
    let data = VoxelData::generate_height_map(2, &heights);
    let solid: Vec<bool> = data.voxels.iter().map(|v| v.is_active).collect();
    assert_eq!(solid, vec![true, true, false, true, false, true, false, false]);
}

#[test]
fn heights_beyond_the_volume_fill_or_empty_the_column() {
    let heights = vec![i32::MAX, i32::MIN, -1, 3, 0, 7, 2, 1, 1];
    let data = VoxelData::generate_height_map(3, &heights);
    for y in 0..3 {
        assert_eq!(data.get(0, y, 0), Some(&grass()));
        assert_eq!(data.get(1, y, 0), Some(&air()));
        assert_eq!(data.get(2, y, 0), Some(&air()));
        assert_eq!(data.get(0, y, 1), Some(&grass()));
        assert_eq!(data.get(1, y, 1), Some(&air()));
        assert_eq!(data.get(2, y, 1), Some(&grass()));
    }
    assert_eq!(data.get(0, 1, 2), Some(&grass()));
    assert_eq!(data.get(0, 2, 2), Some(&air()));
}

#[test]
fn generation_repeats_itself() {
    let heights = vec![3, 1, 4, 1, 5, 9, 2, 6, 5, 3, 5, 8, 9, 7, 9, 3];
    let first = VoxelData::generate_height_map(4, &heights);
    let second = VoxelData::generate_height_map(4, &heights);
    assert_eq!(first.voxels, second.voxels);
    assert_eq!(first.size, second.size);
}

#[test]
fn sphere_of_edge_four_has_thirty_solid_voxels() {
    let data = VoxelData::generate_sphere(4);
    assert_eq!(data.voxels.len(), 64);
    assert_eq!(data.voxels.iter().filter(|v| v.is_active).count(), 30);
    assert_eq!(data.get(2, 2, 2), Some(&grass()));
    assert_eq!(data.get(0, 2, 2), Some(&grass()));
    assert_eq!(data.get(2, 0, 2), Some(&grass()));
    assert_eq!(data.get(2, 2, 0), Some(&grass()));
    assert_eq!(data.get(3, 3, 3), Some(&grass()));
    assert_eq!(data.get(1, 1, 1), Some(&grass()));
    assert_eq!(data.get(0, 0, 0), Some(&air()));
    assert_eq!(data.get(0, 1, 2), Some(&air()));
    assert_eq!(data.get(3, 0, 0), Some(&air()));
}

#[test]
fn sphere_of_edge_one_is_a_single_solid_voxel() {
    let data = VoxelData::generate_sphere(1);
    assert_eq!(data.voxels, vec![grass()]);
}

#[test]
fn chunk_new_builds_the_height_map_at_its_position() {
    let heights = vec![1, 2, 0, 1];
    let position = ChunkCoord { x: 3, y: 0, z: -2 };
    let chunk = Chunk::new(position, 2, &heights);
    assert_eq!(chunk.position, position);
    assert_eq!(chunk.voxel_data.size, 2);
    assert_eq!(chunk.voxel_data.voxels, VoxelData::generate_height_map(2, &heights).voxels);
}

#[test]
fn size_constants() {
    assert_eq!(CHUNK_SIZE, 4);
    assert_eq!(MAX_CHUNK_SIZE, 512);
}
