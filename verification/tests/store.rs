use voxel_engine::chunk::Chunk;
use voxel_engine::chunk_store::ChunkStore;
use voxel_engine::coord::{ChunkCoord, WorldPos};
use voxel_engine::voxel::{BlockType, Voxel};

fn at(x: i32, y: i32, z: i32) -> ChunkCoord {
    ChunkCoord { x, y, z }
}

fn flat(position: ChunkCoord, n: i32, height: i32) -> Chunk {
    Chunk::new(position, n, &vec![height; (n * n) as usize])
}

#[test]
fn new_store_is_empty() {
    let store = ChunkStore::new(4);
    assert_eq!(store.len(), 0);
    assert_eq!(store.chunk_size(), 4);
    assert!(!store.contains_key(at(0, 0, 0)));
    assert!(store.get(at(0, 0, 0)).is_none());
    assert_eq!(store.find(at(0, 0, 0)), None);
}

#[test]
fn insert_then_get_finds_the_chunk() {
    let mut store = ChunkStore::new(2);
    assert!(store.insert(flat(at(1, 0, -1), 2, 1)).is_none());
    assert!(store.insert(flat(at(0, 0, 0), 2, 2)).is_none());
    assert_eq!(store.len(), 2);
    let found = store.get(at(1, 0, -1)).unwrap();
    assert_eq!(found.position, at(1, 0, -1));
    assert_eq!(found.voxel_data.voxels, flat(at(1, 0, -1), 2, 1).voxel_data.voxels);
    assert_eq!(store.find(at(1, 0, -1)), Some(0));
    assert_eq!(store.find(at(0, 0, 0)), Some(1));
    assert_eq!(store.chunk_at(1).position, at(0, 0, 0));
    assert!(store.get(at(-1, 0, 1)).is_none());
}

#[test]
fn insert_at_a_stored_position_replaces_the_chunk() {
    let mut store = ChunkStore::new(2);
    store.insert(flat(at(0, 0, 0), 2, 0));
    store.insert(flat(at(1, 0, 0), 2, 0));
    let previous = store.insert(flat(at(0, 0, 0), 2, 2)).unwrap();
    assert_eq!(previous.voxel_data.voxels, flat(at(0, 0, 0), 2, 0).voxel_data.voxels);
    assert_eq!(store.len(), 2);
    assert_eq!(store.find(at(0, 0, 0)), Some(0));
    assert!(store.get(at(0, 0, 0)).unwrap().voxel_data.voxels.iter().all(|v| v.is_active));
}

#[test]
fn remove_takes_the_chunk_out_and_keeps_the_order() {
    let mut store = ChunkStore::new(2);
    store.insert(flat(at(0, 0, 0), 2, 0));
    store.insert(flat(at(1, 0, 0), 2, 1));
    store.insert(flat(at(2, 0, 0), 2, 2));
    let removed = store.remove(at(1, 0, 0)).unwrap();
    assert_eq!(removed.position, at(1, 0, 0));
    assert_eq!(store.len(), 2);
    assert!(!store.contains_key(at(1, 0, 0)));
    assert_eq!(store.chunk_at(0).position, at(0, 0, 0));
    assert_eq!(store.chunk_at(1).position, at(2, 0, 0));
    assert!(store.remove(at(1, 0, 0)).is_none());
    assert_eq!(store.len(), 2);
}

#[test]
fn sample_world_floors_negative_positions() {
    let n = 16;
    let mut heights = vec![0; 256];
    heights[15] = 1;
    let mut store = ChunkStore::new(n);
    store.insert(Chunk::new(at(-1, 0, 0), n, &heights));
    assert_eq!(
        store.sample_world(WorldPos { x: -1, y: 0, z: 0 }),
        Some(&Voxel { is_active: true, block_type: BlockType::Grass })
    );
    assert_eq!(
        store.sample_world(WorldPos { x: -2, y: 0, z: 0 }),
        Some(&Voxel { is_active: false, block_type: BlockType::Default })
    );
    assert_eq!(
        store.sample_world(WorldPos { x: -1, y: 1, z: 0 }),
        Some(&Voxel { is_active: false, block_type: BlockType::Default })
    );
    assert_eq!(store.sample_world(WorldPos { x: 0, y: 0, z: 0 }), None);
    assert_eq!(store.sample_world(WorldPos { x: -17, y: 0, z: 0 }), None);
    assert_eq!(store.sample_world(WorldPos { x: -1, y: -1, z: 0 }), None);
}

#[test]
fn sample_world_resolves_both_signs_alike() {
    let n = 4;
    let heights: Vec<i32> = (0..16).map(|i| i % 5).collect();
    let mut store = ChunkStore::new(n);
    store.insert(Chunk::new(at(-2, 0, -1), n, &heights));
    store.insert(Chunk::new(at(1, 0, 3), n, &heights));
    for x in 0..4i64 {
        for y in 0..4i64 {
            for z in 0..4i64 {
                let left = store.sample_world(WorldPos { x: x - 8, y, z: z - 4 });
                let right = store.sample_world(WorldPos { x: x + 4, y, z: z + 12 });
                assert!(left.is_some());
                assert_eq!(left, right);
                let expected = y < ((x + z * 4) % 5);
                assert_eq!(left.unwrap().is_active, expected);
            }
        }
    }
}

#[test]
fn sample_world_far_outside_the_grid_finds_nothing() {
    let mut store = ChunkStore::new(1);
    store.insert(flat(at(i32::MAX, 0, 0), 1, 1));
    assert!(store.sample_world(WorldPos { x: i32::MAX as i64, y: 0, z: 0 }).is_some());
    assert!(store.sample_world(WorldPos { x: i32::MAX as i64 + 1, y: 0, z: 0 }).is_none());
    assert!(store.sample_world(WorldPos { x: i64::MAX, y: i64::MIN, z: 0 }).is_none());
}
