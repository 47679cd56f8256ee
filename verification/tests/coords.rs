use voxel_engine::coord::{coord_from_wide, floor_div, floor_mod, ChunkCoord, WorldPos};

#[test]
fn floor_div_rounds_down_for_negative_positions() {
    assert_eq!(floor_div(-1, 16), -1);
    assert_eq!(floor_div(-16, 16), -1);
    assert_eq!(floor_div(-17, 16), -2);
    assert_eq!(floor_div(-32, 16), -2);
}

#[test]
fn floor_div_matches_plain_division_for_positive_positions() {
    assert_eq!(floor_div(0, 16), 0);
    assert_eq!(floor_div(15, 16), 0);
    assert_eq!(floor_div(16, 16), 1);
    assert_eq!(floor_div(35, 16), 2);
}

#[test]
fn floor_div_at_the_ends_of_the_range() {
    assert_eq!(floor_div(i64::MIN, 1), i64::MIN);
    assert_eq!(floor_div(i64::MAX, 1), i64::MAX);
    assert_eq!(floor_div(i64::MIN, 3), -3074457345618258603);
    assert_eq!(floor_div(i64::MAX, 512), 18014398509481983);
    assert_eq!(floor_div(i64::MIN, i32::MAX), -4294967299);
}

#[test]
fn floor_mod_is_never_negative() {
    assert_eq!(floor_mod(-1, 16), 15);
    assert_eq!(floor_mod(-16, 16), 0);
    assert_eq!(floor_mod(-17, 16), 15);
    assert_eq!(floor_mod(17, 16), 1);
    assert_eq!(floor_mod(0, 16), 0);
    assert_eq!(floor_mod(i64::MIN, 3), 1);
    assert_eq!(floor_mod(i64::MAX, 512), 511);
}

#[test]
fn chunk_and_offset_rebuild_the_position() {
    for n in [1, 2, 3, 4, 16, 512] {
        for p in -1100i64..1100 {
            let c = floor_div(p, n);
            let l = floor_mod(p, n) as i64;
            assert!(0 <= l && l < n as i64);
            assert_eq!(c * n as i64 + l, p);
        }
    }
}

#[test]
fn shifting_by_whole_chunks_keeps_the_offset() {
    let n = 16;
    for p in -40i64..40 {
        for k in -3i64..4 {
            assert_eq!(floor_div(p + k * 16, n), floor_div(p, n) + k);
            assert_eq!(floor_mod(p + k * 16, n), floor_mod(p, n));
        }
    }
}

#[test]
fn coord_from_wide_accepts_the_32_bit_range() {
    assert_eq!(coord_from_wide(1, -2, 3), Some(ChunkCoord { x: 1, y: -2, z: 3 }));
    assert_eq!(
        coord_from_wide(i32::MIN as i64, 0, i32::MAX as i64),
        Some(ChunkCoord { x: i32::MIN, y: 0, z: i32::MAX })
    );
}

#[test]
fn coord_from_wide_refuses_what_lies_beyond() {
    assert_eq!(coord_from_wide(i32::MAX as i64 + 1, 0, 0), None);
    assert_eq!(coord_from_wide(0, i32::MIN as i64 - 1, 0), None);
    assert_eq!(coord_from_wide(0, 0, i64::MAX), None);
}

#[test]
fn world_position_scales_the_chunk_and_adds_the_offset() {
    let c = ChunkCoord { x: -1, y: 0, z: 2 };
    assert_eq!(c.world_position(16, 15, 0, 0), WorldPos { x: -1, y: 0, z: 32 });
    assert_eq!(c.world_position(16, 0, 16, 3), WorldPos { x: -16, y: 16, z: 35 });
    let far = ChunkCoord { x: i32::MIN, y: i32::MAX, z: 0 };
    assert_eq!(
        far.world_position(512, 0, 512, 0),
        WorldPos { x: -1099511627776, y: 1099511627776, z: 0 }
    );
}
