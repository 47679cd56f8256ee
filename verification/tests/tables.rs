use voxel_engine::tables::{row_edges, triangulation_row, SENTINEL, TRIANGULATION};

#[test]
fn uniform_patterns_have_no_triangle() {
    assert_eq!(triangulation_row(0), 0xFFFF_FFFF_FFFF_FFFF);
    assert_eq!(triangulation_row(255), 0xFFFF_FFFF_FFFF_FFFF);
    assert!(row_edges(triangulation_row(0)).is_empty());
    assert!(row_edges(triangulation_row(255)).is_empty());
}

#[test]
fn single_corner_patterns_cut_the_three_edges_at_the_corner() {
    assert_eq!(row_edges(triangulation_row(1)), vec![0, 8, 3]);
    assert_eq!(row_edges(triangulation_row(2)), vec![0, 1, 9]);
    assert_eq!(row_edges(triangulation_row(4)), vec![1, 2, 10]);
    assert_eq!(row_edges(triangulation_row(8)), vec![3, 11, 2]);
    assert_eq!(row_edges(triangulation_row(16)), vec![4, 7, 8]);
    assert_eq!(row_edges(triangulation_row(32)), vec![9, 5, 4]);
    assert_eq!(row_edges(triangulation_row(64)), vec![10, 6, 5]);
    assert_eq!(row_edges(triangulation_row(128)), vec![7, 6, 11]);
}

#[test]
fn rows_with_two_to_five_triangles() {
    assert_eq!(row_edges(triangulation_row(3)), vec![1, 8, 3, 9, 8, 1]);
    assert_eq!(row_edges(triangulation_row(7)), vec![2, 8, 3, 2, 10, 8, 10, 9, 8]);
    assert_eq!(row_edges(triangulation_row(23)), vec![2, 10, 9, 2, 9, 7, 2, 7, 3, 7, 9, 4]);
    assert_eq!(
        row_edges(triangulation_row(61)),
        vec![5, 7, 0, 5, 0, 9, 7, 11, 0, 1, 0, 10, 11, 10, 0]
    );
    assert_eq!(row_edges(triangulation_row(254)), vec![0, 3, 8]);
}

#[test]
fn every_row_lists_whole_triangles_then_sentinels() {
    let mut triangles = 0;
    for case in 0..256 {
        let row = triangulation_row(case);
        assert_eq!(row, TRIANGULATION[case]);
        let edges = row_edges(row);
        assert_eq!(edges.len() % 3, 0);
        assert!(edges.len() <= 15);
        for slot in 0..16 {
            let value = (row >> (4 * (15 - slot))) & 0xF;
            if slot < edges.len() {
                assert!(value < 12);
                assert_eq!(value, edges[slot] as u64);
            } else {
                assert_eq!(value, SENTINEL);
            }
        }
        triangles += edges.len() / 3;
    }
    assert_eq!(triangles, 820);
}

#[test]
fn every_triangle_edge_joins_a_solid_and_an_empty_corner() {
    let ends = [
        (0, 1), (1, 2), (2, 3), (3, 0), (4, 5), (5, 6), (6, 7), (7, 4), (0, 4), (1, 5), (2, 6),
        (3, 7),
    ];
    for case in 0..256usize {
        let edges = row_edges(triangulation_row(case));
        for e in 0..12usize {
            let (a, b) = ends[e];
            let crosses = ((case >> a) & 1) != ((case >> b) & 1);
            assert_eq!(edges.contains(&(e as u8)), crosses);
        }
    }
}

#[test]
fn a_row_ends_at_the_first_triple_that_holds_a_sentinel() {
    assert!(row_edges(0x0F3F_FFFF_FFFF_FFFF).is_empty());
    assert!(row_edges(0xF83F_FFFF_FFFF_FFFF).is_empty());
    assert!(row_edges(0x08CF_FFFF_FFFF_FFFF).is_empty());
    assert_eq!(row_edges(0x0830_12FF_FFFF_FFFF), vec![0, 8, 3, 0, 1, 2]);
    assert_eq!(row_edges(0x083F_FF01_2FFF_FFFF), vec![0, 8, 3]);
    assert_eq!(
        row_edges(0x0123_4567_89AB_0120),
        vec![0, 1, 2, 3, 4, 5, 6, 7, 8, 9, 10, 11, 0, 1, 2]
    );
}
