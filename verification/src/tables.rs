//! The marching-cubes case table.
//!
//! A cell is a unit cube with corners numbered 0 to 7 and edges numbered 0
//! to 11. Corners 0 to 3 run around the face `z = 0` and corners 4 to 7
//! around the face `z = 1`, each above the corner four below it. Edges 0
//! to 3 join the corners of the first face in turn, edges 4 to 7 those of
//! the second, and edge `8 + i` joins corner `i` to corner `i + 4`.
//!
//! A corner pattern is a number from 0 to 255 whose bit `i` says whether
//! corner `i` is solid. Its row of the table lists the triangles that
//! separate the solid corners from the empty ones: up to five triples of
//! edge numbers, followed by sentinels.

use vstd::prelude::*;

verus! {

/// Slot value that marks an unused slot of a row.
pub const SENTINEL: u64 = 0xF;

/// Number of edges of a cell; a slot below it names an edge.
pub const EDGE_COUNT: u64 = 12;

/// Largest number of triangles in one cell.
pub const MAX_TRIANGLES: usize = 5;

/// The case table. A row is written as sixteen hexadecimal digits, one per
/// slot and the first slot leftmost: `0x083F_...` lists the one triangle
/// over the edges 0, 8 and 3.
pub const TRIANGULATION: [u64; 256] = [
    0xFFFF_FFFF_FFFF_FFFF,
    0x083F_FFFF_FFFF_FFFF,
    0x019F_FFFF_FFFF_FFFF,
    0x1839_81FF_FFFF_FFFF,
    0x12AF_FFFF_FFFF_FFFF,
    0x0831_2AFF_FFFF_FFFF,
    0x92A0_29FF_FFFF_FFFF,
    0x2832_A8A9_8FFF_FFFF,
    0x3B2F_FFFF_FFFF_FFFF,
    0x0B28_B0FF_FFFF_FFFF,
    0x1902_3BFF_FFFF_FFFF,
    0x1B21_9B98_BFFF_FFFF,
    0x3A1B_A3FF_FFFF_FFFF,
    0x0A10_8A8B_AFFF_FFFF,
    0x3903_B9BA_9FFF_FFFF,
    0x98AA_8BFF_FFFF_FFFF,
    0x478F_FFFF_FFFF_FFFF,
    0x4307_34FF_FFFF_FFFF,
    0x0198_47FF_FFFF_FFFF,
    0x4194_7173_1FFF_FFFF,
    0x12A8_47FF_FFFF_FFFF,
    0x3473_0412_AFFF_FFFF,
    0x92A9_0284_7FFF_FFFF,
    0x2A92_9727_3794_FFFF,
    0x8473_B2FF_FFFF_FFFF,
    0xB47B_2420_4FFF_FFFF,
    0x9018_4723_BFFF_FFFF,
    0x47B9_4B9B_2921_FFFF,
    0x3A13_BA78_4FFF_FFFF,
    0x1BA1_4B10_47B4_FFFF,
    0x4789_0B9B_AB03_FFFF,
    0x47B4_B99B_AFFF_FFFF,
    0x954F_FFFF_FFFF_FFFF,
    0x9540_83FF_FFFF_FFFF,
    0x0541_50FF_FFFF_FFFF,
    0x8548_3531_5FFF_FFFF,
    0x12A9_54FF_FFFF_FFFF,
    0x3081_2A49_5FFF_FFFF,
    0x52A5_4240_2FFF_FFFF,
    0x2A53_2535_4348_FFFF,
    0x9542_3BFF_FFFF_FFFF,
    0x0B20_8B49_5FFF_FFFF,
    0x0540_1523_BFFF_FFFF,
    0x2152_5828_B485_FFFF,
    0xA3BA_1395_4FFF_FFFF,
    0x4950_818A_18BA_FFFF,
    0x5405_0B5B_AB03_FFFF,
    0x5485_8AA8_BFFF_FFFF,
    0x9785_79FF_FFFF_FFFF,
    0x9309_5357_3FFF_FFFF,
    0x0780_1715_7FFF_FFFF,
    0x1533_57FF_FFFF_FFFF,
    0x9789_57A1_2FFF_FFFF,
    0xA129_5053_0573_FFFF,
    0x8028_2585_7A52_FFFF,
    0x2A52_5335_7FFF_FFFF,
    0x7957_893B_2FFF_FFFF,
    0x9579_7292_027B_FFFF,
    0x23B0_1817_8157_FFFF,
    0xB21B_1771_5FFF_FFFF,
    0x9588_57A1_3A3B_FFFF,
    0x5705_097B_010A_BA0F,
    0xBA0B_03A5_0807_570F,
    0xBA57_B5FF_FFFF_FFFF,
    0xA65F_FFFF_FFFF_FFFF,
    0x0835_A6FF_FFFF_FFFF,
    0x9015_A6FF_FFFF_FFFF,
    0x1831_985A_6FFF_FFFF,
    0x1652_61FF_FFFF_FFFF,
    0x1651_2630_8FFF_FFFF,
    0x9659_0602_6FFF_FFFF,
    0x5985_8252_6328_FFFF,
    0x23BA_65FF_FFFF_FFFF,
    0xB08B_20A6_5FFF_FFFF,
    0x0192_3B5A_6FFF_FFFF,
    0x5A61_929B_298B_FFFF,
    0x63B6_5351_3FFF_FFFF,
    0x08B0_B505_15B6_FFFF,
    0x3B60_3606_5059_FFFF,
    0x6596_9BB9_8FFF_FFFF,
    0x5A64_78FF_FFFF_FFFF,
    0x4304_7365_AFFF_FFFF,
    0x1905_A684_7FFF_FFFF,
    0xA651_9717_3794_FFFF,
    0x6126_5147_8FFF_FFFF,
    0x1255_2630_4347_FFFF,
    0x8479_0506_5026_FFFF,
    0x7397_9432_9596_269F,
    0x3B27_84A6_5FFF_FFFF,
    0x5A64_7242_027B_FFFF,
    0x0194_7823_B5A6_FFFF,
    0x9219_B294_B7B4_5A6F,
    0x8473_B535_15B6_FFFF,
    0x51B5_B610_B7B4_04BF,
    0x0590_6503_6B63_847F,
    0x6596_9B47_97B9_FFFF,
    0xA496_4AFF_FFFF_FFFF,
    0x4A64_9A08_3FFF_FFFF,
    0xA01A_6064_0FFF_FFFF,
    0x8318_1686_461A_FFFF,
    0x1491_2426_4FFF_FFFF,
    0x3081_2924_9264_FFFF,
    0x0244_26FF_FFFF_FFFF,
    0x8328_2442_6FFF_FFFF,
    0xA49A_64B2_3FFF_FFFF,
    0x0822_8B49_A4A6_FFFF,
    0x3B20_1606_461A_FFFF,
    0x6416_1A48_121B_8B1F,
    0x9649_3691_3B63_FFFF,
    0x8B18_10B6_1914_641F,
    0x3B63_6006_4FFF_FFFF,
    0x648B_68FF_FFFF_FFFF,
    0x7A67_8A89_AFFF_FFFF,
    0x0730_A709_A67A_FFFF,
    0xA671_A717_8180_FFFF,
    0xA67A_7117_3FFF_FFFF,
    0x1261_6818_9867_FFFF,
    0x2692_9167_9093_739F,
    0x7807_0660_2FFF_FFFF,
    0x7326_72FF_FFFF_FFFF,
    0x23BA_68A8_9867_FFFF,
    0x2072_7B09_767A_9A7F,
    0x1801_781A_767A_23BF,
    0xB21B_17A6_1671_FFFF,
    0x8968_6791_6B63_136F,
    0x091B_67FF_FFFF_FFFF,
    0x7807_063B_0B60_FFFF,
    0x7B6F_FFFF_FFFF_FFFF,
    0x76BF_FFFF_FFFF_FFFF,
    0x308B_76FF_FFFF_FFFF,
    0x019B_76FF_FFFF_FFFF,
    0x8198_31B7_6FFF_FFFF,
    0xA126_B7FF_FFFF_FFFF,
    0x12A3_086B_7FFF_FFFF,
    0x2902_A96B_7FFF_FFFF,
    0x6B72_A3A8_3A98_FFFF,
    0x7236_27FF_FFFF_FFFF,
    0x7087_6062_0FFF_FFFF,
    0x2762_3701_9FFF_FFFF,
    0x1621_8619_8876_FFFF,
    0xA76A_1713_7FFF_FFFF,
    0xA761_7A18_7108_FFFF,
    0x0370_7A0A_96A7_FFFF,
    0x76A7_A88A_9FFF_FFFF,
    0x684B_86FF_FFFF_FFFF,
    0x36B3_0604_6FFF_FFFF,
    0x86B8_4690_1FFF_FFFF,
    0x9469_6393_1B36_FFFF,
    0x6846_B82A_1FFF_FFFF,
    0x12A3_0B06_B046_FFFF,
    0x4B84_6B02_92A9_FFFF,
    0xA93A_3294_3B36_463F,
    0x8238_4246_2FFF_FFFF,
    0x0424_62FF_FFFF_FFFF,
    0x1902_3424_6438_FFFF,
    0x1941_4224_6FFF_FFFF,
    0x8138_6184_66A1_FFFF,
    0xA10A_0660_4FFF_FFFF,
    0x4634_386A_3039_A93F,
    0xA946_A4FF_FFFF_FFFF,
    0x4957_6BFF_FFFF_FFFF,
    0x0834_95B7_6FFF_FFFF,
    0x5015_4076_BFFF_FFFF,
    0xB768_3435_4315_FFFF,
    0x954A_1276_BFFF_FFFF,
    0x6B71_2A08_3495_FFFF,
    0x76B5_4A42_A402_FFFF,
    0x3483_5432_5A52_B76F,
    0x7237_6254_9FFF_FFFF,
    0x9540_8606_2687_FFFF,
    0x3623_7615_0540_FFFF,
    0x6286_8721_8485_158F,
    0x954A_1617_6137_FFFF,
    0x16A1_7610_7870_954F,
    0x40A4_A503_A6A7_37AF,
    0x76A7_A854_A48A_FFFF,
    0x6956_B9B8_9FFF_FFFF,
    0x36B0_6305_6095_FFFF,
    0x0B80_5B01_556B_FFFF,
    0x6B36_3553_1FFF_FFFF,
    0x12A9_5B9B_8B56_FFFF,
    0x0B30_6B09_6569_12AF,
    0xB85B_5680_5A52_025F,
    0x6B36_352A_3A53_FFFF,
    0x5895_2856_2382_FFFF,
    0x9569_6006_2FFF_FFFF,
    0x1581_8056_8382_628F,
    0x1562_16FF_FFFF_FFFF,
    0x1361_6A38_6569_896F,
    0xA10A_0695_0560_FFFF,
    0x0385_6AFF_FFFF_FFFF,
    0xA56F_FFFF_FFFF_FFFF,
    0xB5A7_5BFF_FFFF_FFFF,
    0xB5AB_7583_0FFF_FFFF,
    0x5B75_AB19_0FFF_FFFF,
    0xA75A_B798_1831_FFFF,
    0xB12B_7175_1FFF_FFFF,
    0x0831_2717_572B_FFFF,
    0x9759_2790_22B7_FFFF,
    0x7527_2B59_2328_982F,
    0x25A2_3537_5FFF_FFFF,
    0x8208_5287_5A25_FFFF,
    0x9015_A353_73A2_FFFF,
    0x9829_2187_2A25_752F,
    0x1353_75FF_FFFF_FFFF,
    0x0870_7117_5FFF_FFFF,
    0x9039_3553_7FFF_FFFF,
    0x9875_97FF_FFFF_FFFF,
    0x5845_A8AB_8FFF_FFFF,
    0x5045_B05A_BB30_FFFF,
    0x0198_4A8A_BA45_FFFF,
    0xAB4A_45B3_4941_314F,
    0x2512_852B_8458_FFFF,
    0x04B0_B345_B2B1_51BF,
    0x0250_592B_5458_B85F,
    0x9452_B3FF_FFFF_FFFF,
    0x25A3_5234_5384_FFFF,
    0x5A25_2442_0FFF_FFFF,
    0x3A23_5A38_5458_019F,
    0x5A25_2419_2942_FFFF,
    0x8458_5335_1FFF_FFFF,
    0x0451_05FF_FFFF_FFFF,
    0x8458_5390_5035_FFFF,
    0x945F_FFFF_FFFF_FFFF,
    0x4B74_9B9A_BFFF_FFFF,
    0x0834_979B_79AB_FFFF,
    0x1AB1_B414_074B_FFFF,
    0x3143_481A_474B_AB4F,
    0x4B79_B492_B912_FFFF,
    0x9749_B791_B2B1_083F,
    0xB74B_4224_0FFF_FFFF,
    0xB74B_4283_4324_FFFF,
    0x29A2_7923_7749_FFFF,
    0x9A79_74A2_7870_207F,
    0x37A3_A274_A1A0_40AF,
    0x1A28_74FF_FFFF_FFFF,
    0x4914_1771_3FFF_FFFF,
    0x4914_1708_1871_FFFF,
    0x4037_43FF_FFFF_FFFF,
    0x487F_FFFF_FFFF_FFFF,
    0x9A8A_B8FF_FFFF_FFFF,
    0x3093_9BB9_AFFF_FFFF,
    0x01A0_A88A_BFFF_FFFF,
    0x31AB_3AFF_FFFF_FFFF,
    0x12B1_B99B_8FFF_FFFF,
    0x3093_9B12_92B9_FFFF,
    0x02B8_0BFF_FFFF_FFFF,
    0x32BF_FFFF_FFFF_FFFF,
    0x2382_8AA8_9FFF_FFFF,
    0x9A20_92FF_FFFF_FFFF,
    0x2382_8A01_81A8_FFFF,
    0x1A2F_FFFF_FFFF_FFFF,
    0x1389_18FF_FFFF_FFFF,
    0x091F_FFFF_FFFF_FFFF,
    0x038F_FFFF_FFFF_FFFF,
    0xFFFF_FFFF_FFFF_FFFF,
];

/// Weight of slot `j` in a row: sixteen to the power `15 - j`.
pub open spec fn slot_weight(j: int) -> int {
    if j == 0 {
        0x1000_0000_0000_0000
    } else if j == 1 {
        0x100_0000_0000_0000
    } else if j == 2 {
        0x10_0000_0000_0000
    } else if j == 3 {
        0x1_0000_0000_0000
    } else if j == 4 {
        0x1000_0000_0000
    } else if j == 5 {
        0x100_0000_0000
    } else if j == 6 {
        0x10_0000_0000
    } else if j == 7 {
        0x1_0000_0000
    } else if j == 8 {
        0x1000_0000
    } else if j == 9 {
        0x100_0000
    } else if j == 10 {
        0x10_0000
    } else if j == 11 {
        0x1_0000
    } else if j == 12 {
        0x1000
    } else if j == 13 {
        0x100
    } else if j == 14 {
        0x10
    } else {
        1
    }
}

/// Slot `j` of a row.
pub open spec fn row_slot(row: int, j: int) -> int {
    (row / slot_weight(j)) % 16
}

/// Slot `j` of the row of corner pattern `case`.
pub open spec fn table_entry(case: int, j: int) -> int {
    row_slot(TRIANGULATION[case] as int, j)
}

/// Whether the three slots of triple `t` of a row all name an edge.
pub open spec fn triple_present(row: int, t: int) -> bool {
    &&& row_slot(row, 3 * t) < EDGE_COUNT
    &&& row_slot(row, 3 * t + 1) < EDGE_COUNT
    &&& row_slot(row, 3 * t + 2) < EDGE_COUNT
}

/// Number of triangles that a row lists: the number of triples before the
/// first one that holds a sentinel, five at most.
pub open spec fn row_triangles(row: int) -> int {
    if !triple_present(row, 0) {
        0
    } else if !triple_present(row, 1) {
        1
    } else if !triple_present(row, 2) {
        2
    } else if !triple_present(row, 3) {
        3
    } else if !triple_present(row, 4) {
        4
    } else {
        5
    }
}

/// Number of triangles of corner pattern `case`.
pub open spec fn triangle_count(case: int) -> int {
    row_triangles(TRIANGULATION[case] as int)
}

/// A cell whose corners are all empty, or all solid, has no triangle.
pub proof fn lemma_uniform_cases_are_empty()
    ensures
        triangle_count(0) == 0,
        triangle_count(255) == 0,
{
}

/// The row of corner pattern `case`.
pub fn triangulation_row(case: usize) -> (row: u64)
    requires
        case < 256,
    ensures
        row == TRIANGULATION[case as int],
{
    TRIANGULATION[case]
}

/// The edges of the triangles that `row` lists, in order: three for each
/// triangle, each below twelve.
pub fn row_edges(row: u64) -> (edges: Vec<u8>)
    ensures
        edges@.len() == 3 * row_triangles(row as int),
        edges@.len() <= 15,
        forall|j: int|
            0 <= j < edges@.len() ==> #[trigger] edges@[j] == row_slot(row as int, j) && edges@[j]
                < EDGE_COUNT,
{
    let mut edges: Vec<u8> = Vec::new();
    let mut t: usize = 0;
    let mut weight: u64 = 0x1000_0000_0000_0000;
    while t < MAX_TRIANGLES
        invariant_except_break
            t <= MAX_TRIANGLES,
            t < MAX_TRIANGLES ==> weight == slot_weight(3 * t as int),
            edges@.len() == 3 * t,
            forall|k: int| 0 <= k < t ==> triple_present(row as int, k),
            forall|j: int|
                0 <= j < edges@.len() ==> #[trigger] edges@[j] == row_slot(row as int, j)
                    && edges@[j] < EDGE_COUNT,
        ensures
            edges@.len() == 3 * row_triangles(row as int),
            edges@.len() <= 15,
            forall|j: int|
                0 <= j < edges@.len() ==> #[trigger] edges@[j] == row_slot(row as int, j)
                    && edges@[j] < EDGE_COUNT,
        decreases MAX_TRIANGLES - t,
    {
        let a: u64 = (row / weight) % 16;
        let b: u64 = (row / (weight / 16)) % 16;
        let c: u64 = (row / (weight / 256)) % 16;
        assert(weight / 16 == slot_weight(3 * t as int + 1));
        assert(weight / 256 == slot_weight(3 * t as int + 2));
        if a >= EDGE_COUNT || b >= EDGE_COUNT || c >= EDGE_COUNT {
            assert(!triple_present(row as int, t as int));
            break;
        }
        edges.push(a as u8);
        edges.push(b as u8);
        edges.push(c as u8);
        assert(triple_present(row as int, t as int));
        t = t + 1;
        if t < MAX_TRIANGLES {
            weight = weight / 4096;
        }
    }
    edges
}

} // verus!
