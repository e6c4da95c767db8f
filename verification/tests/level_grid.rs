use vangers::level::config::{ColorRange, TerrainConfig};
use vangers::level::grid::{Level, Point, Texel};

fn terrain() -> TerrainConfig {
    TerrainConfig { shadow_offset: 0, height_shift: 0, colors: ColorRange { start: 0, end: 1 } }
}

fn level(width: i32, rows: i32, height: Vec<u8>, meta: Vec<u8>) -> Level {
    Level {
        size: (width, rows),
        flood_map: vec![0],
        height,
        meta,
        palette: [[0; 4]; 256],
        terrains: [terrain(); 8],
    }
}

#[test]
fn test_level_exports_two_blank_texels() {
    let level = Level::new_test();
    assert_eq!(level.export(), vec![0, 0, 0, 0, 0, 0, 0, 0]);
}

#[test]
fn test_level_fields() {
    let level = Level::new_test();
    assert_eq!(level.size, (2, 1));
    assert_eq!(level.flood_map, vec![0]);
    assert_eq!(level.height, vec![0, 0]);
    assert_eq!(level.meta, vec![0, 0]);
    assert!(level.palette.iter().all(|c| *c == [0xFF; 4]));
    assert!(level.terrains.iter().all(|t| *t == terrain()));
    assert_eq!(level.get((0, 0)), Texel::Single(Point(0, 0)));
    assert_eq!(level.get((1, 0)), Texel::Single(Point(0, 0)));
}

#[test]
fn test_dual_texel_delta() {
    // Both cells carry the double-level bit; the low bits are 01 and 10.
    let grid = level(2, 1, vec![17, 99], vec![0b0100_0001, 0b0100_0010]);
    let expected =
        Texel::Dual { low: Point(17, 0), high: Point(99, 0), delta: (1 << 5) | (2 << 3) };
    assert_eq!(grid.get((0, 0)), expected);
    assert_eq!(grid.get((1, 0)), expected);
    match grid.get((0, 0)) {
        Texel::Dual { delta, .. } => assert_eq!(delta, 0x30),
        Texel::Single(_) => panic!("a double level was expected"),
    }
}

#[test]
fn test_dual_texel_is_decided_by_the_cell_itself() {
    // Only the odd cell is marked: the even one is a single level.
    let grid = level(2, 1, vec![5, 6], vec![0b0000_1000, 0b0101_0011]);
    assert_eq!(grid.get((0, 0)), Texel::Single(Point(5, 1)));
    assert_eq!(
        grid.get((1, 0)),
        Texel::Dual { low: Point(5, 1), high: Point(6, 2), delta: 0b0001_1000 }
    );
}

#[test]
fn test_terrain_type_is_bits_three_to_five() {
    let grid = level(4, 1, vec![1, 2, 3, 4], vec![0b0011_1000, 0b1011_1111, 0b0000_0111, 0b0010_0000]);
    assert_eq!(grid.get((0, 0)), Texel::Single(Point(1, 7)));
    assert_eq!(grid.get((1, 0)), Texel::Single(Point(2, 7)));
    assert_eq!(grid.get((2, 0)), Texel::Single(Point(3, 0)));
    assert_eq!(grid.get((3, 0)), Texel::Single(Point(4, 4)));
}

#[test]
fn test_get_wraps_around() {
    let height: Vec<u8> = (0..12).collect();
    let grid = level(4, 3, height, vec![0; 12]);
    for y in 0..3 {
        for x in 0..4 {
            let here = grid.get((x, y));
            assert_eq!(here, Texel::Single(Point((y * 4 + x) as u8, 0)));
            assert_eq!(grid.get((x + 4, y)), here);
            assert_eq!(grid.get((x - 4, y)), here);
            assert_eq!(grid.get((x, y + 3)), here);
            assert_eq!(grid.get((x, y - 3)), here);
            assert_eq!(grid.get((x - 400, y - 300)), here);
        }
    }
    assert_eq!(grid.get((-1, -1)), Texel::Single(Point(11, 0)));
    assert_eq!(grid.get((-5, 0)), Texel::Single(Point(3, 0)));
    assert_eq!(grid.get((i32::MIN, i32::MIN)), Texel::Single(Point(4, 0)));
    assert_eq!(grid.get((i32::MAX, i32::MAX)), Texel::Single(Point(7, 0)));
}

#[test]
fn test_top_is_the_upper_height() {
    assert_eq!(Texel::Single(Point(42, 3)).top(), 42);
    assert_eq!(Texel::Dual { low: Point(10, 1), high: Point(200, 2), delta: 8 }.top(), 200);
}

#[test]
fn test_export_of_single_and_dual_texels() {
    let grid = level(
        2,
        2,
        vec![10, 20, 30, 40],
        vec![0b0001_1000, 0b0010_1000, 0b0100_1011, 0b0101_0001],
    );
    assert_eq!(
        grid.export(),
        vec![
            10, 10, 0, 3 << 4, //
            20, 20, 0, 5 << 4, //
            30, 40, (3 << 5) | (1 << 3), 1 | (2 << 4), //
            30, 40, (3 << 5) | (1 << 3), 1 | (2 << 4),
        ]
    );
}

#[test]
fn test_single_cell_level() {
    let grid = level(1, 1, vec![77], vec![0b0000_1000]);
    assert_eq!(grid.get((0, 0)), Texel::Single(Point(77, 1)));
    assert_eq!(grid.get((-3, 9)), Texel::Single(Point(77, 1)));
    assert_eq!(grid.export(), vec![77, 77, 0, 16]);
}

#[test]
fn test_validity_of_a_level() {
    assert!(Level::new_test().is_valid());
    assert!(level(2, 2, vec![0; 4], vec![0; 4]).is_valid());
    assert!(!level(2, 2, vec![0; 3], vec![0; 4]).is_valid());
    assert!(!level(2, 2, vec![0; 4], vec![0; 5]).is_valid());
    assert!(!level(0, 2, vec![], vec![]).is_valid());
    assert!(!level(2, -2, vec![], vec![]).is_valid());
    assert!(level(3, 1, vec![0; 3], vec![0x40, 0x40, 0]).is_valid());
    assert!(!level(3, 1, vec![0; 3], vec![0, 0, 0x40]).is_valid());
}
