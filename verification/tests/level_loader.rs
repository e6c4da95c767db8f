use vangers::error::DecodeError;
use vangers::level::config::{ColorRange, LevelConfig, Power, TerrainConfig};
use vangers::level::grid::{Point, Texel};
use vangers::level::loader::{
    append, count_groups, flood_layout, group_rows, load, read_flood_map, read_row_tables, Action,
    FloodLayout, GroupDecoder, GROUP_ROWS,
};

fn terrain(start: u8) -> TerrainConfig {
    TerrainConfig { shadow_offset: 1, height_shift: 2, colors: ColorRange { start, end: start } }
}

fn config(width: i32, rows: i32, geo: i32, section: i32) -> LevelConfig {
    LevelConfig {
        is_compressed: true,
        size: (Power(width), Power(rows)),
        geo: Power(geo),
        section: Power(section),
        terrains: [
            terrain(1),
            terrain(2),
            terrain(3),
            terrain(4),
            terrain(5),
            terrain(6),
            terrain(7),
            terrain(8),
        ],
    }
}

fn small() -> LevelConfig {
    config(1, 2, 1, 1)
}

fn small_flood_file() -> Vec<u8> {
    let mut vpr = vec![0x11; 72];
    vpr.extend_from_slice(&[0x01, 0x02, 0x03, 0x04, 0xFF, 0xFF, 0xFF, 0xFF]);
    vpr
}

fn palette_file() -> Vec<u8> {
    let mut bytes = Vec::new();
    for _ in 0..256 {
        bytes.extend_from_slice(&[10, 20, 30]);
    }
    bytes
}

#[test]
fn test_power_values() {
    assert_eq!(Power(0).as_value(), 1);
    assert_eq!(Power(1).as_value(), 2);
    assert_eq!(Power(11).as_value(), 2048);
    assert_eq!(Power(30).as_value(), 1 << 30);
    assert_eq!(Power(11).as_power(), 11);
    assert!(Power(0).check() && Power(30).check());
    assert!(!Power(31).check() && !Power(-1).check());
}

#[test]
fn test_flood_layout_of_a_large_level() {
    let layout = flood_layout(&config(11, 14, 5, 7)).unwrap();
    assert_eq!(layout, FloodLayout { offset: 70740, entries: 128 });
}

#[test]
fn test_flood_layout_of_a_small_level() {
    assert_eq!(flood_layout(&small()), Ok(FloodLayout { offset: 72, entries: 2 }));
    // A section higher than the level has no entry at all.
    assert_eq!(flood_layout(&config(0, 0, 0, 3)), Ok(FloodLayout { offset: 46, entries: 0 }));
}

#[test]
fn test_unsupported_layouts() {
    let mut loose = small();
    loose.is_compressed = false;
    assert_eq!(flood_layout(&loose), Err(DecodeError::UnsupportedLayout));
    assert_eq!(flood_layout(&config(31, 2, 1, 1)), Err(DecodeError::UnsupportedLayout));
    assert_eq!(flood_layout(&config(1, -1, 1, 1)), Err(DecodeError::UnsupportedLayout));
    assert_eq!(flood_layout(&config(1, 2, 40, 1)), Err(DecodeError::UnsupportedLayout));
    assert_eq!(flood_layout(&config(1, 2, 1, -5)), Err(DecodeError::UnsupportedLayout));
    assert!(small().check());
    assert!(!loose.check());
    assert_eq!(read_flood_map(&loose, &small_flood_file()), Err(DecodeError::UnsupportedLayout));
}

#[test]
fn test_flood_map_is_read_from_the_end_of_the_file() {
    assert_eq!(read_flood_map(&small(), &small_flood_file()), Ok(vec![0x0403_0201, 0xFFFF_FFFF]));
}

#[test]
fn test_flood_file_must_have_its_exact_length() {
    let mut vpr = small_flood_file();
    vpr.push(0);
    assert_eq!(read_flood_map(&small(), &vpr), Err(DecodeError::IntegrityMismatch));
    vpr.truncate(79);
    assert_eq!(read_flood_map(&small(), &vpr), Err(DecodeError::IntegrityMismatch));
    assert_eq!(read_flood_map(&small(), &[]), Err(DecodeError::IntegrityMismatch));
}

#[test]
fn test_row_tables() {
    let vmc: Vec<u8> = vec![
        0x10, 0x20, 0x00, 0x00, 0x05, 0x00, //
        0xFF, 0xFF, 0xFF, 0xFF, 0xFE, 0xFF, //
        0x00, 0x00, 0x00, 0x80, 0x00, 0x80, //
        0x99,
    ];
    let tables = read_row_tables(&vmc, 3).unwrap();
    assert_eq!(tables.starts, vec![0x2010, -1, i32::MIN]);
    assert_eq!(tables.sizes, vec![5, -2, i16::MIN]);
    assert_eq!(read_row_tables(&vmc, 4).err(), Some(DecodeError::TruncatedStream));
    assert_eq!(read_row_tables(&vmc, usize::MAX).err(), Some(DecodeError::TruncatedStream));
    let none = read_row_tables(&[], 0).unwrap();
    assert!(none.starts.is_empty() && none.sizes.is_empty());
}

#[test]
fn test_rows_fall_into_groups_of_sixty_four() {
    assert_eq!(GROUP_ROWS, 64);
    assert_eq!(count_groups(0), 0);
    assert_eq!(count_groups(1), 1);
    assert_eq!(count_groups(64), 1);
    assert_eq!(count_groups(65), 2);
    assert_eq!(count_groups(16384), 256);
    assert_eq!(group_rows(1, 0), (0, 1));
    assert_eq!(group_rows(64, 0), (0, 64));
    assert_eq!(group_rows(130, 0), (0, 64));
    assert_eq!(group_rows(130, 1), (64, 128));
    assert_eq!(group_rows(130, 2), (128, 130));
}

#[test]
fn test_group_is_expanded_heights_first() {
    let starts: Vec<i32> = (0..66).map(|row| 1000 + 10 * row).collect();
    let mut decoder = GroupDecoder::new(&starts, 1, 3).unwrap();
    assert_eq!(decoder.action(), Action::ExpandHeight { row: 64, offset: 1640, width: 3 });
    decoder = decoder.accept(&[1, 2, 3]).unwrap();
    assert_eq!(decoder.action(), Action::ExpandMeta { row: 64, width: 3 });
    decoder = decoder.accept(&[4, 5, 6]).unwrap();
    assert_eq!(decoder.action(), Action::ExpandHeight { row: 65, offset: 1650, width: 3 });
    decoder = decoder.accept(&[7, 8, 9]).unwrap();
    assert_eq!(decoder.action(), Action::ExpandMeta { row: 65, width: 3 });
    decoder = decoder.accept(&[10, 11, 12]).unwrap();
    assert_eq!(decoder.action(), Action::Finished);
    assert_eq!(decoder.finish(), Ok((vec![1, 2, 3, 7, 8, 9], vec![4, 5, 6, 10, 11, 12])));
}

#[test]
fn test_group_refuses_what_it_did_not_ask_for() {
    let starts: Vec<i32> = vec![0, 6];
    let decoder = GroupDecoder::new(&starts, 0, 2).unwrap();
    assert_eq!(decoder.accept(&[1, 2, 3]).err(), Some(DecodeError::IntegrityMismatch));
    let decoder = GroupDecoder::new(&starts, 0, 2).unwrap();
    assert_eq!(decoder.accept(&[1]).err(), Some(DecodeError::IntegrityMismatch));
    let decoder = GroupDecoder::new(&starts, 0, 2).unwrap();
    assert_eq!(decoder.finish().err(), Some(DecodeError::IntegrityMismatch));
    let mut decoder = GroupDecoder::new(&starts, 0, 2).unwrap();
    decoder = decoder.accept(&[1, 2]).unwrap();
    assert_eq!(decoder.finish().err(), Some(DecodeError::IntegrityMismatch));
    let mut decoder = GroupDecoder::new(&starts, 0, 2).unwrap();
    for _ in 0..4 {
        decoder = decoder.accept(&[0, 0]).unwrap();
    }
    assert_eq!(decoder.accept(&[0, 0]).err(), Some(DecodeError::IntegrityMismatch));
}

#[test]
fn test_group_must_exist_and_start_within_the_file() {
    let starts: Vec<i32> = vec![0, 6, -1];
    assert_eq!(GroupDecoder::new(&starts, 0, 2).err(), Some(DecodeError::IntegrityMismatch));
    assert_eq!(GroupDecoder::new(&starts[..2], 1, 2).err(), Some(DecodeError::IntegrityMismatch));
    assert_eq!(GroupDecoder::new(&[], 0, 2).err(), Some(DecodeError::IntegrityMismatch));
    let mut many: Vec<i32> = vec![5; 65];
    many[64] = -3;
    assert!(GroupDecoder::new(&many, 0, 2).is_ok());
    assert_eq!(GroupDecoder::new(&many, 1, 2).err(), Some(DecodeError::IntegrityMismatch));
}

#[test]
fn test_append() {
    let mut grid = vec![1, 2];
    append(&mut grid, &[3, 4, 5]);
    append(&mut grid, &[]);
    assert_eq!(grid, vec![1, 2, 3, 4, 5]);
}

#[test]
fn test_level_is_put_together() {
    let height: Vec<u8> = vec![1, 2, 3, 4, 5, 6, 7, 8];
    let meta: Vec<u8> = vec![0, 0x08, 0x40, 0x41, 0, 0, 0, 0x10];
    let level =
        load(&small(), &small_flood_file(), height.clone(), meta.clone(), &palette_file()).unwrap();
    assert_eq!(level.size, (2, 4));
    assert_eq!(level.flood_map, vec![0x0403_0201, 0xFFFF_FFFF]);
    assert_eq!(level.height, height);
    assert_eq!(level.meta, meta);
    assert_eq!(level.terrains, small().terrains);
    assert_eq!(level.palette[0], [0, 0, 0, 0]);
    assert_eq!(level.palette[1], [20, 40, 60, 0]);
    assert_eq!(level.palette[8], [20, 40, 60, 0]);
    assert_eq!(level.palette[9], [40, 80, 120, 0]);
    assert_eq!(level.palette[230], [96, 96, 96, 0]);
    assert_eq!(level.get((1, 0)), Texel::Single(Point(2, 1)));
    assert_eq!(
        level.get((0, 1)),
        Texel::Dual { low: Point(3, 0), high: Point(4, 0), delta: 1 << 3 }
    );
    assert_eq!(level.get((-1, -1)), Texel::Single(Point(8, 2)));
}

#[test]
fn test_level_faults_in_their_order() {
    let height: Vec<u8> = vec![0; 8];
    let meta: Vec<u8> = vec![0; 8];
    let vpr = small_flood_file();
    let palette = palette_file();
    let mut loose = small();
    loose.is_compressed = false;
    assert_eq!(
        load(&loose, &[], vec![], vec![], &[]).err(),
        Some(DecodeError::UnsupportedLayout)
    );
    assert_eq!(
        load(&small(), &vpr[1..], vec![], vec![], &[]).err(),
        Some(DecodeError::IntegrityMismatch)
    );
    assert_eq!(
        load(&small(), &vpr, vec![0; 7], meta.clone(), &palette).err(),
        Some(DecodeError::IntegrityMismatch)
    );
    assert_eq!(
        load(&small(), &vpr, height.clone(), vec![0; 9], &palette).err(),
        Some(DecodeError::IntegrityMismatch)
    );
    assert_eq!(
        load(&small(), &vpr, height.clone(), meta.clone(), &palette[..767]).err(),
        Some(DecodeError::TruncatedStream)
    );
    assert!(load(&small(), &vpr, height, meta, &palette).is_ok());
}

#[test]
fn test_single_cell_level_cannot_be_a_double_level() {
    let tiny = config(0, 0, 0, 0);
    let mut vpr = vec![0; 46];
    vpr.extend_from_slice(&[7, 0, 0, 0]);
    let level = load(&tiny, &vpr, vec![9], vec![0x08], &palette_file()).unwrap();
    assert_eq!(level.size, (1, 1));
    assert_eq!(level.flood_map, vec![7]);
    assert_eq!(level.get((5, 5)), Texel::Single(Point(9, 1)));
    assert_eq!(
        load(&tiny, &vpr, vec![9], vec![0x40], &palette_file()).err(),
        Some(DecodeError::IntegrityMismatch)
    );
}
