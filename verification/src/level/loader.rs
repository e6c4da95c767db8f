//! Loading a level from the bytes of its files.
//!
//! The flood file ends with the flood map. The grid file starts with a table
//! of one entry of six bytes for each row, the offset of the row's
//! compressed bytes and their size; the tables of the decompressor follow,
//! and then the rows. The rows are expanded in groups of 64, each group on
//! its own: what expands them is not part of this library, which says what
//! to expand in which order and puts the rows together.

use vstd::prelude::*;

use crate::bytes::{i16_at, i32_at, le_i16, le_i32, le_u32, u32_at};
use crate::error::DecodeError;
use crate::level::config::LevelConfig;
use crate::level::grid::{is_dual, Level, DOUBLE_LEVEL};
use crate::level::palette::{is_palette_of, read_palette};

verus! {

/// The number of rows that are expanded as one group.
pub const GROUP_ROWS: usize = 64;

/// Where the flood map stands in the flood file.
#[derive(Clone, Copy, Debug, PartialEq, Eq)]
pub struct FloodLayout {
    /// The offset of the first entry.
    pub offset: u64,
    /// The number of entries.
    pub entries: u64,
}

/// Computes where the flood map stands in the flood file of a level.
pub fn flood_layout(config: &LevelConfig) -> (r: Result<FloodLayout, DecodeError>)
    ensures
        r is Ok <==> config.is_supported(),
        r is Err ==> r == Err::<FloodLayout, DecodeError>(DecodeError::UnsupportedLayout),
        r matches Ok(layout) ==> layout.offset == config.flood_offset() && layout.entries
            == config.flood_size() && layout.offset + 4 * layout.entries < 0x8000_0000_0000_0000,
{
    if !config.check() {
        return Err(DecodeError::UnsupportedLayout);
    }
    let w: u64 = config.size.0.as_value() as u64;
    let h: u64 = config.size.1.as_value() as u64;
    let g: u64 = config.geo.as_value() as u64;
    let s: u64 = config.section.as_value() as u64;
    let geo: u64 = config.geo.as_power() as u64;
    assert(w * h <= 0x4000_0000 * 0x4000_0000) by (nonlinear_arith)
        requires
            w <= 0x4000_0000,
            h <= 0x4000_0000,
    ;
    assert(0 < g * g <= 0x4000_0000 * 0x4000_0000) by (nonlinear_arith)
        requires
            0 < g <= 0x4000_0000,
    ;
    let flood: u64 = h / s;
    let net: u64 = (w * h) / (g * g);
    proof {
        vstd::arithmetic::div_mod::lemma_div_is_ordered_by_denominator(h as int, 1, s as int);
        vstd::arithmetic::div_mod::lemma_div_is_ordered_by_denominator(
            (w * h) as int,
            1,
            (g * g) as int,
        );
        assert(flood * geo <= 0x4000_0000 * 30) by (nonlinear_arith)
            requires
                flood <= 0x4000_0000,
                geo <= 30,
        ;
        assert(2 * config.flood_size() * config.geo.0 * 4 == 8 * (flood * geo))
            by (nonlinear_arith)
            requires
                config.flood_size() == flood,
                config.geo.0 == geo,
        ;
    }
    let offset: u64 = 44 + 2 * net + 8 * geo + 8 * (flood * geo);
    Ok(FloodLayout { offset, entries: flood })
}

/// Whether `values` is the flood map that the flood file `vpr` ends with.
pub open spec fn is_flood_map_of(values: Seq<u32>, config: LevelConfig, vpr: Seq<u8>) -> bool {
    &&& values.len() == config.flood_size()
    &&& forall|i: int|
        0 <= i < values.len() ==> #[trigger] values[i] == le_u32(
            vpr,
            config.flood_offset() + 4 * i,
        )
}

/// Reads the flood map from the bytes of the flood file. The file must have
/// exactly the length that the level's description gives it.
pub fn read_flood_map(config: &LevelConfig, vpr: &[u8]) -> (r: Result<Vec<u32>, DecodeError>)
    ensures
        r is Ok <==> config.is_supported() && vpr@.len() == config.flood_file_len(),
        !config.is_supported() ==> r == Err::<Vec<u32>, DecodeError>(
            DecodeError::UnsupportedLayout,
        ),
        config.is_supported() && vpr@.len() != config.flood_file_len() ==> r == Err::<
            Vec<u32>,
            DecodeError,
        >(DecodeError::IntegrityMismatch),
        r matches Ok(values) ==> is_flood_map_of(values@, *config, vpr@),
{
    let layout = match flood_layout(config) {
        Ok(layout) => layout,
        Err(e) => {
            return Err(e);
        },
    };
    let len: usize = vpr.len();
    if len as u64 != layout.offset + 4 * layout.entries {
        return Err(DecodeError::IntegrityMismatch);
    }
    let start: usize = layout.offset as usize;
    let count: usize = layout.entries as usize;
    let mut values: Vec<u32> = Vec::new();
    let mut i: usize = 0;
    while i < count
        invariant
            i <= count,
            start + 4 * count == len,
            len == vpr@.len(),
            start == config.flood_offset(),
            values@.len() == i,
            forall|k: int|
                0 <= k < i ==> #[trigger] values@[k] == le_u32(vpr@, config.flood_offset() + 4 * k),
        decreases count - i,
    {
        values.push(u32_at(vpr, start + 4 * i));
        i = i + 1;
    }
    Ok(values)
}

/// The table at the head of the grid file: for each row the offset of its
/// compressed bytes and their size.
#[derive(Debug)]
pub struct RowTables {
    pub starts: Vec<i32>,
    pub sizes: Vec<i16>,
}

impl RowTables {
    /// Whether this is the table of `rows` rows that `vmc` starts with.
    pub open spec fn is_read_from(&self, vmc: Seq<u8>, rows: int) -> bool {
        &&& self.starts@.len() == rows
        &&& self.sizes@.len() == rows
        &&& forall|i: int| 0 <= i < rows ==> #[trigger] self.starts@[i] == le_i32(vmc, 6 * i)
        &&& forall|i: int| 0 <= i < rows ==> #[trigger] self.sizes@[i] == le_i16(vmc, 6 * i + 4)
    }
}

/// Reads the table of `rows` rows from the head of the grid file. The
/// tables of the decompressor start where it ends, at `6 * rows`.
pub fn read_row_tables(vmc: &[u8], rows: usize) -> (r: Result<RowTables, DecodeError>)
    ensures
        r is Ok <==> 6 * rows <= vmc@.len(),
        r is Err ==> r == Err::<RowTables, DecodeError>(DecodeError::TruncatedStream),
        r matches Ok(tables) ==> tables.is_read_from(vmc@, rows as int),
{
    let len: usize = vmc.len();
    if rows > len / 6 {
        return Err(DecodeError::TruncatedStream);
    }
    let mut starts: Vec<i32> = Vec::new();
    let mut sizes: Vec<i16> = Vec::new();
    let mut i: usize = 0;
    while i < rows
        invariant
            i <= rows,
            6 * rows <= len,
            len == vmc@.len(),
            starts@.len() == i,
            sizes@.len() == i,
            forall|k: int| 0 <= k < i ==> #[trigger] starts@[k] == le_i32(vmc@, 6 * k),
            forall|k: int| 0 <= k < i ==> #[trigger] sizes@[k] == le_i16(vmc@, 6 * k + 4),
        decreases rows - i,
    {
        starts.push(i32_at(vmc, 6 * i));
        sizes.push(i16_at(vmc, 6 * i + 4));
        i = i + 1;
    }
    Ok(RowTables { starts, sizes })
}

/// The number of groups that `rows` rows fall into.
pub open spec fn group_count(rows: int) -> int {
    (rows + 63) / 64
}

/// The first row of group `g`.
pub open spec fn group_first(g: int) -> int {
    64 * g
}

/// The row after the last of group `g` of `rows` rows: every group but the
/// last has 64.
pub open spec fn group_end(rows: int, g: int) -> int {
    if 64 * g + 64 <= rows {
        64 * g + 64
    } else {
        rows
    }
}

/// The groups part the rows: each row lies in one group and no other, the
/// group whose number is a 64th of the row's.
pub proof fn lemma_groups_part_the_rows(rows: int, row: int)
    requires
        0 <= row < rows,
    ensures
        0 <= row / 64 < group_count(rows),
        group_first(row / 64) <= row < group_end(rows, row / 64),
        forall|g: int|
            0 <= g < group_count(rows) && group_first(g) <= row < #[trigger] group_end(rows, g)
                ==> g == row / 64,
{
}

/// The groups follow each other without a gap: each ends where the next
/// starts, and the last ends with the rows.
pub proof fn lemma_groups_are_adjacent(rows: int, g: int)
    requires
        0 <= g < group_count(rows),
    ensures
        group_first(g) < group_end(rows, g) <= rows,
        g + 1 < group_count(rows) ==> group_end(rows, g) == group_first(g + 1),
        g + 1 == group_count(rows) ==> group_end(rows, g) == rows,
{
}

/// The number of groups that `rows` rows fall into.
pub fn count_groups(rows: usize) -> (n: usize)
    ensures
        n == group_count(rows as int),
{
    let n: usize = rows / GROUP_ROWS + if rows % GROUP_ROWS != 0 {
        1
    } else {
        0
    };
    n
}

/// The rows of group `g`: the first and the one after the last.
pub fn group_rows(rows: usize, g: usize) -> (r: (usize, usize))
    requires
        g < group_count(rows as int),
    ensures
        r.0 == group_first(g as int),
        r.1 == group_end(rows as int, g as int),
        r.0 < r.1 <= rows,
        r.1 - r.0 <= 64,
{
    let first: usize = g * GROUP_ROWS;
    let end: usize = if rows - first >= GROUP_ROWS {
        first + GROUP_ROWS
    } else {
        rows
    };
    (first, end)
}

/// What is to be done next for a group of rows.
#[derive(Clone, Copy, Debug, PartialEq, Eq, Structural)]
pub enum Action {
    /// Go to `offset` in the grid file and expand the `width` heights of
    /// `row` with the first of the decompressor's two expansions.
    ExpandHeight { row: usize, offset: u64, width: usize },
    /// Go on where the heights of `row` ended and expand its `width` meta
    /// bytes with the second expansion.
    ExpandMeta { row: usize, width: usize },
    /// Every row of the group is there.
    Finished,
}

/// The state of one group of rows while it is expanded. It says what to
/// expand next and takes the bytes that came out: for each row the heights
/// first, then the meta bytes. A group reads the grid file on its own, so
/// groups can be expanded side by side.
#[derive(Debug)]
pub struct GroupDecoder {
    offsets: Vec<u64>,
    first: usize,
    width: usize,
    done: usize,
    meta_next: bool,
    height: Vec<u8>,
    meta: Vec<u8>,
}

impl GroupDecoder {
    #[verifier::type_invariant]
    spec fn inv(&self) -> bool {
        &&& self.done <= self.offsets@.len()
        &&& self.first + self.offsets@.len() <= usize::MAX
        &&& (self.meta_next ==> self.done < self.offsets@.len())
        &&& self.meta@.len() == self.width * self.done
        &&& self.height@.len() == self.meta@.len() + if self.meta_next {
            self.width as int
        } else {
            0
        }
    }

    /// The offsets of the rows of the group in the grid file.
    pub closed spec fn offsets(&self) -> Seq<u64> {
        self.offsets@
    }

    /// The first row of the group.
    pub closed spec fn first_row(&self) -> int {
        self.first as int
    }

    /// The number of cells of a row.
    pub closed spec fn row_width(&self) -> int {
        self.width as int
    }

    /// The number of rows whose heights and meta bytes are both there.
    pub closed spec fn rows_done(&self) -> int {
        self.done as int
    }

    /// Whether the heights of a row are there and its meta bytes are not.
    pub closed spec fn awaits_meta(&self) -> bool {
        self.meta_next
    }

    /// The heights that are there, row after row.
    pub closed spec fn heights(&self) -> Seq<u8> {
        self.height@
    }

    /// The meta bytes that are there, row after row.
    pub closed spec fn metas(&self) -> Seq<u8> {
        self.meta@
    }

    /// What is to be done next.
    pub open spec fn next(&self) -> Action {
        if self.awaits_meta() {
            Action::ExpandMeta {
                row: (self.first_row() + self.rows_done()) as usize,
                width: self.row_width() as usize,
            }
        } else if self.rows_done() < self.offsets().len() {
            Action::ExpandHeight {
                row: (self.first_row() + self.rows_done()) as usize,
                offset: self.offsets()[self.rows_done()],
                width: self.row_width() as usize,
            }
        } else {
            Action::Finished
        }
    }

    /// Whether nothing was expanded yet for group `group` of the rows whose
    /// offsets are `starts`.
    pub open spec fn is_start_of(&self, starts: Seq<i32>, group: int, width: int) -> bool {
        &&& self.first_row() == group_first(group)
        &&& self.row_width() == width
        &&& self.rows_done() == 0
        &&& !self.awaits_meta()
        &&& self.heights().len() == 0
        &&& self.metas().len() == 0
        &&& self.offsets().len() == group_end(starts.len() as int, group) - group_first(group)
        &&& forall|i: int|
            0 <= i < self.offsets().len() ==> #[trigger] self.offsets()[i] == starts[group_first(
                group,
            ) + i]
    }

    /// Prepares the expansion of group `group`. A group that the rows do not
    /// have, or a row of it with an offset below zero, is refused.
    pub fn new(starts: &[i32], group: usize, width: usize) -> (r: Result<Self, DecodeError>)
        ensures
            r is Ok <==> group < group_count(starts@.len() as int) && (forall|row: int|
                group_first(group as int) <= row < group_end(starts@.len() as int, group as int)
                    ==> #[trigger] starts@[row] >= 0),
            r is Err ==> r == Err::<Self, DecodeError>(DecodeError::IntegrityMismatch),
            r matches Ok(decoder) ==> decoder.is_start_of(starts@, group as int, width as int),
    {
        let rows: usize = starts.len();
        if group >= count_groups(rows) {
            return Err(DecodeError::IntegrityMismatch);
        }
        let (first, end) = group_rows(rows, group);
        let mut offsets: Vec<u64> = Vec::new();
        let mut row: usize = first;
        while row < end
            invariant
                first <= row <= end <= rows,
                rows == starts@.len(),
                group < group_count(rows as int),
                first == group_first(group as int),
                end == group_end(rows as int, group as int),
                offsets@.len() == row - first,
                forall|i: int| 0 <= i < row - first ==> #[trigger] offsets@[i] == starts@[first + i],
                forall|k: int| first <= k < row ==> #[trigger] starts@[k] >= 0,
            decreases end - row,
        {
            let start: i32 = starts[row];
            if start < 0 {
                assert(!(starts@[row as int] >= 0));
                return Err(DecodeError::IntegrityMismatch);
            }
            offsets.push(start as u64);
            row = row + 1;
        }
        Ok(
            GroupDecoder {
                offsets,
                first,
                width,
                done: 0,
                meta_next: false,
                height: Vec::new(),
                meta: Vec::new(),
            },
        )
    }

    /// What is to be done next.
    pub fn action(&self) -> (a: Action)
        ensures
            a == self.next(),
    {
        proof {
            use_type_invariant(self);
        }
        if self.meta_next {
            Action::ExpandMeta { row: self.first + self.done, width: self.width }
        } else if self.done < self.offsets.len() {
            Action::ExpandHeight {
                row: self.first + self.done,
                offset: self.offsets[self.done],
                width: self.width,
            }
        } else {
            Action::Finished
        }
    }

    /// Takes the bytes that the last action gave and moves on. They must be
    /// as many as a row has cells; if they are not, or nothing was asked
    /// for, the expansion of the group has failed.
    pub fn accept(self, bytes: &[u8]) -> (r: Result<Self, DecodeError>)
        ensures
            r is Ok <==> !(self.next() is Finished) && bytes@.len() == self.row_width(),
            r is Err ==> r == Err::<Self, DecodeError>(DecodeError::IntegrityMismatch),
            r matches Ok(after) ==> {
                &&& after.offsets() == self.offsets()
                &&& after.first_row() == self.first_row()
                &&& after.row_width() == self.row_width()
                &&& if self.awaits_meta() {
                    &&& after.metas() == self.metas() + bytes@
                    &&& after.heights() == self.heights()
                    &&& after.rows_done() == self.rows_done() + 1
                    &&& !after.awaits_meta()
                } else {
                    &&& after.heights() == self.heights() + bytes@
                    &&& after.metas() == self.metas()
                    &&& after.rows_done() == self.rows_done()
                    &&& after.awaits_meta()
                }
            },
    {
        proof {
            use_type_invariant(&self);
        }
        if bytes.len() != self.width {
            return Err(DecodeError::IntegrityMismatch);
        }
        let GroupDecoder { offsets, first, width, done, meta_next, height, meta } = self;
        if meta_next {
            let mut meta = meta;
            append(&mut meta, bytes);
            proof {
                assert(width * (done + 1) == width * done + width) by (nonlinear_arith);
            }
            Ok(GroupDecoder { offsets, first, width, done: done + 1, meta_next: false, height, meta })
        } else if done < offsets.len() {
            let mut height = height;
            append(&mut height, bytes);
            Ok(GroupDecoder { offsets, first, width, done, meta_next: true, height, meta })
        } else {
            Err(DecodeError::IntegrityMismatch)
        }
    }

    /// Hands out the heights and the meta bytes of the group, once every
    /// row is there.
    pub fn finish(self) -> (r: Result<(Vec<u8>, Vec<u8>), DecodeError>)
        ensures
            r is Ok <==> self.next() is Finished,
            r is Err ==> r == Err::<(Vec<u8>, Vec<u8>), DecodeError>(
                DecodeError::IntegrityMismatch,
            ),
            r matches Ok((height, meta)) ==> {
                &&& height@ == self.heights()
                &&& meta@ == self.metas()
                &&& height@.len() == self.row_width() * self.offsets().len()
                &&& meta@.len() == self.row_width() * self.offsets().len()
            },
    {
        proof {
            use_type_invariant(&self);
        }
        if self.meta_next || self.done < self.offsets.len() {
            return Err(DecodeError::IntegrityMismatch);
        }
        Ok((self.height, self.meta))
    }
}

/// Puts `bytes` at the end of `grid`: the rows of one group after those of
/// the groups before it.
pub fn append(grid: &mut Vec<u8>, bytes: &[u8])
    ensures
        final(grid)@ == old(grid)@ + bytes@,
{
    let mut i: usize = 0;
    while i < bytes.len()
        invariant
            i <= bytes@.len(),
            grid@ == old(grid)@ + bytes@.subrange(0, i as int),
        decreases bytes@.len() - i,
    {
        grid.push(bytes[i]);
        proof {
            assert(grid@ =~= old(grid)@ + bytes@.subrange(0, i + 1));
        }
        i = i + 1;
    }
    proof {
        assert(bytes@.subrange(0, bytes@.len() as int) =~= bytes@);
    }
}

/// Why a level cannot be put together from its parts, if anything is wrong:
/// the description asks for what is not supported, the flood file has not
/// the length that the description gives it, the grid has not the size
/// that the description states or ends within a double level, or the
/// palette is too short. The first of these that holds is reported.
pub open spec fn load_fault(
    config: LevelConfig,
    vpr_len: int,
    height: Seq<u8>,
    meta: Seq<u8>,
    palette_len: int,
) -> Option<DecodeError> {
    if !config.is_supported() {
        Some(DecodeError::UnsupportedLayout)
    } else if vpr_len != config.flood_file_len() {
        Some(DecodeError::IntegrityMismatch)
    } else if height.len() != config.width() * config.rows() || meta.len() != config.width()
        * config.rows() {
        Some(DecodeError::IntegrityMismatch)
    } else if meta.len() % 2 == 1 && is_dual(meta[meta.len() - 1]) {
        Some(DecodeError::IntegrityMismatch)
    } else if palette_len < 768 {
        Some(DecodeError::TruncatedStream)
    } else {
        None
    }
}

/// Puts a level together: the flood map from the bytes of the flood file,
/// the expanded heights and meta bytes of the grid, and the palette from
/// the bytes of the palette file, corrected for the level's terrains.
pub fn load(config: &LevelConfig, vpr: &[u8], height: Vec<u8>, meta: Vec<u8>, palette: &[u8]) -> (r:
    Result<Level, DecodeError>)
    ensures
        match r {
            Ok(level) => {
                &&& load_fault(*config, vpr@.len() as int, height@, meta@, palette@.len() as int)
                    is None
                &&& level.wf()
                &&& level.width() == config.width()
                &&& level.rows() == config.rows()
                &&& is_flood_map_of(level.flood_map@, *config, vpr@)
                &&& level.height@ == height@
                &&& level.meta@ == meta@
                &&& is_palette_of(level.palette, palette@, Some(config.terrains@))
                &&& level.terrains == config.terrains
            },
            Err(e) => load_fault(
                *config,
                vpr@.len() as int,
                height@,
                meta@,
                palette@.len() as int,
            ) == Some(e),
        },
{
    let flood_map = match read_flood_map(config, vpr) {
        Ok(values) => values,
        Err(e) => {
            return Err(e);
        },
    };
    let w: i32 = config.size.0.as_value();
    let h: i32 = config.size.1.as_value();
    assert(0 < w * h <= 0x4000_0000 * 0x4000_0000) by (nonlinear_arith)
        requires
            0 < w <= 0x4000_0000,
            0 < h <= 0x4000_0000,
    ;
    let total: u64 = (w as u64) * (h as u64);
    if height.len() as u64 != total || meta.len() as u64 != total {
        return Err(DecodeError::IntegrityMismatch);
    }
    let cells: usize = meta.len();
    if cells % 2 == 1 && meta[cells - 1] & DOUBLE_LEVEL != 0 {
        return Err(DecodeError::IntegrityMismatch);
    }
    let colors = match read_palette(palette, Some(config.terrains.as_slice())) {
        Ok(colors) => colors,
        Err(e) => {
            return Err(e);
        },
    };
    Ok(Level { size: (w, h), flood_map, height, meta, palette: colors, terrains: config.terrains })
}

} // verus!
