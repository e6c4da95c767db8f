//! The grid of a level and its texels.
//!
//! Each cell has a height and a meta byte. Bits 3 to 5 of the meta byte are
//! the terrain kind. Bit 6 marks a cell of a double level: such a cell and
//! its horizontal neighbour, the cells at an even index and the next odd
//! one, make one texel with two heights.

use vstd::arithmetic::div_mod::{
    lemma_fundamental_div_mod_converse, lemma_mod_add_multiples_vanish, lemma_mod_bound,
};
use vstd::prelude::*;

use crate::level::config::{ColorRange, TerrainConfig};

verus! {

pub type TerrainType = u8;

pub type Altitude = u8;

pub type Delta = Altitude;

/// The greatest height of a cell.
pub const HEIGHT_SCALE: u32 = 255;

/// The bit of a meta byte that marks a cell of a double level.
pub const DOUBLE_LEVEL: u8 = 0x40;

/// A level: the grid, the flood map, the palette and the terrain kinds.
#[derive(Debug)]
pub struct Level {
    /// The width and the height of the grid.
    pub size: (i32, i32),
    /// One water level for each section of the grid.
    pub flood_map: Vec<u32>,
    /// The heights, row by row.
    pub height: Vec<u8>,
    /// The meta bytes, row by row.
    pub meta: Vec<u8>,
    pub palette: [[u8; 4]; 256],
    pub terrains: [TerrainConfig; 8],
}

/// A height and the terrain kind at it.
#[derive(Clone, Copy, Debug, PartialEq, Eq, Structural)]
pub struct Point(pub Altitude, pub TerrainType);

/// One cell of the terrain: a single level, or two levels with the gap
/// between them.
#[derive(Clone, Copy, Debug, PartialEq, Eq, Structural)]
pub enum Texel {
    Single(Point),
    Dual { low: Point, high: Point, delta: Delta },
}

impl Texel {
    /// The height of the upper level.
    pub open spec fn spec_top(&self) -> Altitude {
        match *self {
            Texel::Single(p) => p.0,
            Texel::Dual { high, .. } => high.0,
        }
    }

    /// The height of the upper level.
    pub fn top(&self) -> (a: Altitude)
        ensures
            a == self.spec_top(),
    {
        match *self {
            Texel::Single(ref p) => p.0,
            Texel::Dual { ref high, .. } => high.0,
        }
    }
}

/// The terrain kind that a meta byte holds.
pub open spec fn terrain_of(meta: u8) -> TerrainType {
    (meta >> 3) & 7
}

/// Whether a meta byte marks a cell of a double level.
pub open spec fn is_dual(meta: u8) -> bool {
    meta & DOUBLE_LEVEL != 0
}

/// The gap of a double level, from the meta bytes of its two cells.
pub open spec fn delta_of(meta_low: u8, meta_high: u8) -> Delta {
    ((meta_low & 3) << 5) | ((meta_high & 3) << 3)
}

/// The fields of a meta byte as numbers: the terrain kind is one of eight,
/// the third to fifth binary digit of the byte, and the mark of a double
/// level is the sixth.
pub proof fn lemma_meta_fields(meta: u8)
    ensures
        terrain_of(meta) < 8,
        terrain_of(meta) == (meta / 8) % 8,
        is_dual(meta) <==> (meta / 64) % 2 == 1,
{
    assert(((meta >> 3) & 7) < 8) by (bit_vector);
    assert(((meta >> 3) & 7) == (meta / 8) % 8) by (bit_vector);
    assert((meta & 0x40 != 0) <==> ((meta / 64) % 2 == 1)) by (bit_vector);
}

/// The gap of a double level as a number: the two low bits of the lower
/// cell's meta byte count 32, those of the upper cell's count 8.
pub proof fn lemma_delta_value(meta_low: u8, meta_high: u8)
    ensures
        delta_of(meta_low, meta_high) == (meta_low % 4) * 32 + (meta_high % 4) * 8,
{
    assert((((meta_low & 3) << 5) | ((meta_high & 3) << 3)) == (meta_low % 4) * 32 + (meta_high
        % 4) * 8) by (bit_vector);
}

/// The index of the lower cell of the pair that cell `i` belongs to.
pub open spec fn low_of(i: int) -> int {
    i - i % 2
}

/// The index of the upper cell of the pair that cell `i` belongs to.
pub open spec fn high_of(i: int) -> int {
    i - i % 2 + 1
}

/// The four bytes that a texel is exported as.
pub open spec fn pixel(t: Texel) -> Seq<u8> {
    match t {
        Texel::Single(p) => seq![p.0, p.0, 0u8, p.1 << 4],
        Texel::Dual { low, high, delta } => seq![low.0, high.0, delta, low.1 | (high.1 << 4)],
    }
}

impl Level {
    /// The number of columns.
    pub open spec fn width(&self) -> int {
        self.size.0 as int
    }

    /// The number of rows.
    pub open spec fn rows(&self) -> int {
        self.size.1 as int
    }

    /// Whether the grid has the size that the level states, and every cell
    /// of a double level has its neighbour.
    pub open spec fn wf(&self) -> bool {
        &&& self.width() > 0
        &&& self.rows() > 0
        &&& self.height@.len() == self.width() * self.rows()
        &&& self.meta@.len() == self.width() * self.rows()
        &&& (self.meta@.len() % 2 == 1 ==> !is_dual(self.meta@[self.meta@.len() - 1]))
    }

    /// Whether the grid has the size that the level states, and every cell
    /// of a double level has its neighbour.
    pub fn is_valid(&self) -> (ok: bool)
        ensures
            ok == self.wf(),
    {
        if self.size.0 <= 0 || self.size.1 <= 0 {
            return false;
        }
        let w: u64 = self.size.0 as u64;
        let h: u64 = self.size.1 as u64;
        assert(w * h <= 0x8000_0000 * 0x8000_0000) by (nonlinear_arith)
            requires
                w <= 0x8000_0000,
                h <= 0x8000_0000,
        ;
        let cells: usize = self.meta.len();
        if self.height.len() as u64 != w * h || cells as u64 != w * h {
            return false;
        }
        !(cells % 2 == 1 && self.meta[cells - 1] & DOUBLE_LEVEL != 0)
    }

    /// The index of the cell at `(x, y)`. The grid wraps around in both
    /// directions, so every pair of numbers names a cell.
    pub open spec fn index_of(&self, x: int, y: int) -> int {
        (y % self.rows()) * self.width() + (x % self.width())
    }

    /// The texel of the cell with index `i`.
    pub open spec fn texel_at(&self, i: int) -> Texel {
        if is_dual(self.meta@[i]) {
            Texel::Dual {
                low: Point(self.height@[low_of(i)], terrain_of(self.meta@[low_of(i)])),
                high: Point(self.height@[high_of(i)], terrain_of(self.meta@[high_of(i)])),
                delta: delta_of(self.meta@[low_of(i)], self.meta@[high_of(i)]),
            }
        } else {
            Texel::Single(Point(self.height@[i], terrain_of(self.meta@[i])))
        }
    }

    /// The texel at `(x, y)`.
    pub open spec fn texel(&self, x: int, y: int) -> Texel {
        self.texel_at(self.index_of(x, y))
    }

    /// Every pair of coordinates names a cell of the grid.
    pub proof fn lemma_index_in_grid(&self, x: int, y: int)
        requires
            self.wf(),
        ensures
            0 <= self.index_of(x, y) < self.height@.len(),
            0 <= x % self.width() < self.width(),
            0 <= y % self.rows() < self.rows(),
    {
        let w = self.width();
        let h = self.rows();
        lemma_mod_bound(x, w);
        lemma_mod_bound(y, h);
        let r = y % h;
        assert(r * w + w <= h * w) by (nonlinear_arith)
            requires
                0 <= r < h,
                w > 0,
        ;
        assert(0 <= r * w) by (nonlinear_arith)
            requires
                0 <= r,
                w > 0,
        ;
        assert(h * w == w * h) by (nonlinear_arith);
    }

    /// The grid is a torus: a step of the whole width, or of the whole
    /// height, in either direction, leads to the same texel.
    pub proof fn lemma_texel_periodic(&self, x: int, y: int)
        requires
            self.wf(),
        ensures
            self.texel(x + self.width(), y) == self.texel(x, y),
            self.texel(x - self.width(), y) == self.texel(x, y),
            self.texel(x, y + self.rows()) == self.texel(x, y),
            self.texel(x, y - self.rows()) == self.texel(x, y),
    {
        let w = self.width();
        let h = self.rows();
        lemma_mod_add_multiples_vanish(x, w);
        lemma_mod_add_multiples_vanish(x - w, w);
        lemma_mod_add_multiples_vanish(y, h);
        lemma_mod_add_multiples_vanish(y - h, h);
        assert(w + x == x + w);
        assert(w + (x - w) == x);
        assert(h + y == y + h);
        assert(h + (y - h) == y);
    }

    /// A level of two cells in one row, all of whose bytes are zero but
    /// those of the palette, which are `0xFF`.
    pub fn new_test() -> (level: Level)
        ensures
            level.wf(),
            level.size == (2i32, 1i32),
            level.flood_map@ == seq![0u32],
            level.height@ == seq![0u8, 0u8],
            level.meta@ == seq![0u8, 0u8],
            forall|i: int, j: int| 0 <= i < 256 && 0 <= j < 4 ==> level.palette[i][j] == 0xFF,
            forall|i: int|
                0 <= i < 8 ==> level.terrains[i] == (TerrainConfig {
                    shadow_offset: 0,
                    height_shift: 0,
                    colors: ColorRange { start: 0, end: 1 },
                }),
    {
        let tc = TerrainConfig {
            shadow_offset: 0,
            height_shift: 0,
            colors: ColorRange { start: 0, end: 1 },
        };
        let level = Level {
            size: (2, 1),
            flood_map: vec![0u32],
            height: vec![0u8, 0u8],
            meta: vec![0u8, 0u8],
            palette: [[0xFFu8; 4]; 256],
            terrains: [tc; 8],
        };
        assert(!is_dual(0u8)) by (bit_vector);
        level
    }

    /// The remainder of `c` by `n` that is never negative: for a `c` below
    /// zero, what adding `n` until it is no more below zero gives.
    fn wrap(c: i32, n: i32) -> (r: usize)
        requires
            n > 0,
        ensures
            r == (c as int) % (n as int),
            r < n,
    {
        if c >= 0 {
            (c % n) as usize
        } else {
            let back: i32 = (-(c + 1)) % n;
            proof {
                let q = (-(c + 1)) as int / (n as int);
                vstd::arithmetic::div_mod::lemma_fundamental_div_mod(-(c + 1) as int, n as int);
                assert(n * q == q * n) by (nonlinear_arith);
                assert((-q - 1) * n == -(q * n) - n) by (nonlinear_arith);
                lemma_fundamental_div_mod_converse(
                    c as int,
                    n as int,
                    -q - 1,
                    (n - 1 - back) as int,
                );
            }
            (n - 1 - back) as usize
        }
    }

    /// The texel at `coord`. The grid wraps around: a coordinate below zero,
    /// or past the size, names the cell that many steps round the torus,
    /// however far below zero it is.
    pub fn get(&self, coord: (i32, i32)) -> (t: Texel)
        requires
            self.wf(),
        ensures
            t == self.texel(coord.0 as int, coord.1 as int),
    {
        proof {
            self.lemma_index_in_grid(coord.0 as int, coord.1 as int);
        }
        let x: usize = Self::wrap(coord.0, self.size.0);
        let y: usize = Self::wrap(coord.1, self.size.1);
        let w: usize = self.size.0 as usize;
        let n: usize = self.height.len();
        assert(y * w + x == self.index_of(coord.0 as int, coord.1 as int));
        assert(0 <= y * w) by (nonlinear_arith)
            requires
                0 <= y,
                0 <= w,
        ;
        let i: usize = y * w + x;
        self.texel_of(i)
    }

    /// Within the grid, the cell at `(x, y)` is cell number `y * width + x`.
    pub proof fn lemma_index_of_cell(&self, x: int, y: int)
        requires
            self.wf(),
            0 <= x < self.width(),
            0 <= y < self.rows(),
        ensures
            self.index_of(x, y) == y * self.width() + x,
    {
        vstd::arithmetic::div_mod::lemma_small_mod(x as nat, self.width() as nat);
        vstd::arithmetic::div_mod::lemma_small_mod(y as nat, self.rows() as nat);
    }

    /// Whether `data` is the picture of the grid: four bytes for each
    /// cell, row by row.
    pub open spec fn is_exported_as(&self, data: Seq<u8>) -> bool {
        &&& data.len() == 4 * self.height@.len()
        &&& forall|i: int|
            0 <= i < self.height@.len() ==> #[trigger] data.subrange(4 * i, 4 * i + 4) == pixel(
                self.texel_at(i),
            )
    }

    /// In the picture of the grid the four bytes of the cell at `(x, y)`
    /// stand at `4 * (y * width + x)`.
    pub proof fn lemma_export_by_coordinates(&self, data: Seq<u8>, x: int, y: int)
        requires
            self.wf(),
            self.is_exported_as(data),
            0 <= x < self.width(),
            0 <= y < self.rows(),
        ensures
            0 <= y * self.width() + x < self.height@.len(),
            data.subrange(4 * (y * self.width() + x), 4 * (y * self.width() + x) + 4) == pixel(
                self.texel(x, y),
            ),
    {
        self.lemma_index_of_cell(x, y);
        self.lemma_index_in_grid(x, y);
    }

    /// The picture of the grid: for each cell, row by row, the low height,
    /// the high height, the gap, and the two terrain kinds in one byte. A
    /// single level gives its height twice, no gap, and its terrain kind in
    /// the upper half of the last byte.
    pub fn export(&self) -> (data: Vec<u8>)
        requires
            self.wf(),
            4 * self.height@.len() <= usize::MAX,
        ensures
            self.is_exported_as(data@),
    {
        let n: usize = self.height.len();
        let mut data: Vec<u8> = Vec::new();
        let mut i: usize = 0;
        while i < n
            invariant
                self.wf(),
                n == self.height@.len(),
                4 * n <= usize::MAX,
                i <= n,
                data@.len() == 4 * i,
                forall|k: int, j: int|
                    0 <= k < i && 0 <= j < 4 ==> #[trigger] data@[4 * k + j] == pixel(
                        self.texel_at(k),
                    )[j],
            decreases n - i,
        {
            let ghost before = data@;
            match self.texel_of(i) {
                Texel::Single(Point(alt, ty)) => {
                    data.push(alt);
                    data.push(alt);
                    data.push(0);
                    data.push(ty << 4);
                },
                Texel::Dual { low: Point(low_alt, low_ty), high: Point(high_alt, high_ty), delta } => {
                    data.push(low_alt);
                    data.push(high_alt);
                    data.push(delta);
                    data.push(low_ty | (high_ty << 4));
                },
            }
            proof {
                assert forall|k: int, j: int| 0 <= k < i + 1 && 0 <= j < 4 implies #[trigger] data@[4
                    * k + j] == pixel(self.texel_at(k))[j] by {
                    if k < i {
                        assert(data@[4 * k + j] == before[4 * k + j]);
                    }
                }
            }
            i = i + 1;
        }
        proof {
            assert forall|k: int| 0 <= k < n implies #[trigger] data@.subrange(4 * k, 4 * k + 4)
                == pixel(self.texel_at(k)) by {
                let part = data@.subrange(4 * k, 4 * k + 4);
                let want = pixel(self.texel_at(k));
                assert(want.len() == 4);
                assert forall|j: int| 0 <= j < 4 implies part[j] == want[j] by {
                    assert(part[j] == data@[4 * k + j]);
                }
                assert(part =~= want);
            }
        }
        data
    }

    /// The texel of the cell with index `i`.
    fn texel_of(&self, i: usize) -> (t: Texel)
        requires
            self.wf(),
            i < self.meta@.len(),
        ensures
            t == self.texel_at(i as int),
    {
        let meta: u8 = self.meta[i];
        if meta & DOUBLE_LEVEL != 0 {
            let lo: usize = i - i % 2;
            let hi: usize = lo + 1;
            let meta0: u8 = self.meta[lo];
            let meta1: u8 = self.meta[hi];
            Texel::Dual {
                low: Point(self.height[lo], (meta0 >> 3) & 7),
                high: Point(self.height[hi], (meta1 >> 3) & 7),
                delta: ((meta0 & 3) << 5) | ((meta1 & 3) << 3),
            }
        } else {
            Texel::Single(Point(self.height[i], (meta >> 3) & 7))
        }
    }
}

} // verus!
