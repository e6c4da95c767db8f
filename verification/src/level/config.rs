//! What a level's description says of its layout.

use vstd::arithmetic::power2::pow2;
use vstd::prelude::*;

verus! {

/// The number of terrain kinds of a level.
pub const NUM_TERRAINS: usize = 8;

/// A size given by its binary logarithm.
#[derive(Clone, Copy, Debug, PartialEq, Eq)]
pub struct Power(pub i32);

impl Power {
    /// Whether the size fits a signed 32-bit number.
    pub open spec fn is_valid(&self) -> bool {
        0 <= self.0 < 31
    }

    /// The size.
    pub open spec fn value(&self) -> int {
        pow2(self.0 as nat) as int
    }

    /// Whether the size fits a signed 32-bit number.
    pub fn check(&self) -> (ok: bool)
        ensures
            ok == self.is_valid(),
    {
        0 <= self.0 && self.0 < 31
    }

    /// The size.
    pub fn as_value(&self) -> (v: i32)
        requires
            self.is_valid(),
        ensures
            v == self.value(),
            0 < v <= 0x4000_0000,
    {
        let mut v: i32 = 1;
        let mut i: i32 = 0;
        proof {
            vstd::arithmetic::power2::lemma2_to64();
        }
        while i < self.0
            invariant
                0 <= i <= self.0 < 31,
                v == pow2(i as nat),
                0 < v <= 0x4000_0000,
                pow2(30) == 0x4000_0000,
            decreases self.0 - i,
        {
            proof {
                vstd::arithmetic::power2::lemma_pow2_unfold((i + 1) as nat);
                if i + 1 < 30 {
                    vstd::arithmetic::power2::lemma_pow2_strictly_increases((i + 1) as nat, 30);
                }
            }
            v = v * 2;
            i = i + 1;
        }
        v
    }

    /// The binary logarithm of the size.
    pub fn as_power(&self) -> (p: i32)
        ensures
            p == self.0,
    {
        self.0
    }
}

/// A run of palette entries: from `start` up to `end`.
#[derive(Clone, Copy, Debug, PartialEq, Eq)]
pub struct ColorRange {
    pub start: u8,
    pub end: u8,
}

/// What a level's description says of one terrain kind.
#[derive(Clone, Copy, Debug, PartialEq, Eq)]
pub struct TerrainConfig {
    pub shadow_offset: u8,
    pub height_shift: u8,
    /// The entries of the palette that the terrain uses.
    pub colors: ColorRange,
}

/// What a level's description says of its layout. The files that hold the
/// level are no part of it: the decoders take their bytes.
#[derive(Clone, Copy, Debug, PartialEq, Eq)]
pub struct LevelConfig {
    /// Whether the grid is stored compressed. Only that is supported.
    pub is_compressed: bool,
    /// The width and the height of the grid.
    pub size: (Power, Power),
    pub geo: Power,
    /// The height of one section: each has one entry in the flood map.
    pub section: Power,
    pub terrains: [TerrainConfig; 8],
}

impl LevelConfig {
    /// Whether the level can be loaded: it is stored compressed and each of
    /// its sizes fits a signed 32-bit number.
    pub open spec fn is_supported(&self) -> bool {
        &&& self.is_compressed
        &&& self.size.0.is_valid()
        &&& self.size.1.is_valid()
        &&& self.geo.is_valid()
        &&& self.section.is_valid()
    }

    /// The number of columns of the grid.
    pub open spec fn width(&self) -> int {
        self.size.0.value()
    }

    /// The number of rows of the grid.
    pub open spec fn rows(&self) -> int {
        self.size.1.value()
    }

    /// The number of entries of the flood map: one for each section.
    pub open spec fn flood_size(&self) -> int {
        self.rows() / self.section.value()
    }

    /// The number of cells of the coarse net that the flood file holds.
    pub open spec fn net_size(&self) -> int {
        (self.width() * self.rows()) / (self.geo.value() * self.geo.value())
    }

    /// Where the flood map starts in the flood file: after two words, nine
    /// more, two bytes for each cell of the net, and for each step of `geo`
    /// two words and two more for each section.
    pub open spec fn flood_offset(&self) -> int {
        2 * 4 + (1 + 4 + 4) * 4 + 2 * self.net_size() + 2 * self.geo.0 * 4 + 2 * self.flood_size()
            * self.geo.0 * 4
    }

    /// The length that the flood file must have.
    pub open spec fn flood_file_len(&self) -> int {
        self.flood_offset() + 4 * self.flood_size()
    }

    /// Whether the level can be loaded.
    pub fn check(&self) -> (ok: bool)
        ensures
            ok == self.is_supported(),
    {
        self.is_compressed && self.size.0.check() && self.size.1.check() && self.geo.check()
            && self.section.check()
    }
}

} // verus!
