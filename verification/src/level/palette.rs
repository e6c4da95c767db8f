//! The palette of a level: 256 colours of three bytes, corrected for the
//! terrain and scaled.

use vstd::prelude::*;

use crate::error::DecodeError;
use crate::level::config::TerrainConfig;

verus! {

/// The number of bytes that a palette is read from.
pub const PALETTE_BYTES: usize = 768;

/// A colour channel scaled from six bits to eight. The two upper bits are
/// lost.
pub open spec fn scaled(v: u8) -> u8 {
    v << 2
}

/// A colour channel halved `n` times.
pub open spec fn halved(v: u8, n: nat) -> u8
    decreases n,
{
    if n == 0 {
        v
    } else {
        halved(v, (n - 1) as nat) >> 1
    }
}

/// How many of the first `n` terrains start their colours at entry `i`.
pub open spec fn halvings(terrains: Seq<TerrainConfig>, i: int, n: nat) -> nat
    decreases n,
{
    if n == 0 {
        0
    } else {
        halvings(terrains, i, (n - 1) as nat) + if terrains[n - 1].colors.start == i {
            1nat
        } else {
            0nat
        }
    }
}

/// Entry `i` as the input stores it: red, green, blue, and zero for alpha.
pub open spec fn raw_entry(input: Seq<u8>, i: int) -> Seq<u8> {
    seq![input[3 * i], input[3 * i + 1], input[3 * i + 2], 0u8]
}

/// Entry `i` corrected for the terrain. The entries 224 to 239 are a ramp
/// of grays in steps of four; entry 0 is black; any other entry is halved
/// once for each terrain whose colours start at it.
pub open spec fn corrected_entry(input: Seq<u8>, terrains: Seq<TerrainConfig>, i: int) -> Seq<u8> {
    if 224 <= i < 240 {
        let v = ((i - 224) * 4) as u8;
        seq![v, v, v, 0u8]
    } else if i == 0 {
        seq![0u8, 0u8, 0u8, 0u8]
    } else {
        let n = halvings(terrains, i, terrains.len());
        seq![
            halved(input[3 * i], n),
            halved(input[3 * i + 1], n),
            halved(input[3 * i + 2], n),
            0u8,
        ]
    }
}

/// Entry `i` of the palette that is read from `input`: corrected where a
/// terrain is given, then scaled, whether corrected or not.
pub open spec fn palette_entry(input: Seq<u8>, terrains: Option<Seq<TerrainConfig>>, i: int) -> Seq<
    u8,
> {
    let e = match terrains {
        Some(t) => corrected_entry(input, t, i),
        None => raw_entry(input, i),
    };
    seq![scaled(e[0]), scaled(e[1]), scaled(e[2]), e[3]]
}

/// Whether `palette` is what is read from `input`.
pub open spec fn is_palette_of(
    palette: [[u8; 4]; 256],
    input: Seq<u8>,
    terrains: Option<Seq<TerrainConfig>>,
) -> bool {
    forall|i: int| 0 <= i < 256 ==> (#[trigger] palette[i])@ == palette_entry(input, terrains, i)
}

/// Scaling is a multiplication by four that keeps the low eight bits, and
/// halving is a division by two.
pub proof fn lemma_channel_arithmetic(v: u8)
    ensures
        scaled(v) == (v * 4) % 256,
        halved(v, 1) == v / 2,
        halved(0, 1) == 0,
{
    assert(v << 2 == (v * 4) % 256) by (bit_vector);
    assert(v >> 1 == v / 2) by (bit_vector);
    assert(0u8 >> 1 == 0) by (bit_vector);
    reveal_with_fuel(halved, 2);
}

/// In a corrected palette entry 0 is black and the entries 224 to 239 are
/// grays that rise in steps of 16, whatever the input holds there.
pub proof fn lemma_fixed_entries(input: Seq<u8>, terrains: Seq<TerrainConfig>, i: int)
    requires
        i == 0 || 224 <= i < 240,
    ensures
        i == 0 ==> palette_entry(input, Some(terrains), i) == seq![0u8, 0u8, 0u8, 0u8],
        224 <= i < 240 ==> palette_entry(input, Some(terrains), i) == seq![
            (16 * (i - 224)) as u8,
            (16 * (i - 224)) as u8,
            (16 * (i - 224)) as u8,
            0u8,
        ],
{
    if i == 0 {
        assert(0u8 << 2 == 0) by (bit_vector);
    } else {
        let v = ((i - 224) * 4) as u8;
        assert(v <= 60 ==> v << 2 == 4 * v) by (bit_vector);
    }
}

/// The terrains of an optional slice as a sequence.
pub open spec fn terrains_of(config: Option<&[TerrainConfig]>) -> Option<Seq<TerrainConfig>> {
    match config {
        Some(t) => Some(t@),
        None => None,
    }
}

/// Corrects a palette for the terrain.
fn correct(data: &mut [[u8; 4]; 256], terrains: &[TerrainConfig], Ghost(input): Ghost<Seq<u8>>)
    requires
        input.len() >= 768,
        forall|i: int| 0 <= i < 256 ==> (#[trigger] old(data)[i])@ == raw_entry(input, i),
    ensures
        forall|i: int|
            0 <= i < 256 ==> (#[trigger] final(data)[i])@ == corrected_entry(input, terrains@, i),
{
    data[0] = [0, 0, 0, 0];
    let mut k: usize = 0;
    while k < terrains.len()
        invariant
            input.len() >= 768,
            k <= terrains@.len(),
            data[0]@ == seq![0u8, 0u8, 0u8, 0u8],
            forall|i: int|
                0 < i < 256 ==> (#[trigger] data[i])@ == seq![
                    halved(input[3 * i], halvings(terrains@, i, k as nat)),
                    halved(input[3 * i + 1], halvings(terrains@, i, k as nat)),
                    halved(input[3 * i + 2], halvings(terrains@, i, k as nat)),
                    0u8,
                ],
        decreases terrains@.len() - k,
    {
        let at: usize = terrains[k].colors.start as usize;
        let ghost before = *data;
        let mut entry: [u8; 4] = data[at];
        entry[0] = entry[0] >> 1;
        entry[1] = entry[1] >> 1;
        entry[2] = entry[2] >> 1;
        data[at] = entry;
        proof {
            assert(0u8 >> 1 == 0) by (bit_vector);
            assert(data[0]@ =~= seq![0u8, 0u8, 0u8, 0u8]);
            assert forall|i: int| 0 < i < 256 implies (#[trigger] data[i])@ == seq![
                halved(input[3 * i], halvings(terrains@, i, (k + 1) as nat)),
                halved(input[3 * i + 1], halvings(terrains@, i, (k + 1) as nat)),
                halved(input[3 * i + 2], halvings(terrains@, i, (k + 1) as nat)),
                0u8,
            ] by {
                if i == at {
                    assert(data[i]@ =~= seq![
                        halved(input[3 * i], halvings(terrains@, i, (k + 1) as nat)),
                        halved(input[3 * i + 1], halvings(terrains@, i, (k + 1) as nat)),
                        halved(input[3 * i + 2], halvings(terrains@, i, (k + 1) as nat)),
                        0u8,
                    ]);
                } else {
                    assert(data[i] == before[i]);
                }
            }
        }
        k = k + 1;
    }
    let mut g: usize = 0;
    while g < 16
        invariant
            input.len() >= 768,
            g <= 16,
            data[0]@ == seq![0u8, 0u8, 0u8, 0u8],
            forall|i: int|
                0 < i < 256 && !(224 <= i < 224 + g) ==> (#[trigger] data[i])@ == seq![
                    halved(input[3 * i], halvings(terrains@, i, terrains@.len())),
                    halved(input[3 * i + 1], halvings(terrains@, i, terrains@.len())),
                    halved(input[3 * i + 2], halvings(terrains@, i, terrains@.len())),
                    0u8,
                ],
            forall|i: int|
                224 <= i < 224 + g ==> (#[trigger] data[i])@ == corrected_entry(
                    input,
                    terrains@,
                    i,
                ),
        decreases 16 - g,
    {
        let v: u8 = (g * 4) as u8;
        let ghost before = *data;
        data[224 + g] = [v, v, v, 0];
        proof {
            assert(data[224 + g as int]@ =~= corrected_entry(input, terrains@, 224 + g));
            assert forall|i: int| 224 <= i < 224 + g implies (#[trigger] data[i])@
                == corrected_entry(input, terrains@, i) by {
                assert(data[i] == before[i]);
            }
            assert forall|i: int| 0 < i < 256 && !(224 <= i < 224 + g + 1) implies (
            #[trigger] data[i])@ == seq![
                halved(input[3 * i], halvings(terrains@, i, terrains@.len())),
                halved(input[3 * i + 1], halvings(terrains@, i, terrains@.len())),
                halved(input[3 * i + 2], halvings(terrains@, i, terrains@.len())),
                0u8,
            ] by {
                assert(data[i] == before[i]);
            }
            assert(data[0] == before[0]);
        }
        g = g + 1;
    }
}

/// Reads a palette from 768 bytes: 256 colours of red, green and blue.
/// Alpha is zero. Where the terrains are given, the palette is corrected
/// for them. In the end every channel is scaled.
pub fn read_palette(input: &[u8], config: Option<&[TerrainConfig]>) -> (r: Result<
    [[u8; 4]; 256],
    DecodeError,
>)
    ensures
        r is Ok <==> input@.len() >= 768,
        r is Err ==> r == Err::<[[u8; 4]; 256], DecodeError>(DecodeError::TruncatedStream),
        r matches Ok(palette) ==> is_palette_of(palette, input@, terrains_of(config)),
{
    if input.len() < PALETTE_BYTES {
        return Err(DecodeError::TruncatedStream);
    }
    let mut data: [[u8; 4]; 256] = [[0u8; 4]; 256];
    let mut i: usize = 0;
    while i < 256
        invariant
            i <= 256,
            input@.len() >= 768,
            forall|k: int| 0 <= k < i ==> (#[trigger] data[k])@ == raw_entry(input@, k),
        decreases 256 - i,
    {
        let ghost before = data;
        data[i] = [input[3 * i], input[3 * i + 1], input[3 * i + 2], 0];
        proof {
            assert(data[i as int]@ =~= raw_entry(input@, i as int));
            assert forall|k: int| 0 <= k < i implies (#[trigger] data[k])@ == raw_entry(
                input@,
                k,
            ) by {
                assert(data[k] == before[k]);
            }
        }
        i = i + 1;
    }
    match config {
        Some(terrains) => {
            correct(&mut data, terrains, Ghost(input@));
        },
        None => {},
    }
    let ghost unscaled = data;
    let mut j: usize = 0;
    while j < 256
        invariant
            j <= 256,
            forall|k: int|
                0 <= k < j ==> (#[trigger] data[k])@ == seq![
                    scaled(unscaled[k][0]),
                    scaled(unscaled[k][1]),
                    scaled(unscaled[k][2]),
                    unscaled[k][3],
                ],
            forall|k: int| j <= k < 256 ==> #[trigger] data[k] == unscaled[k],
        decreases 256 - j,
    {
        let ghost before = data;
        let mut entry: [u8; 4] = data[j];
        entry[0] = entry[0] << 2;
        entry[1] = entry[1] << 2;
        entry[2] = entry[2] << 2;
        data[j] = entry;
        proof {
            assert(data[j as int]@ =~= seq![
                scaled(unscaled[j as int][0]),
                scaled(unscaled[j as int][1]),
                scaled(unscaled[j as int][2]),
                unscaled[j as int][3],
            ]);
            assert forall|k: int| 0 <= k < j implies (#[trigger] data[k])@ == seq![
                scaled(unscaled[k][0]),
                scaled(unscaled[k][1]),
                scaled(unscaled[k][2]),
                unscaled[k][3],
            ] by {
                assert(data[k] == before[k]);
            }
            assert forall|k: int| j < k < 256 implies #[trigger] data[k] == unscaled[k] by {
                assert(data[k] == before[k]);
            }
        }
        j = j + 1;
    }
    proof {
        assert forall|k: int| 0 <= k < 256 implies (#[trigger] data[k])@ == palette_entry(
            input@,
            terrains_of(config),
            k,
        ) by {
            let e = match terrains_of(config) {
                Some(t) => corrected_entry(input@, t, k),
                None => raw_entry(input@, k),
            };
            assert(unscaled[k]@ == e);
            assert(unscaled[k][0] == e[0]);
            assert(unscaled[k][1] == e[1]);
            assert(unscaled[k][2] == e[2]);
            assert(unscaled[k][3] == e[3]);
        }
    }
    Ok(data)
}

} // verus!
