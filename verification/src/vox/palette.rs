//! A `.vox` file's 256-colour palette as a 16 x 16 RGBA8 atlas.
//!
//! Palette index `i` lands at cell `(i % 16, i / 16)`. The colours are the
//! file's own palette; missing entries of a short palette are opaque black.

use vstd::prelude::*;

verus! {

/// Cells per side of the palette atlas.
pub const ATLAS: u32 = 16;

/// Byte `i` of the atlas: channel `i % 4` of palette entry `i / 4`, or opaque
/// black past the end of the palette.
pub open spec fn atlas_byte(palette: Seq<[u8; 4]>, i: int) -> u8 {
    let idx = i / 4;
    let ch = i % 4;
    if idx < palette.len() {
        palette[idx]@[ch]
    } else if ch == 3 {
        255
    } else {
        0
    }
}

/// The RGBA8 bytes of the 16 x 16 palette atlas, row by row.
pub fn palette_rgba(palette: &[[u8; 4]]) -> (data: Vec<u8>)
    ensures
        data@.len() == ATLAS * ATLAS * 4,
        forall|i: int| 0 <= i < data@.len() ==> #[trigger] data@[i] == atlas_byte(palette@, i),
{
    let mut data: Vec<u8> = Vec::with_capacity((ATLAS * ATLAS * 4) as usize);
    let mut idx: usize = 0;
    while idx < (ATLAS * ATLAS) as usize
        invariant
            0 <= idx <= 256,
            data@.len() == 4 * idx,
            forall|i: int| 0 <= i < data@.len() ==> #[trigger] data@[i] == atlas_byte(palette@, i),
        decreases 256 - idx,
    {
        let rgba: [u8; 4] = if idx < palette.len() {
            palette[idx]
        } else {
            [0, 0, 0, 255]
        };
        let ghost before = data@;
        data.push(rgba[0]);
        data.push(rgba[1]);
        data.push(rgba[2]);
        data.push(rgba[3]);
        proof {
            assert forall|i: int| 0 <= i < data@.len() implies #[trigger] data@[i] == atlas_byte(palette@, i) by {
                if i >= 4 * idx {
                    let ch = i - 4 * idx;
                    vstd::arithmetic::div_mod::lemma_fundamental_div_mod_converse(i, 4, idx as int, ch);
                    assert(data@[i] == rgba@[ch]);
                } else {
                    assert(data@[i] == before[i]);
                }
            }
        }
        idx = idx + 1;
    }
    data
}

} // verus!
