//! Glyphs for brightness bytes.
//!
//! A pixel that misses the torus is a blank. A lit pixel takes its glyph from
//! a ramp that runs from sparse to dense, in proportion to its brightness.

use vstd::prelude::*;
use vstd::string::StrSliceExecFns;

verus! {

/// Number of glyphs in the ramp.
pub const RAMP_LENGTH: usize = 30;

/// The glyphs from dimmest to brightest.
pub const GREY_SCALE: &'static str = ".......::::::-----====+++**#%@";

/// The ramp as a sequence of glyphs.
pub open spec fn ramp() -> Seq<char> {
    GREY_SCALE@
}

/// Position in the ramp of the glyph for a lit pixel of brightness `byte`.
pub open spec fn ramp_index(byte: u8) -> int {
    byte * RAMP_LENGTH / 256
}

/// The glyph for a pixel of brightness `byte`.
pub open spec fn glyph_of(byte: u8) -> char {
    if byte == 0 {
        ' '
    } else {
        ramp()[ramp_index(byte)]
    }
}

/// Every brightness has a glyph in the ramp, and a brighter pixel never gets
/// a glyph from further down the ramp than a dimmer one.
pub proof fn lemma_ramp_index_monotonic(dim: u8, bright: u8)
    requires
        dim <= bright,
    ensures
        ramp().len() == RAMP_LENGTH,
        0 <= ramp_index(dim) <= ramp_index(bright) < RAMP_LENGTH,
{
    reveal_strlit(".......::::::-----====+++**#%@");
}

/// No lit pixel is shown as a blank.
pub proof fn lemma_lit_is_visible(byte: u8)
    ensures
        glyph_of(byte) == ' ' <==> byte == 0,
{
    reveal_strlit(".......::::::-----====+++**#%@");
    lemma_ramp_index_monotonic(byte, byte);
}

/// Gives the glyph for a pixel of brightness `byte`.
pub fn glyph(byte: u8) -> (c: char)
    ensures
        c == glyph_of(byte),
{
    if byte > 0 {
        proof {
            lemma_ramp_index_monotonic(byte, byte);
        }
        let i: usize = byte as usize * RAMP_LENGTH / 256;
        GREY_SCALE.get_char(i)
    } else {
        ' '
    }
}

} // verus!
