//! Glyph codes and the colours, as `0xRRGGBB`, that the library's own
//! entities wear.

use vstd::prelude::*;

verus! {

/// Background of everything.
pub const BLACK: u32 = 0x000000;

/// The hero.
pub const YELLOW: u32 = 0xFFFF00;

/// Blows and sprung hazards.
pub const ORANGE: u32 = 0xFFA500;

/// Monsters and traps.
pub const RED: u32 = 0xFF0000;

/// Potions.
pub const MAGENTA: u32 = 0xFF00FF;

/// The code page 437 glyph that `bracket_lib` draws for a character.
pub uninterp spec fn cp437(c: char) -> u16;

/// `bracket_lib::terminal::to_cp437`: a fixed table from characters to
/// glyph codes. The contract only gives the table's entry a name.
#[verifier::external_body]
pub(crate) fn to_cp437(c: char) -> (glyph: u16)
    ensures
        glyph == cp437(c),
{
    bracket_lib::terminal::to_cp437(c)
}

} // verus!
