use vstd::prelude::*;

verus! {

/// The display color of a tile. The presentation layer maps each token to
/// whatever its terminal library offers; the engine only fixes which token
/// belongs to which tile value.
#[derive(Clone, Copy, PartialEq, Eq, Structural, Debug)]
pub enum TileColor {
    DarkGrey,
    White,
    Cyan,
    Blue,
    Green,
    Yellow,
    Magenta,
    Red,
    DarkRed,
    DarkYellow,
    DarkGreen,
    DarkMagenta,
}

/// The closed lookup table from tile value to color: one entry for each
/// value the game can show up to 2048, and a default for anything else.
pub open spec fn color_spec(value: i16) -> TileColor {
    if value == 0 {
        TileColor::DarkGrey
    } else if value == 2 {
        TileColor::White
    } else if value == 4 {
        TileColor::Cyan
    } else if value == 8 {
        TileColor::Blue
    } else if value == 16 {
        TileColor::Green
    } else if value == 32 {
        TileColor::Yellow
    } else if value == 64 {
        TileColor::Magenta
    } else if value == 128 {
        TileColor::Red
    } else if value == 256 {
        TileColor::DarkRed
    } else if value == 512 {
        TileColor::DarkYellow
    } else if value == 1024 {
        TileColor::DarkGreen
    } else if value == 2048 {
        TileColor::DarkMagenta
    } else {
        TileColor::White
    }
}

/// The color a tile of the given value is rendered with.
pub fn color_tiles(value: i16) -> (color: TileColor)
    ensures
        color == color_spec(value),
{
    match value {
        0 => TileColor::DarkGrey,
        2 => TileColor::White,
        4 => TileColor::Cyan,
        8 => TileColor::Blue,
        16 => TileColor::Green,
        32 => TileColor::Yellow,
        64 => TileColor::Magenta,
        128 => TileColor::Red,
        256 => TileColor::DarkRed,
        512 => TileColor::DarkYellow,
        1024 => TileColor::DarkGreen,
        2048 => TileColor::DarkMagenta,
        _ => TileColor::White,
    }
}

} // verus!
