//! Player colors, piece types, pieces and player metadata.

use vstd::prelude::*;

verus! {

/// One of the two player colors.
#[derive(Debug, Clone, Copy, PartialEq, Eq, Hash, Structural)]
pub enum PlayerColor {
    Red,
    Blue,
}

/// The color opposing `c`.
pub open spec fn spec_opponent(c: PlayerColor) -> PlayerColor {
    match c {
        PlayerColor::Red => PlayerColor::Blue,
        PlayerColor::Blue => PlayerColor::Red,
    }
}

impl PlayerColor {
    /// The opposing color; a total mapping on the two-valued tag.
    pub fn opponent(self) -> (r: PlayerColor)
        ensures
            r == spec_opponent(self),
    {
        match self {
            PlayerColor::Red => PlayerColor::Blue,
            PlayerColor::Blue => PlayerColor::Red,
        }
    }
}

/// The closed set of piece kinds, each with its own movement rule.
#[derive(Debug, Clone, Copy, PartialEq, Eq, Hash, Structural)]
pub enum PieceType {
    Ant,
    Bee,
    Beetle,
    Grasshopper,
    Spider,
}

/// A game piece: an immutable (owner, kind) value.
#[derive(Debug, Clone, Copy, PartialEq, Eq, Hash, Structural)]
pub struct Piece {
    pub owner: PlayerColor,
    pub piece_type: PieceType,
}

impl Piece {
    /// Builds a piece from its owner and kind.
    pub fn new(owner: PlayerColor, piece_type: PieceType) -> (r: Piece)
        ensures
            r == (Piece { owner, piece_type }),
    {
        Piece { owner, piece_type }
    }
}

/// Metadata about a player; informational only.
#[derive(Debug, Clone, PartialEq, Eq, Hash)]
pub struct Player {
    pub color: PlayerColor,
    pub display_name: String,
}

} // verus!
