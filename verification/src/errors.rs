//! Error taxonomy: decoding failures and move-legality violations.

use vstd::prelude::*;
use crate::coords::AxialCoords;
use crate::pieces::{Piece, PlayerColor};

verus! {

/// A failure while constructing a snapshot from a labelled tree:
/// a missing or unparseable attribute or child.  Construction halts;
/// no partial snapshot is ever produced.
#[derive(Debug, Clone, PartialEq, Eq)]
pub enum DecodeError {
    /// The named attribute is absent from the element whose tag name
    /// is carried alongside it.
    MissingAttribute { key: String, tag: String },
    /// The element whose tag name is carried alongside has no child
    /// element with the given name.
    MissingChild { name: String, tag: String },
    /// An attribute that should hold a decimal integer does not, or the
    /// value does not fit the expected integer type.
    BadNumber { value: String },
    /// An attribute that should hold `"true"` or `"false"` holds
    /// something else.
    BadBool { value: String },
    /// An attribute that should name a player color does not.
    BadColor { value: String },
    /// An attribute that should name a piece type does not.
    BadPieceType { value: String },
    /// A field coordinate lies outside the range the engine works with.
    CoordOutOfRange { x: i32, y: i32 },
}

/// A named legality failure of a candidate move, with enough context to
/// produce a human-readable message.  The validator reports the first
/// failing predicate of its ordered chain.
#[derive(Debug, Clone, Copy, PartialEq, Eq, Structural)]
pub enum RuleViolation {
    /// Placement or movement targets a coordinate that is not on the board.
    DestinationOutOfBounds { destination: AxialCoords },
    /// Placement targets an obstructed field.
    DestinationObstructed { destination: AxialCoords },
    /// The mover owns no field yet, so the piece must be placed next to
    /// an opponent-owned field, and was not.
    NotNextToOpponent { destination: AxialCoords },
    /// Fourth placement round reached with no own bee placed, and the
    /// piece being placed is not the bee.
    BeeDeadlineMissed { color: PlayerColor },
    /// The piece being placed is not in the mover's undeployed pool.
    PieceNotUndeployed { piece: Piece },
    /// Placement must touch at least one own-colored field, and does not.
    NotNextToOwnPiece { destination: AxialCoords },
    /// Placement must not touch any opponent-colored field, and does.
    NextToOpponentPiece { destination: AxialCoords },
    /// A drag move was attempted before the mover's bee was placed.
    BeeNotYetPlaced { color: PlayerColor },
    /// The drag start is not on the board.
    StartOutOfBounds { start: AxialCoords },
    /// The drag start holds no piece.
    NoPieceToMove { start: AxialCoords },
    /// The top piece at the drag start belongs to the opponent.
    WrongMover { start: AxialCoords, color: PlayerColor },
    /// Drag start and destination coincide.
    StartEqualsDestination { start: AxialCoords },
    /// Only a beetle may move onto an occupied field.
    CannotClimb { destination: AxialCoords },
    /// Removing the dragged piece would split the swarm.
    SwarmWouldDisconnect { start: AxialCoords },
    /// The destination is not adjacent to the start.
    NotAdjacent { start: AxialCoords, destination: AxialCoords },
    /// Both gate cells between start and destination are blocked
    /// (freedom-to-move rule).
    Squeezed { start: AxialCoords, destination: AxialCoords },
    /// A beetle move must touch the swarm: a shared gate cell or the
    /// destination itself must hold pieces.
    BeetleNotOnSwarm { start: AxialCoords, destination: AxialCoords },
    /// A grasshopper may only jump along one of the three hex axes.
    NotInLine { start: AxialCoords, destination: AxialCoords },
    /// A grasshopper must jump, never step to a neighbor.
    MustJump { start: AxialCoords, destination: AxialCoords },
    /// A grasshopper cannot hop over an empty cell.
    HopsOverEmpty { start: AxialCoords, destination: AxialCoords },
    /// No path along the swarm's boundary connects start to destination.
    NoBoundaryPath { start: AxialCoords, destination: AxialCoords },
    /// No simple three-hop path over accessible neighbors connects start
    /// to destination.
    NoSpiderPath { start: AxialCoords, destination: AxialCoords },
}

} // verus!
