//! Game state and the move-legality validator: an ordered,
//! short-circuiting predicate chain for placements and drag moves, the
//! per-piece-type movement rules, and legal-move enumeration.

use vstd::prelude::*;
use crate::board::{acc_edge, can_slide, has_pieces_at, is_gate, lemma_push_keeps_distinct, next_to, owns_field, spec_any_pieces, spec_has_placed_bee, swarm_connected, Board};
use crate::coords::{in_coord_range, on_open_segment, spec_adjacent, spec_forms_line, AxialCoords};
use crate::errors::RuleViolation;
use crate::field::FieldModel;
use crate::pieces::{spec_opponent, Piece, PieceType, Player, PlayerColor};
use crate::reach::reaches;

verus! {

broadcast use vstd::seq_lib::lemma_seq_contains_after_push;

/// A transition between two game states: placing an undeployed piece,
/// or dragging a placed piece to a new coordinate.
#[derive(Debug, Clone, Copy, PartialEq, Eq, Structural)]
pub enum Move {
    SetMove { piece: Piece, destination: AxialCoords },
    DragMove { start: AxialCoords, destination: AxialCoords },
}

/// A snapshot of the game's state at a specific turn: the board plus
/// information about both players and their undeployed pieces.
#[derive(Debug, Clone, PartialEq, Eq)]
pub struct GameState {
    pub turn: u32,
    pub start_player_color: PlayerColor,
    pub current_player_color: PlayerColor,
    pub board: Board,
    pub red_player: Player,
    pub blue_player: Player,
    pub undeployed_red_pieces: Vec<Piece>,
    pub undeployed_blue_pieces: Vec<Piece>,
}

impl GameState {
    /// A snapshot is well formed when its board is.
    pub open spec fn wf(self) -> bool {
        self.board.wf()
    }

    /// The undeployed pool of a color, as a sequence.
    pub open spec fn spec_undeployed(self, color: PlayerColor) -> Seq<Piece> {
        match color {
            PlayerColor::Red => self.undeployed_red_pieces@,
            PlayerColor::Blue => self.undeployed_blue_pieces@,
        }
    }

    /// Builds a snapshot from its parts.
    pub fn new(
        turn: u32,
        start_player_color: PlayerColor,
        current_player_color: PlayerColor,
        board: Board,
        red_player: Player,
        blue_player: Player,
        undeployed_red_pieces: Vec<Piece>,
        undeployed_blue_pieces: Vec<Piece>,
    ) -> (r: GameState)
        ensures
            r == (GameState {
                turn,
                start_player_color,
                current_player_color,
                board,
                red_player,
                blue_player,
                undeployed_red_pieces,
                undeployed_blue_pieces,
            }),
    {
        GameState {
            turn,
            start_player_color,
            current_player_color,
            board,
            red_player,
            blue_player,
            undeployed_red_pieces,
            undeployed_blue_pieces,
        }
    }

    /// Fetches the undeployed pieces for a specific color.
    pub fn undeployed_pieces(&self, color: PlayerColor) -> (r: &Vec<Piece>)
        ensures
            r@ == self.spec_undeployed(color),
    {
        match color {
            PlayerColor::Red => &self.undeployed_red_pieces,
            PlayerColor::Blue => &self.undeployed_blue_pieces,
        }
    }

    /// Fetches the player data for a given color.
    pub fn player(&self, color: PlayerColor) -> (r: &Player)
        ensures
            r == if color == PlayerColor::Red {
                &self.red_player
            } else {
                &self.blue_player
            },
    {
        match color {
            PlayerColor::Red => &self.red_player,
            PlayerColor::Blue => &self.blue_player,
        }
    }

    /// Fetches the current round, which is half the turn.
    pub fn round(&self) -> (r: u32)
        ensures
            r == self.turn / 2,
    {
        self.turn / 2
    }
}

/// The placement rule chain, in order: the destination must be an
/// unobstructed board coordinate; on an empty board anything goes; a
/// mover without fields must touch the opponent; from the mover's
/// fourth round the bee must be placed first; the piece must still be
/// undeployed; the destination must touch an own field and no opponent
/// field.
pub open spec fn spec_validate_set_move(
    gs: GameState,
    color: PlayerColor,
    piece: Piece,
    destination: AxialCoords,
) -> Result<(), RuleViolation> {
    let m = gs.board@;
    if !m.contains_key(destination) {
        Err(RuleViolation::DestinationOutOfBounds { destination })
    } else if m[destination].obstructed {
        Err(RuleViolation::DestinationObstructed { destination })
    } else if !spec_any_pieces(m) {
        Ok(())
    } else if !owns_field(m, color) {
        if next_to(m, spec_opponent(color), destination) {
            Ok(())
        } else {
            Err(RuleViolation::NotNextToOpponent { destination })
        }
    } else if gs.turn / 2 == 3 && !spec_has_placed_bee(m, color) && piece.piece_type
        != PieceType::Bee {
        Err(RuleViolation::BeeDeadlineMissed { color })
    } else if !gs.spec_undeployed(color).contains(piece) {
        Err(RuleViolation::PieceNotUndeployed { piece })
    } else if !next_to(m, color, destination) {
        Err(RuleViolation::NotNextToOwnPiece { destination })
    } else if next_to(m, spec_opponent(color), destination) {
        Err(RuleViolation::NextToOpponentPiece { destination })
    } else {
        Ok(())
    }
}

/// The per-piece-type movement rule, applied once the drag-move
/// preconditions hold.
pub open spec fn spec_piece_rule(
    m: Map<AxialCoords, FieldModel>,
    piece_type: PieceType,
    start: AxialCoords,
    destination: AxialCoords,
) -> Result<(), RuleViolation> {
    match piece_type {
        PieceType::Bee => if !spec_adjacent(start, destination) {
            Err(RuleViolation::NotAdjacent { start, destination })
        } else if !can_slide(m, start, destination) {
            Err(RuleViolation::Squeezed { start, destination })
        } else {
            Ok(())
        },
        PieceType::Beetle => if !spec_adjacent(start, destination) {
            Err(RuleViolation::NotAdjacent { start, destination })
        } else if (exists|c: AxialCoords|
            #[trigger] is_gate(m, start, destination, c) && m[c].stack.len() > 0) || has_pieces_at(
            m,
            destination,
        ) {
            Ok(())
        } else {
            Err(RuleViolation::BeetleNotOnSwarm { start, destination })
        },
        PieceType::Grasshopper => if !spec_forms_line(start, destination) {
            Err(RuleViolation::NotInLine { start, destination })
        } else if spec_adjacent(start, destination) {
            Err(RuleViolation::MustJump { start, destination })
        } else if exists|c: AxialCoords|
            #[trigger] on_open_segment(c, start, destination) && !has_pieces_at(m, c) {
            Err(RuleViolation::HopsOverEmpty { start, destination })
        } else {
            Ok(())
        },
        PieceType::Ant => if reaches(acc_edge(m), start, destination) {
            Ok(())
        } else {
            Err(RuleViolation::NoBoundaryPath { start, destination })
        },
        PieceType::Spider => if spider_path_exists(m, start, destination) {
            Ok(())
        } else {
            Err(RuleViolation::NoSpiderPath { start, destination })
        },
    }
}

/// A simple three-hop path over the accessible-neighbor graph leads
/// from `s` to `d`: two intermediate cells, all four cells pairwise
/// distinct.
pub open spec fn spider_path_exists(
    m: Map<AxialCoords, FieldModel>,
    s: AxialCoords,
    d: AxialCoords,
) -> bool {
    &&& s != d
    &&& exists|n1: AxialCoords|
        #[trigger] acc_edge(m)(s, n1) && n1 != s && n1 != d && spider_tail(m, s, d, n1)
}

/// The last two hops of a spider path through `n1`.
pub open spec fn spider_tail(
    m: Map<AxialCoords, FieldModel>,
    s: AxialCoords,
    d: AxialCoords,
    n1: AxialCoords,
) -> bool {
    exists|n2: AxialCoords|
        #[trigger] acc_edge(m)(n1, n2) && n2 != s && n2 != n1 && n2 != d && acc_edge(m)(n2, d)
}

/// The drag-move rule chain, in order: the mover's bee must be placed;
/// start and destination must be on the board; the start's top piece
/// must exist and belong to the mover; start and destination must
/// differ; only a beetle may target an occupied destination; removing
/// the piece must keep the swarm connected; then the per-type rule.
pub open spec fn spec_validate_drag_move(
    gs: GameState,
    color: PlayerColor,
    start: AxialCoords,
    destination: AxialCoords,
) -> Result<(), RuleViolation> {
    let m = gs.board@;
    if !spec_has_placed_bee(m, color) {
        Err(RuleViolation::BeeNotYetPlaced { color })
    } else if !m.contains_key(start) {
        Err(RuleViolation::StartOutOfBounds { start })
    } else if !m.contains_key(destination) {
        Err(RuleViolation::DestinationOutOfBounds { destination })
    } else if m[start].stack.len() == 0 {
        Err(RuleViolation::NoPieceToMove { start })
    } else {
        let p = m[start].stack[m[start].stack.len() - 1];
        if p.owner != color {
            Err(RuleViolation::WrongMover { start, color })
        } else if start == destination {
            Err(RuleViolation::StartEqualsDestination { start })
        } else if m[destination].stack.len() > 0 && p.piece_type != PieceType::Beetle {
            Err(RuleViolation::CannotClimb { destination })
        } else if !swarm_connected(Board::popped_model(m, start)) {
            Err(RuleViolation::SwarmWouldDisconnect { start })
        } else {
            spec_piece_rule(m, p.piece_type, start, destination)
        }
    }
}

/// The verdict of the whole validator on a candidate move.
pub open spec fn spec_validate_move(gs: GameState, color: PlayerColor, game_move: Move) -> Result<
    (),
    RuleViolation,
> {
    match game_move {
        Move::SetMove { piece, destination } => spec_validate_set_move(
            gs,
            color,
            piece,
            destination,
        ),
        Move::DragMove { start, destination } => spec_validate_drag_move(
            gs,
            color,
            start,
            destination,
        ),
    }
}

/// A move belongs to the enumerated legal moves of `color`: a placement
/// of a piece from the pool onto a board coordinate that the placement
/// chain accepts, or a drag between board coordinates that the drag
/// chain accepts.
pub open spec fn spec_possible_move(gs: GameState, color: PlayerColor, mv: Move) -> bool {
    match mv {
        Move::SetMove { piece, destination } => gs.spec_undeployed(color).contains(piece)
            && gs.board@.contains_key(destination) && spec_validate_set_move(
            gs,
            color,
            piece,
            destination,
        ) is Ok,
        Move::DragMove { start, destination } => gs.board@.contains_key(start)
            && gs.board@.contains_key(destination) && spec_validate_drag_move(
            gs,
            color,
            start,
            destination,
        ) is Ok,
    }
}

/// A placement onto an obstructed or off-board coordinate is rejected
/// whatever the turn, the mover and the piece.
pub proof fn lemma_set_move_rejects_blocked_destination(
    gs: GameState,
    color: PlayerColor,
    piece: Piece,
    destination: AxialCoords,
)
    requires
        !gs.board@.contains_key(destination) || gs.board@[destination].obstructed,
    ensures
        spec_validate_set_move(gs, color, piece, destination) == if !gs.board@.contains_key(
            destination,
        ) {
            Err::<(), RuleViolation>(RuleViolation::DestinationOutOfBounds { destination })
        } else {
            Err::<(), RuleViolation>(RuleViolation::DestinationObstructed { destination })
        },
{
}

/// The bee deadline: at a mover's fourth placement round with no own
/// bee on the board, placing any piece but the bee fails with the
/// bee-deadline violation, while the still-undeployed bee itself is
/// accepted at the same destination on the same board.
pub proof fn lemma_bee_deadline(
    gs: GameState,
    color: PlayerColor,
    piece: Piece,
    bee: Piece,
    destination: AxialCoords,
)
    requires
        gs.board@.contains_key(destination),
        !gs.board@[destination].obstructed,
        spec_any_pieces(gs.board@),
        owns_field(gs.board@, color),
        gs.turn / 2 == 3,
        !spec_has_placed_bee(gs.board@, color),
        piece.piece_type != PieceType::Bee,
        bee == (Piece { owner: color, piece_type: PieceType::Bee }),
        gs.spec_undeployed(color).contains(bee),
        next_to(gs.board@, color, destination),
        !next_to(gs.board@, spec_opponent(color), destination),
    ensures
        spec_validate_set_move(gs, color, piece, destination) == Err::<(), RuleViolation>(
            RuleViolation::BeeDeadlineMissed { color },
        ),
        spec_validate_set_move(gs, color, bee, destination) == Ok::<(), RuleViolation>(()),
{
}

/// Tests whether a piece value occurs in a vector of pieces.
fn contains_piece(v: &Vec<Piece>, p: Piece) -> (r: bool)
    ensures
        r == v@.contains(p),
{
    let mut k: usize = 0;
    while k < v.len()
        invariant
            k <= v@.len(),
            forall|j: int| 0 <= j < k ==> v@[j] != p,
        decreases v@.len() - k,
    {
        if v[k] == p {
            return true;
        }
        k += 1;
    }
    false
}

/// Tests whether a move value occurs in a vector of moves.
fn contains_move(v: &Vec<Move>, m: Move) -> (r: bool)
    ensures
        r == v@.contains(m),
{
    let mut k: usize = 0;
    while k < v.len()
        invariant
            k <= v@.len(),
            forall|j: int| 0 <= j < k ==> v@[j] != m,
        decreases v@.len() - k,
    {
        if v[k] == m {
            return true;
        }
        k += 1;
    }
    false
}

impl GameState {
    /// Validates a placement: the ordered chain of
    /// `spec_validate_set_move`, reporting the first failing predicate.
    fn validate_set_move(
        &self,
        color: PlayerColor,
        piece: Piece,
        destination: AxialCoords,
    ) -> (r: Result<(), RuleViolation>)
        requires
            self.wf(),
        ensures
            r == spec_validate_set_move(*self, color, piece, destination),
    {
        if !self.board.contains_coords(destination) {
            return Err(RuleViolation::DestinationOutOfBounds { destination });
        }
        proof {
            self.board.lemma_contained_in_range(destination);
        }
        let obstructed = match self.board.field(destination) {
            Some(f) => f.is_obstructed,
            None => true,
        };
        if obstructed {
            return Err(RuleViolation::DestinationObstructed { destination });
        }
        if !self.board.has_any_pieces() {
            return Ok(());
        }
        if !self.board.any_owned_by(color) {
            return if self.board.is_next_to(color.opponent(), destination) {
                Ok(())
            } else {
                Err(RuleViolation::NotNextToOpponent { destination })
            };
        }
        if self.round() == 3 && !self.board.has_placed_bee(color) && !(piece.piece_type
            == PieceType::Bee) {
            return Err(RuleViolation::BeeDeadlineMissed { color });
        }
        if !contains_piece(self.undeployed_pieces(color), piece) {
            return Err(RuleViolation::PieceNotUndeployed { piece });
        }
        if !self.board.is_next_to(color, destination) {
            return Err(RuleViolation::NotNextToOwnPiece { destination });
        }
        if self.board.is_next_to(color.opponent(), destination) {
            return Err(RuleViolation::NextToOpponentPiece { destination });
        }
        Ok(())
    }

    /// Ensures that the destination is a direct neighbor of the start.
    fn validate_adjacent(&self, start: AxialCoords, destination: AxialCoords) -> (r: Result<
        (),
        RuleViolation,
    >)
        ensures
            r == if spec_adjacent(start, destination) {
                Ok::<(), RuleViolation>(())
            } else {
                Err(RuleViolation::NotAdjacent { start, destination })
            },
    {
        if start.is_adjacent_to(destination) {
            Ok(())
        } else {
            Err(RuleViolation::NotAdjacent { start, destination })
        }
    }

    /// The ant rule: the destination must be reachable from the start
    /// along the accessible-neighbor graph of the current board.
    fn validate_ant_move(&self, start: AxialCoords, destination: AxialCoords) -> (r: Result<
        (),
        RuleViolation,
    >)
        requires
            self.wf(),
            self.board@.contains_key(start),
        ensures
            r == spec_piece_rule(self.board@, PieceType::Ant, start, destination),
    {
        if self.board.connected_by_boundary_path(start, destination) {
            Ok(())
        } else {
            Err(RuleViolation::NoBoundaryPath { start, destination })
        }
    }

    /// The bee rule: one step to an adjacent cell that it can slide to.
    fn validate_bee_move(&self, start: AxialCoords, destination: AxialCoords) -> (r: Result<
        (),
        RuleViolation,
    >)
        requires
            self.wf(),
            in_coord_range(start),
        ensures
            r == spec_piece_rule(self.board@, PieceType::Bee, start, destination),
    {
        match self.validate_adjacent(start, destination) {
            Ok(()) => {},
            Err(e) => {
                return Err(e);
            },
        }
        if self.board.can_move_between(start, destination) {
            Ok(())
        } else {
            Err(RuleViolation::Squeezed { start, destination })
        }
    }

    /// The beetle rule: one step to an adjacent cell while staying on
    /// the swarm — a shared gate cell or the destination itself must
    /// hold pieces (covers climbing onto or across a stack).
    fn validate_beetle_move(&self, start: AxialCoords, destination: AxialCoords) -> (r: Result<
        (),
        RuleViolation,
    >)
        requires
            self.wf(),
            in_coord_range(start),
        ensures
            r == spec_piece_rule(self.board@, PieceType::Beetle, start, destination),
    {
        match self.validate_adjacent(start, destination) {
            Ok(()) => {},
            Err(e) => {
                return Err(e);
            },
        }
        let dest_pieces = match self.board.field(destination) {
            Some(f) => f.has_pieces(),
            None => false,
        };
        if self.board.any_gate_with_pieces(start, destination) || dest_pieces {
            Ok(())
        } else {
            Err(RuleViolation::BeetleNotOnSwarm { start, destination })
        }
    }

    /// The grasshopper rule: a jump along a shared axis, never to a
    /// neighbor, and every cell strictly between start and destination
    /// must hold at least one piece (a contiguous run of pieces).
    fn validate_grasshopper_move(&self, start: AxialCoords, destination: AxialCoords) -> (r:
        Result<(), RuleViolation>)
        requires
            self.wf(),
            in_coord_range(start),
            in_coord_range(destination),
        ensures
            r == spec_piece_rule(self.board@, PieceType::Grasshopper, start, destination),
    {
        if !start.forms_line_with(destination) {
            return Err(RuleViolation::NotInLine { start, destination });
        }
        if start.is_adjacent_to(destination) {
            return Err(RuleViolation::MustJump { start, destination });
        }
        let between = start.line_between(destination);
        let mut i: usize = 0;
        while i < between.len()
            invariant
                i <= between@.len(),
                forall|j: int| 0 <= j < i ==> has_pieces_at(self.board@, #[trigger] between@[j]),
            decreases between@.len() - i,
        {
            let c = between[i];
            let holds_piece = match self.board.field(c) {
                Some(f) => f.has_pieces(),
                None => false,
            };
            if !holds_piece {
                proof {
                    assert(crate::coords::line_point(start, destination, (i + 1) as nat) == (
                    c.x as int,
                    c.y as int,
                    ));
                    assert(on_open_segment(c, start, destination));
                }
                return Err(RuleViolation::HopsOverEmpty { start, destination });
            }
            i += 1;
        }
        proof {
            if exists|c: AxialCoords|
                #[trigger] on_open_segment(c, start, destination) && !has_pieces_at(
                    self.board@,
                    c,
                ) {
                let c = choose|c: AxialCoords|
                    #[trigger] on_open_segment(c, start, destination) && !has_pieces_at(
                        self.board@,
                        c,
                    );
                let k = choose|k: nat|
                    1 <= k < crate::coords::line_dist(start, destination)
                        && crate::coords::line_point(start, destination, k) == (
                    c.x as int,
                    c.y as int,
                    );
                assert(between@[k - 1].x as int == c.x as int && between@[k - 1].y as int
                    == c.y as int);
                assert(between@[k - 1] == c);
                assert(false);
            }
        }
        Ok(())
    }

    /// The spider rule: exactly three hops over accessible neighbors,
    /// no cell revisited, landing exactly on the destination.
    fn validate_spider_move(&self, start: AxialCoords, destination: AxialCoords) -> (r: Result<
        (),
        RuleViolation,
    >)
        requires
            self.wf(),
            self.board@.contains_key(start),
            start != destination,
        ensures
            r == spec_piece_rule(self.board@, PieceType::Spider, start, destination),
    {
        proof {
            self.board.lemma_contained_in_range(start);
        }
        let ghost m = self.board@;
        let ns1 = self.board.accessible_coords(start);
        let mut k1: usize = 0;
        while k1 < ns1.len()
            invariant
                k1 <= ns1@.len(),
                forall|j: int|
                    0 <= j < k1 ==> !((#[trigger] ns1@[j]) != start && ns1@[j] != destination
                        && spider_tail(m, start, destination, ns1@[j])),
            decreases ns1@.len() - k1,
        {
            let n1 = ns1[k1];
            proof {
                assert(ns1@.contains(n1));
                assert(acc_edge(m)(start, n1));
            }
            if !(n1 == start) && !(n1 == destination) {
                proof {
                    self.board.lemma_contained_in_range(n1);
                }
                let ns2 = self.board.accessible_coords(n1);
                let mut k2: usize = 0;
                while k2 < ns2.len()
                    invariant
                        k2 <= ns2@.len(),
                        forall|j: int|
                            0 <= j < k2 ==> !((#[trigger] ns2@[j]) != start && ns2@[j] != n1
                                && ns2@[j] != destination && acc_edge(m)(ns2@[j], destination)),
                    decreases ns2@.len() - k2,
                {
                    let n2 = ns2[k2];
                    proof {
                        assert(ns2@.contains(n2));
                        assert(acc_edge(m)(n1, n2));
                    }
                    if !(n2 == start) && !(n2 == n1) && !(n2 == destination) {
                        let last_hop = self.board.contains_coords(destination)
                            && n2.is_adjacent_to(destination) && {
                            proof {
                                self.board.lemma_contained_in_range(n2);
                            }
                            self.board.can_move_between(n2, destination)
                        };
                        if last_hop {
                            proof {
                                assert(acc_edge(m)(n2, destination));
                                assert(spider_tail(m, start, destination, n1));
                                assert(spider_path_exists(m, start, destination));
                            }
                            return Ok(());
                        }
                    }
                    k2 += 1;
                }
                proof {
                    if spider_tail(m, start, destination, n1) {
                        let n2 = choose|n2: AxialCoords|
                            #[trigger] acc_edge(m)(n1, n2) && n2 != start && n2 != n1 && n2
                                != destination && acc_edge(m)(n2, destination);
                        assert(ns2@.contains(n2));
                        let j = choose|j: int| 0 <= j < ns2@.len() && ns2@[j] == n2;
                        assert(false);
                    }
                }
            }
            k1 += 1;
        }
        proof {
            if spider_path_exists(m, start, destination) {
                let n1 = choose|n1: AxialCoords|
                    #[trigger] acc_edge(m)(start, n1) && n1 != start && n1 != destination
                        && spider_tail(m, start, destination, n1);
                assert(ns1@.contains(n1));
                let j = choose|j: int| 0 <= j < ns1@.len() && ns1@[j] == n1;
                assert(false);
            }
        }
        Err(RuleViolation::NoSpiderPath { start, destination })
    }

    /// Validates a drag move: the ordered chain of
    /// `spec_validate_drag_move`, reporting the first failing predicate.
    /// The hypothetical board without the dragged piece is a throwaway
    /// copy; the snapshot itself is never mutated.
    fn validate_drag_move(&self, color: PlayerColor, start: AxialCoords, destination: AxialCoords)
        -> (r: Result<(), RuleViolation>)
        requires
            self.wf(),
        ensures
            r == spec_validate_drag_move(*self, color, start, destination),
    {
        if !self.board.has_placed_bee(color) {
            return Err(RuleViolation::BeeNotYetPlaced { color });
        }
        if !self.board.contains_coords(start) {
            return Err(RuleViolation::StartOutOfBounds { start });
        }
        if !self.board.contains_coords(destination) {
            return Err(RuleViolation::DestinationOutOfBounds { destination });
        }
        proof {
            self.board.lemma_contained_in_range(start);
            self.board.lemma_contained_in_range(destination);
        }
        let top = match self.board.field(start) {
            Some(f) => f.piece(),
            None => None,
        };
        let dragged = match top {
            Some(p) => p,
            None => {
                return Err(RuleViolation::NoPieceToMove { start });
            },
        };
        if !(dragged.owner == color) {
            return Err(RuleViolation::WrongMover { start, color });
        }
        if start == destination {
            return Err(RuleViolation::StartEqualsDestination { start });
        }
        let dest_pieces = match self.board.field(destination) {
            Some(f) => f.has_pieces(),
            None => false,
        };
        if dest_pieces && !(dragged.piece_type == PieceType::Beetle) {
            return Err(RuleViolation::CannotClimb { destination });
        }
        let without_piece = self.board.popped(start);
        if !without_piece.is_swarm_connected() {
            return Err(RuleViolation::SwarmWouldDisconnect { start });
        }
        match dragged.piece_type {
            PieceType::Ant => self.validate_ant_move(start, destination),
            PieceType::Bee => self.validate_bee_move(start, destination),
            PieceType::Beetle => self.validate_beetle_move(start, destination),
            PieceType::Grasshopper => self.validate_grasshopper_move(start, destination),
            PieceType::Spider => self.validate_spider_move(start, destination),
        }
    }

    /// Tests whether the given move is valid for the given color, and
    /// reports the first failing rule of the chain otherwise.
    pub fn validate_move(&self, color: PlayerColor, game_move: Move) -> (r: Result<
        (),
        RuleViolation,
    >)
        requires
            self.wf(),
        ensures
            r == spec_validate_move(*self, color, game_move),
    {
        match game_move {
            Move::SetMove { piece, destination } => self.validate_set_move(
                color,
                piece,
                destination,
            ),
            Move::DragMove { start, destination } => self.validate_drag_move(
                color,
                start,
                destination,
            ),
        }
    }

    /// Enumerates the legal moves for a given color: the union of every
    /// undeployed piece against every board coordinate that passes the
    /// placement chain, and every pair of board coordinates that passes
    /// the drag chain.  The result lists each legal move exactly once.
    pub fn possible_moves(&self, color: PlayerColor) -> (r: Vec<Move>)
        requires
            self.wf(),
        ensures
            forall|mv: Move| #[trigger] r@.contains(mv) == spec_possible_move(*self, color, mv),
            r@.no_duplicates(),
    {
        let ghost pool = self.spec_undeployed(color);
        let ghost fs = self.board.fields@;
        let mut r: Vec<Move> = Vec::new();
        let mut pi: usize = 0;
        while pi < self.undeployed_pieces(color).len()
            invariant
                pi <= pool.len(),
                r@.no_duplicates(),
                forall|mv: Move|
                    #[trigger] r@.contains(mv) ==> spec_possible_move(*self, color, mv),
                forall|j: int, i: int|
                    #![trigger pool[j], fs[i]]
                    0 <= j < pi && 0 <= i < fs.len() && spec_validate_set_move(
                        *self,
                        color,
                        pool[j],
                        fs[i].0,
                    ) is Ok ==> r@.contains(
                        Move::SetMove { piece: pool[j], destination: fs[i].0 },
                    ),
            decreases pool.len() - pi,
        {
            let piece = self.undeployed_pieces(color)[pi];
            let mut fi: usize = 0;
            while fi < self.board.fields.len()
                invariant
                    pi < pool.len(),
                    piece == pool[pi as int],
                    fi <= fs.len(),
                    r@.no_duplicates(),
                    forall|mv: Move|
                        #[trigger] r@.contains(mv) ==> spec_possible_move(*self, color, mv),
                    forall|j: int, i: int|
                        #![trigger pool[j], fs[i]]
                        0 <= j < pi && 0 <= i < fs.len() && spec_validate_set_move(
                            *self,
                            color,
                            pool[j],
                            fs[i].0,
                        ) is Ok ==> r@.contains(
                            Move::SetMove { piece: pool[j], destination: fs[i].0 },
                        ),
                    forall|i: int|
                        0 <= i < fi && spec_validate_set_move(
                            *self,
                            color,
                            piece,
                            (#[trigger] fs[i]).0,
                        ) is Ok ==> r@.contains(Move::SetMove { piece, destination: fs[i].0 }),
                decreases fs.len() - fi,
            {
                let dest = self.board.fields[fi].0;
                let verdict = self.validate_set_move(color, piece, dest);
                let mv = Move::SetMove { piece, destination: dest };
                if verdict.is_ok() && !contains_move(&r, mv) {
                    let ghost r_old = r@;
                    proof {
                        self.board.lemma_entry_view(fi as int);
                        assert(pool.contains(piece));
                    }
                    r.push(mv);
                    proof {
                        lemma_push_keeps_distinct(r_old, mv);
                    }
                }
                fi += 1;
            }
            pi += 1;
        }
        let mut si: usize = 0;
        while si < self.board.fields.len()
            invariant
                si <= fs.len(),
                r@.no_duplicates(),
                forall|mv: Move|
                    #[trigger] r@.contains(mv) ==> spec_possible_move(*self, color, mv),
                forall|j: int, i: int|
                    #![trigger pool[j], fs[i]]
                    0 <= j < pool.len() && 0 <= i < fs.len() && spec_validate_set_move(
                        *self,
                        color,
                        pool[j],
                        fs[i].0,
                    ) is Ok ==> r@.contains(
                        Move::SetMove { piece: pool[j], destination: fs[i].0 },
                    ),
                forall|j: int, i: int|
                    #![trigger fs[j], fs[i]]
                    0 <= j < si && 0 <= i < fs.len() && spec_validate_drag_move(
                        *self,
                        color,
                        fs[j].0,
                        fs[i].0,
                    ) is Ok ==> r@.contains(Move::DragMove { start: fs[j].0, destination: fs[i].0 }),
            decreases fs.len() - si,
        {
            let start = self.board.fields[si].0;
            let mut di: usize = 0;
            while di < self.board.fields.len()
                invariant
                    si < fs.len(),
                    start == fs[si as int].0,
                    di <= fs.len(),
                    r@.no_duplicates(),
                    forall|mv: Move|
                        #[trigger] r@.contains(mv) ==> spec_possible_move(*self, color, mv),
                    forall|j: int, i: int|
                        #![trigger pool[j], fs[i]]
                        0 <= j < pool.len() && 0 <= i < fs.len() && spec_validate_set_move(
                            *self,
                            color,
                            pool[j],
                            fs[i].0,
                        ) is Ok ==> r@.contains(
                            Move::SetMove { piece: pool[j], destination: fs[i].0 },
                        ),
                    forall|j: int, i: int|
                        #![trigger fs[j], fs[i]]
                        0 <= j < si && 0 <= i < fs.len() && spec_validate_drag_move(
                            *self,
                            color,
                            fs[j].0,
                            fs[i].0,
                        ) is Ok ==> r@.contains(
                            Move::DragMove { start: fs[j].0, destination: fs[i].0 },
                        ),
                    forall|i: int|
                        0 <= i < di && spec_validate_drag_move(
                            *self,
                            color,
                            start,
                            (#[trigger] fs[i]).0,
                        ) is Ok ==> r@.contains(Move::DragMove { start, destination: fs[i].0 }),
                decreases fs.len() - di,
            {
                let dest = self.board.fields[di].0;
                let verdict = self.validate_drag_move(color, start, dest);
                let mv = Move::DragMove { start, destination: dest };
                if verdict.is_ok() && !contains_move(&r, mv) {
                    let ghost r_old = r@;
                    proof {
                        self.board.lemma_entry_view(si as int);
                        self.board.lemma_entry_view(di as int);
                    }
                    r.push(mv);
                    proof {
                        lemma_push_keeps_distinct(r_old, mv);
                    }
                }
                di += 1;
            }
            si += 1;
        }
        proof {
            assert forall|mv: Move|
                #[trigger] r@.contains(mv) == spec_possible_move(*self, color, mv) by {
                if spec_possible_move(*self, color, mv) {
                    match mv {
                        Move::SetMove { piece, destination } => {
                            let j = choose|j: int| 0 <= j < pool.len() && pool[j] == piece;
                            let i = self.board.idx_of(destination);
                            assert(fs[i].0 == destination);
                            assert(r@.contains(
                                Move::SetMove { piece: pool[j], destination: fs[i].0 },
                            ));
                        },
                        Move::DragMove { start, destination } => {
                            let j = self.board.idx_of(start);
                            let i = self.board.idx_of(destination);
                            assert(fs[j].0 == start && fs[i].0 == destination);
                            assert(r@.contains(
                                Move::DragMove { start: fs[j].0, destination: fs[i].0 },
                            ));
                        },
                    }
                }
            }
        }
        r
    }
}

} // verus!
