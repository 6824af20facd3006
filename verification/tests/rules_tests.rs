use hive_engine::board::Board;
use hive_engine::coords::AxialCoords;
use hive_engine::errors::RuleViolation;
use hive_engine::field::Field;
use hive_engine::pieces::{Piece, PieceType, Player, PlayerColor};
use hive_engine::rules::{GameState, Move};

fn piece(owner: PlayerColor, piece_type: PieceType) -> Piece {
    Piece::new(owner, piece_type)
}

fn at(x: i32, y: i32) -> AxialCoords {
    AxialCoords::new(x, y)
}

fn hex_board(
    radius: i32,
    occupied: &[((i32, i32), Vec<Piece>)],
    obstructed: &[(i32, i32)],
) -> Board {
    let mut entries = Vec::new();
    for x in -radius..=radius {
        for y in -radius..=radius {
            if (x + y).abs() <= radius {
                let mut stack = Vec::new();
                for ((ox, oy), ps) in occupied {
                    if *ox == x && *oy == y {
                        stack = ps.clone();
                    }
                }
                let obs = obstructed.contains(&(x, y));
                entries.push((AxialCoords::new(x, y), Field::new(stack, obs)));
            }
        }
    }
    Board::new(entries).expect("coordinates are in range")
}

fn state(turn: u32, board: Board, red_pool: Vec<Piece>, blue_pool: Vec<Piece>) -> GameState {
    GameState::new(
        turn,
        PlayerColor::Red,
        PlayerColor::Red,
        board,
        Player { color: PlayerColor::Red, display_name: "red".to_string() },
        Player { color: PlayerColor::Blue, display_name: "blue".to_string() },
        red_pool,
        blue_pool,
    )
}

fn set_move(p: Piece, x: i32, y: i32) -> Move {
    Move::SetMove { piece: p, destination: at(x, y) }
}

fn drag_move(sx: i32, sy: i32, dx: i32, dy: i32) -> Move {
    Move::DragMove { start: at(sx, sy), destination: at(dx, dy) }
}

#[test]
fn getters_report_the_snapshot() {
    let red_bee = piece(PlayerColor::Red, PieceType::Bee);
    let gs = state(7, hex_board(1, &[], &[]), vec![red_bee], vec![]);
    assert_eq!(gs.round(), 3);
    assert_eq!(gs.undeployed_pieces(PlayerColor::Red), &vec![red_bee]);
    assert!(gs.undeployed_pieces(PlayerColor::Blue).is_empty());
    assert_eq!(gs.player(PlayerColor::Red).display_name, "red");
    assert_eq!(gs.player(PlayerColor::Blue).color, PlayerColor::Blue);
}

#[test]
fn set_move_rejected_off_board_at_any_turn() {
    let red_ant = piece(PlayerColor::Red, PieceType::Ant);
    for turn in [0u32, 1, 5, 6, 40] {
        let gs = state(turn, hex_board(1, &[], &[]), vec![red_ant], vec![]);
        assert_eq!(
            gs.validate_move(PlayerColor::Red, set_move(red_ant, 5, 5)),
            Err(RuleViolation::DestinationOutOfBounds { destination: at(5, 5) })
        );
    }
}

#[test]
fn set_move_rejected_on_obstructed_field_at_any_turn() {
    let red_ant = piece(PlayerColor::Red, PieceType::Ant);
    for turn in [0u32, 3, 6] {
        let gs = state(turn, hex_board(1, &[], &[(0, 0)]), vec![red_ant], vec![]);
        assert_eq!(
            gs.validate_move(PlayerColor::Red, set_move(red_ant, 0, 0)),
            Err(RuleViolation::DestinationObstructed { destination: at(0, 0) })
        );
    }
}

#[test]
fn first_placement_on_empty_board_is_free() {
    let red_ant = piece(PlayerColor::Red, PieceType::Ant);
    let gs = state(0, hex_board(1, &[], &[]), vec![red_ant], vec![]);
    assert_eq!(gs.validate_move(PlayerColor::Red, set_move(red_ant, 1, 0)), Ok(()));
}

#[test]
fn second_color_must_touch_the_opponent() {
    let red_bee = piece(PlayerColor::Red, PieceType::Bee);
    let blue_ant = piece(PlayerColor::Blue, PieceType::Ant);
    let board = hex_board(2, &[((0, 0), vec![red_bee])], &[]);
    let gs = state(1, board, vec![], vec![blue_ant]);
    assert_eq!(gs.validate_move(PlayerColor::Blue, set_move(blue_ant, 1, 0)), Ok(()));
    assert_eq!(
        gs.validate_move(PlayerColor::Blue, set_move(blue_ant, 2, 0)),
        Err(RuleViolation::NotNextToOpponent { destination: at(2, 0) })
    );
}

#[test]
fn bee_deadline_blocks_other_pieces_in_round_three() {
    let red_grasshopper = piece(PlayerColor::Red, PieceType::Grasshopper);
    let red_ant = piece(PlayerColor::Red, PieceType::Ant);
    let red_bee = piece(PlayerColor::Red, PieceType::Bee);
    let blue_ant = piece(PlayerColor::Blue, PieceType::Ant);
    let board = hex_board(
        3,
        &[((0, 0), vec![red_grasshopper]), ((2, 0), vec![blue_ant])],
        &[],
    );
    let gs = state(6, board, vec![red_ant, red_bee], vec![]);
    assert_eq!(gs.round(), 3);
    assert_eq!(
        gs.validate_move(PlayerColor::Red, set_move(red_ant, -1, 0)),
        Err(RuleViolation::BeeDeadlineMissed { color: PlayerColor::Red })
    );
    assert_eq!(gs.validate_move(PlayerColor::Red, set_move(red_bee, -1, 0)), Ok(()));
}

#[test]
fn placement_needs_an_undeployed_piece() {
    let red_bee = piece(PlayerColor::Red, PieceType::Bee);
    let red_spider = piece(PlayerColor::Red, PieceType::Spider);
    let board = hex_board(2, &[((0, 0), vec![red_bee])], &[]);
    let gs = state(2, board, vec![], vec![]);
    assert_eq!(
        gs.validate_move(PlayerColor::Red, set_move(red_spider, -1, 0)),
        Err(RuleViolation::PieceNotUndeployed { piece: red_spider })
    );
}

#[test]
fn placement_must_touch_own_color_only() {
    let red_bee = piece(PlayerColor::Red, PieceType::Bee);
    let blue_bee = piece(PlayerColor::Blue, PieceType::Bee);
    let red_ant = piece(PlayerColor::Red, PieceType::Ant);
    let board = hex_board(
        3,
        &[((0, 0), vec![red_bee]), ((2, 0), vec![blue_bee])],
        &[],
    );
    let gs = state(4, board, vec![red_ant], vec![]);
    assert_eq!(gs.validate_move(PlayerColor::Red, set_move(red_ant, -1, 0)), Ok(()));
    assert_eq!(
        gs.validate_move(PlayerColor::Red, set_move(red_ant, 3, 0)),
        Err(RuleViolation::NotNextToOwnPiece { destination: at(3, 0) })
    );
    assert_eq!(
        gs.validate_move(PlayerColor::Red, set_move(red_ant, 1, 0)),
        Err(RuleViolation::NextToOpponentPiece { destination: at(1, 0) })
    );
}

#[test]
fn drag_needs_the_bee_on_the_board() {
    let red_ant = piece(PlayerColor::Red, PieceType::Ant);
    let board = hex_board(2, &[((0, 0), vec![red_ant])], &[]);
    let gs = state(4, board, vec![], vec![]);
    assert_eq!(
        gs.validate_move(PlayerColor::Red, drag_move(0, 0, 0, 1)),
        Err(RuleViolation::BeeNotYetPlaced { color: PlayerColor::Red })
    );
}

#[test]
fn drag_start_and_destination_must_be_on_board() {
    let red_bee = piece(PlayerColor::Red, PieceType::Bee);
    let board = hex_board(1, &[((0, 0), vec![red_bee])], &[]);
    let gs = state(4, board, vec![], vec![]);
    assert_eq!(
        gs.validate_move(PlayerColor::Red, drag_move(5, 5, 0, 1)),
        Err(RuleViolation::StartOutOfBounds { start: at(5, 5) })
    );
    assert_eq!(
        gs.validate_move(PlayerColor::Red, drag_move(0, 0, 5, 5)),
        Err(RuleViolation::DestinationOutOfBounds { destination: at(5, 5) })
    );
}

#[test]
fn drag_needs_an_own_top_piece_and_a_real_move() {
    let red_bee = piece(PlayerColor::Red, PieceType::Bee);
    let blue_ant = piece(PlayerColor::Blue, PieceType::Ant);
    let board = hex_board(
        2,
        &[((0, 0), vec![red_bee]), ((1, 0), vec![blue_ant])],
        &[],
    );
    let gs = state(4, board, vec![], vec![]);
    assert_eq!(
        gs.validate_move(PlayerColor::Red, drag_move(0, 1, 0, 0)),
        Err(RuleViolation::NoPieceToMove { start: at(0, 1) })
    );
    assert_eq!(
        gs.validate_move(PlayerColor::Red, drag_move(1, 0, 2, 0)),
        Err(RuleViolation::WrongMover { start: at(1, 0), color: PlayerColor::Red })
    );
    assert_eq!(
        gs.validate_move(PlayerColor::Red, drag_move(0, 0, 0, 0)),
        Err(RuleViolation::StartEqualsDestination { start: at(0, 0) })
    );
}

#[test]
fn only_a_beetle_may_climb() {
    let red_bee = piece(PlayerColor::Red, PieceType::Bee);
    let red_beetle = piece(PlayerColor::Red, PieceType::Beetle);
    let blue_ant = piece(PlayerColor::Blue, PieceType::Ant);
    let board = hex_board(
        2,
        &[
            ((0, 0), vec![red_bee]),
            ((1, 0), vec![blue_ant]),
            ((0, 1), vec![red_beetle]),
        ],
        &[],
    );
    let gs = state(8, board, vec![], vec![]);
    assert_eq!(
        gs.validate_move(PlayerColor::Red, drag_move(0, 0, 1, 0)),
        Err(RuleViolation::CannotClimb { destination: at(1, 0) })
    );
    assert_eq!(gs.validate_move(PlayerColor::Red, drag_move(0, 1, 1, 0)), Ok(()));
}

#[test]
fn dragging_a_cut_piece_would_disconnect_the_swarm() {
    let red_bee = piece(PlayerColor::Red, PieceType::Bee);
    let red_ant = piece(PlayerColor::Red, PieceType::Ant);
    let blue_ant = piece(PlayerColor::Blue, PieceType::Ant);
    let board = hex_board(
        3,
        &[
            ((0, 0), vec![red_bee]),
            ((1, 0), vec![red_ant]),
            ((2, 0), vec![blue_ant]),
        ],
        &[],
    );
    let gs = state(8, board, vec![], vec![]);
    assert_eq!(
        gs.validate_move(PlayerColor::Red, drag_move(1, 0, 0, 1)),
        Err(RuleViolation::SwarmWouldDisconnect { start: at(1, 0) })
    );
}

#[test]
fn bee_steps_one_cell_and_may_be_squeezed() {
    let red_bee = piece(PlayerColor::Red, PieceType::Bee);
    let board = hex_board(2, &[((0, 0), vec![red_bee])], &[]);
    let gs = state(4, board, vec![], vec![]);
    assert_eq!(gs.validate_move(PlayerColor::Red, drag_move(0, 0, 1, 0)), Ok(()));
    assert_eq!(
        gs.validate_move(PlayerColor::Red, drag_move(0, 0, 2, 0)),
        Err(RuleViolation::NotAdjacent { start: at(0, 0), destination: at(2, 0) })
    );

    let squeezed_board = hex_board(2, &[((0, 0), vec![red_bee])], &[(0, 1), (1, -1)]);
    let gs2 = state(4, squeezed_board, vec![], vec![]);
    assert_eq!(
        gs2.validate_move(PlayerColor::Red, drag_move(0, 0, 1, 0)),
        Err(RuleViolation::Squeezed { start: at(0, 0), destination: at(1, 0) })
    );
}

#[test]
fn beetle_must_stay_on_the_swarm() {
    let red_bee = piece(PlayerColor::Red, PieceType::Bee);
    let red_beetle = piece(PlayerColor::Red, PieceType::Beetle);
    let board = hex_board(
        3,
        &[((0, 0), vec![red_beetle]), ((3, 0), vec![red_bee])],
        &[],
    );
    let gs = state(8, board, vec![], vec![]);
    assert_eq!(
        gs.validate_move(PlayerColor::Red, drag_move(0, 0, 0, 1)),
        Err(RuleViolation::BeetleNotOnSwarm { start: at(0, 0), destination: at(0, 1) })
    );

    let hugging = hex_board(
        3,
        &[((0, 0), vec![red_beetle]), ((1, 0), vec![red_bee])],
        &[],
    );
    let gs2 = state(8, hugging, vec![], vec![]);
    // Moving to (0, 1) keeps the shared gate cell (1, 0) occupied.
    assert_eq!(gs2.validate_move(PlayerColor::Red, drag_move(0, 0, 0, 1)), Ok(()));
}

#[test]
fn grasshopper_hops_a_contiguous_occupied_run() {
    let red_grasshopper = piece(PlayerColor::Red, PieceType::Grasshopper);
    let red_bee = piece(PlayerColor::Red, PieceType::Bee);
    let blue_ant = piece(PlayerColor::Blue, PieceType::Ant);
    let full_run = hex_board(
        3,
        &[
            ((0, 0), vec![red_grasshopper]),
            ((1, 0), vec![blue_ant]),
            ((2, 0), vec![blue_ant]),
            ((1, 1), vec![red_bee]),
        ],
        &[],
    );
    let gs = state(8, full_run, vec![], vec![]);
    assert_eq!(gs.validate_move(PlayerColor::Red, drag_move(0, 0, 3, 0)), Ok(()));

    let gap_at_first = hex_board(
        3,
        &[
            ((0, 0), vec![red_grasshopper]),
            ((2, 0), vec![blue_ant]),
            ((1, 1), vec![red_bee]),
        ],
        &[],
    );
    let gs2 = state(8, gap_at_first, vec![], vec![]);
    assert_eq!(
        gs2.validate_move(PlayerColor::Red, drag_move(0, 0, 3, 0)),
        Err(RuleViolation::HopsOverEmpty { start: at(0, 0), destination: at(3, 0) })
    );

    let gap_at_second = hex_board(
        3,
        &[
            ((0, 0), vec![red_grasshopper]),
            ((1, 0), vec![blue_ant]),
            ((1, 1), vec![red_bee]),
        ],
        &[],
    );
    let gs3 = state(8, gap_at_second, vec![], vec![]);
    assert_eq!(
        gs3.validate_move(PlayerColor::Red, drag_move(0, 0, 3, 0)),
        Err(RuleViolation::HopsOverEmpty { start: at(0, 0), destination: at(3, 0) })
    );

    // An obstructed cell with an empty stack is still an empty cell:
    // the grasshopper may only hop pieces, so the jump fails.
    let obstructed_gap = hex_board(
        3,
        &[
            ((0, 0), vec![red_grasshopper]),
            ((1, 0), vec![blue_ant]),
            ((1, 1), vec![red_bee]),
        ],
        &[(2, 0)],
    );
    let gs4 = state(8, obstructed_gap, vec![], vec![]);
    assert_eq!(
        gs4.validate_move(PlayerColor::Red, drag_move(0, 0, 3, 0)),
        Err(RuleViolation::HopsOverEmpty { start: at(0, 0), destination: at(3, 0) })
    );
}

#[test]
fn grasshopper_must_jump_along_a_line() {
    let red_grasshopper = piece(PlayerColor::Red, PieceType::Grasshopper);
    let red_bee = piece(PlayerColor::Red, PieceType::Bee);
    let board = hex_board(
        3,
        &[((0, 0), vec![red_grasshopper]), ((1, 0), vec![red_bee])],
        &[],
    );
    let gs = state(8, board, vec![], vec![]);
    assert_eq!(
        gs.validate_move(PlayerColor::Red, drag_move(0, 0, 1, 1)),
        Err(RuleViolation::NotInLine { start: at(0, 0), destination: at(1, 1) })
    );
    assert_eq!(
        gs.validate_move(PlayerColor::Red, drag_move(0, 0, 0, 1)),
        Err(RuleViolation::MustJump { start: at(0, 0), destination: at(0, 1) })
    );
}

#[test]
fn ant_reaches_along_the_boundary_and_fails_when_cut_off() {
    let red_ant = piece(PlayerColor::Red, PieceType::Ant);
    let red_bee = piece(PlayerColor::Red, PieceType::Bee);
    let open = hex_board(
        3,
        &[((0, 0), vec![red_ant]), ((1, 0), vec![red_bee])],
        &[],
    );
    let gs = state(8, open, vec![], vec![]);
    assert_eq!(gs.validate_move(PlayerColor::Red, drag_move(0, 0, 2, 0)), Ok(()));

    // Obstructing every gate around the bee cuts the only route that
    // passes a piece, so the far side becomes unreachable.
    let cut = hex_board(
        3,
        &[((0, 0), vec![red_ant]), ((1, 0), vec![red_bee])],
        &[(0, 1), (1, -1), (1, 1), (2, -1)],
    );
    let gs2 = state(8, cut, vec![], vec![]);
    assert_eq!(
        gs2.validate_move(PlayerColor::Red, drag_move(0, 0, 2, 0)),
        Err(RuleViolation::NoBoundaryPath { start: at(0, 0), destination: at(2, 0) })
    );
}

#[test]
fn spider_walks_exactly_three_fresh_hops() {
    let red_spider = piece(PlayerColor::Red, PieceType::Spider);
    let red_bee = piece(PlayerColor::Red, PieceType::Bee);
    let board = hex_board(
        3,
        &[((0, 0), vec![red_spider]), ((1, 0), vec![red_bee])],
        &[],
    );
    let gs = state(8, board, vec![], vec![]);
    assert_eq!(gs.validate_move(PlayerColor::Red, drag_move(0, 0, 2, 0)), Ok(()));
    // No third hop can land on (3, 0): its only occupied-adjacent cell
    // is too far from the start.
    assert_eq!(
        gs.validate_move(PlayerColor::Red, drag_move(0, 0, 3, 0)),
        Err(RuleViolation::NoSpiderPath { start: at(0, 0), destination: at(3, 0) })
    );
}

#[test]
fn possible_moves_enumerates_every_legal_placement() {
    let red_bee = piece(PlayerColor::Red, PieceType::Bee);
    let gs = state(0, hex_board(1, &[], &[]), vec![red_bee], vec![]);
    let moves = gs.possible_moves(PlayerColor::Red);
    // An empty radius-1 board has seven cells, every one a legal first
    // placement; there is nothing to drag.
    assert_eq!(moves.len(), 7);
    for mv in &moves {
        assert!(matches!(mv, Move::SetMove { .. }));
        assert_eq!(gs.validate_move(PlayerColor::Red, *mv), Ok(()));
    }
    assert!(moves.contains(&set_move(red_bee, 0, 0)));
    assert!(moves.contains(&set_move(red_bee, 1, -1)));
}

#[test]
fn possible_moves_lists_each_move_once_despite_a_duplicated_pool() {
    let red_ant = piece(PlayerColor::Red, PieceType::Ant);
    let gs = state(0, hex_board(1, &[], &[]), vec![red_ant, red_ant], vec![]);
    let moves = gs.possible_moves(PlayerColor::Red);
    // Two equal ants in the pool still yield one placement per cell.
    assert_eq!(moves.len(), 7);
    for (i, a) in moves.iter().enumerate() {
        for b in &moves[i + 1..] {
            assert_ne!(a, b);
        }
    }
}

#[test]
fn possible_moves_includes_legal_drags() {
    let red_bee = piece(PlayerColor::Red, PieceType::Bee);
    let red_ant = piece(PlayerColor::Red, PieceType::Ant);
    let board = hex_board(
        2,
        &[((0, 0), vec![red_ant]), ((1, 0), vec![red_bee])],
        &[],
    );
    let gs = state(8, board, vec![], vec![]);
    let moves = gs.possible_moves(PlayerColor::Red);
    assert!(moves.contains(&drag_move(0, 0, 2, 0)));
    assert!(!moves.contains(&drag_move(0, 0, 0, 0)));
    for mv in &moves {
        assert_eq!(gs.validate_move(PlayerColor::Red, *mv), Ok(()));
    }
}
