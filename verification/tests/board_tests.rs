use hive_engine::board::Board;
use hive_engine::coords::AxialCoords;
use hive_engine::field::Field;
use hive_engine::pieces::{Piece, PieceType, PlayerColor};

fn piece(owner: PlayerColor, piece_type: PieceType) -> Piece {
    Piece::new(owner, piece_type)
}

/// Builds a symmetric hex board of the given radius, with the given
/// occupied cells (each holding one stack, bottom first) and obstructed
/// cells.
fn hex_board(
    radius: i32,
    occupied: &[((i32, i32), Vec<Piece>)],
    obstructed: &[(i32, i32)],
) -> Board {
    let mut entries = Vec::new();
    for x in -radius..=radius {
        for y in -radius..=radius {
            if (x + y).abs() <= radius {
                let mut stack = Vec::new();
                for ((ox, oy), ps) in occupied {
                    if *ox == x && *oy == y {
                        stack = ps.clone();
                    }
                }
                let obs = obstructed.contains(&(x, y));
                entries.push((AxialCoords::new(x, y), Field::new(stack, obs)));
            }
        }
    }
    Board::new(entries).expect("coordinates are in range")
}

#[test]
fn field_lookup_and_occupancy() {
    let red_bee = piece(PlayerColor::Red, PieceType::Bee);
    let b = hex_board(2, &[((0, 0), vec![red_bee])], &[(1, 0)]);
    assert!(b.contains_coords(AxialCoords::new(0, 0)));
    assert!(!b.contains_coords(AxialCoords::new(9, 9)));

    let f = b.field(AxialCoords::new(0, 0)).expect("on board");
    assert_eq!(f.piece(), Some(red_bee));
    assert_eq!(f.owner(), Some(PlayerColor::Red));
    assert!(f.is_owned_by(PlayerColor::Red));
    assert!(!f.is_owned_by(PlayerColor::Blue));
    assert!(f.has_pieces());
    assert_eq!(f.piece_stack(), &vec![red_bee]);

    assert!(b.is_occupied(AxialCoords::new(0, 0)));
    assert!(b.is_occupied(AxialCoords::new(1, 0)));
    assert!(b.is_occupied(AxialCoords::new(9, 9)));
    assert!(!b.is_occupied(AxialCoords::new(0, 1)));
}

#[test]
fn field_push_and_pop() {
    let red_bee = piece(PlayerColor::Red, PieceType::Bee);
    let blue_beetle = piece(PlayerColor::Blue, PieceType::Beetle);
    let mut f = Field::new(vec![red_bee], false);
    f.push(blue_beetle);
    assert_eq!(f.owner(), Some(PlayerColor::Blue));
    assert_eq!(f.pop(), Some(blue_beetle));
    assert_eq!(f.pop(), Some(red_bee));
    assert_eq!(f.pop(), None);
    assert!(!f.is_occupied());
}

#[test]
fn neighbors_are_clipped_at_the_edge() {
    let b = hex_board(1, &[], &[]);
    assert_eq!(b.neighbors(AxialCoords::new(0, 0)).len(), 6);
    assert_eq!(b.neighbors(AxialCoords::new(1, 0)).len(), 3);
}

#[test]
fn placed_bee_is_found_anywhere_in_a_stack() {
    let red_bee = piece(PlayerColor::Red, PieceType::Bee);
    let blue_beetle = piece(PlayerColor::Blue, PieceType::Beetle);
    let b = hex_board(2, &[((0, 0), vec![red_bee, blue_beetle])], &[]);
    assert!(b.has_placed_bee(PlayerColor::Red));
    assert!(!b.has_placed_bee(PlayerColor::Blue));
}

#[test]
fn next_to_queries() {
    let red_bee = piece(PlayerColor::Red, PieceType::Bee);
    let b = hex_board(2, &[((0, 0), vec![red_bee])], &[]);
    assert!(b.is_next_to(PlayerColor::Red, AxialCoords::new(1, 0)));
    assert!(!b.is_next_to(PlayerColor::Blue, AxialCoords::new(1, 0)));
    assert!(!b.is_next_to(PlayerColor::Red, AxialCoords::new(2, 0)));
    assert!(b.is_next_to_piece(AxialCoords::new(0, 1)));
    assert!(!b.is_next_to_piece(AxialCoords::new(2, -2)));
}

#[test]
fn fields_owned_by_reports_top_ownership() {
    let red_bee = piece(PlayerColor::Red, PieceType::Bee);
    let blue_beetle = piece(PlayerColor::Blue, PieceType::Beetle);
    let blue_ant = piece(PlayerColor::Blue, PieceType::Ant);
    let b = hex_board(
        2,
        &[((0, 0), vec![red_bee, blue_beetle]), ((1, 0), vec![blue_ant])],
        &[],
    );
    let red_fields = b.fields_owned_by(PlayerColor::Red);
    assert!(red_fields.is_empty());
    let blue_fields = b.fields_owned_by(PlayerColor::Blue);
    let mut keys: Vec<(i32, i32)> = blue_fields.iter().map(|(c, _)| (c.x, c.y)).collect();
    keys.sort();
    assert_eq!(keys, vec![(0, 0), (1, 0)]);
}

#[test]
fn single_gate_passable_regardless_of_gate_occupancy() {
    // On a radius-1 board the cells (1, 0) and (0, 1) share only the
    // center as an on-board gate: passage stays open even when the
    // center is obstructed, as long as one endpoint holds a piece.
    let red_bee = piece(PlayerColor::Red, PieceType::Bee);
    let open_center = hex_board(1, &[((1, 0), vec![red_bee])], &[]);
    assert!(open_center.can_move_between(AxialCoords::new(1, 0), AxialCoords::new(0, 1)));
    let blocked_center = hex_board(1, &[((1, 0), vec![red_bee])], &[(0, 0)]);
    assert!(blocked_center.can_move_between(AxialCoords::new(1, 0), AxialCoords::new(0, 1)));
}

#[test]
fn two_obstructed_gates_squeeze_passage_shut() {
    let red_bee = piece(PlayerColor::Red, PieceType::Bee);
    let both_blocked = hex_board(2, &[((0, 0), vec![red_bee])], &[(0, 1), (1, -1)]);
    assert!(!both_blocked.can_move_between(AxialCoords::new(0, 0), AxialCoords::new(1, 0)));
    let one_open = hex_board(2, &[((0, 0), vec![red_bee])], &[(0, 1)]);
    assert!(one_open.can_move_between(AxialCoords::new(0, 0), AxialCoords::new(1, 0)));
}

#[test]
fn sliding_needs_a_piece_on_one_endpoint() {
    // Both gates of the pair are free, but neither endpoint holds a
    // piece, so no piece can be sliding there at all.
    let red_bee = piece(PlayerColor::Red, PieceType::Bee);
    let b = hex_board(2, &[((-2, 0), vec![red_bee])], &[]);
    assert!(!b.can_move_between(AxialCoords::new(0, 0), AxialCoords::new(1, 0)));
}

#[test]
fn empty_swarm_is_connected() {
    let b = hex_board(2, &[], &[]);
    assert!(b.is_swarm_connected());
}

#[test]
fn connected_blob_is_connected() {
    let red_bee = piece(PlayerColor::Red, PieceType::Bee);
    let red_ant = piece(PlayerColor::Red, PieceType::Ant);
    let blue_ant = piece(PlayerColor::Blue, PieceType::Ant);
    let b = hex_board(
        2,
        &[
            ((0, 0), vec![red_bee]),
            ((1, 0), vec![red_ant]),
            ((1, 1), vec![blue_ant]),
        ],
        &[],
    );
    assert!(b.is_swarm_connected());
}

#[test]
fn split_clusters_are_not_connected() {
    let red_bee = piece(PlayerColor::Red, PieceType::Bee);
    let blue_ant = piece(PlayerColor::Blue, PieceType::Ant);
    let b = hex_board(
        2,
        &[((-2, 0), vec![red_bee]), ((2, 0), vec![blue_ant])],
        &[],
    );
    assert!(!b.is_swarm_connected());
}

#[test]
fn boundary_path_follows_accessible_neighbors() {
    let red_bee = piece(PlayerColor::Red, PieceType::Bee);
    let red_ant = piece(PlayerColor::Red, PieceType::Ant);
    let b = hex_board(
        3,
        &[((0, 0), vec![red_ant]), ((1, 0), vec![red_bee])],
        &[],
    );
    assert!(b.connected_by_boundary_path(AxialCoords::new(0, 0), AxialCoords::new(0, 1)));
    assert!(b.connected_by_boundary_path(AxialCoords::new(0, 0), AxialCoords::new(2, 0)));
    // A cell with no occupied cell anywhere near it cannot be the end
    // of a slide.
    assert!(!b.connected_by_boundary_path(AxialCoords::new(0, 0), AxialCoords::new(-3, 0)));
    // An off-board start reaches nothing.
    assert!(!b.connected_by_boundary_path(AxialCoords::new(9, 9), AxialCoords::new(0, 0)));
}

#[test]
fn shared_neighbors_and_accessible_neighbors() {
    let red_bee = piece(PlayerColor::Red, PieceType::Bee);
    let b = hex_board(2, &[((0, 0), vec![red_bee])], &[]);
    let shared = b.shared_neighbors(AxialCoords::new(0, 0), AxialCoords::new(1, 0));
    let mut keys: Vec<(i32, i32)> = shared.iter().map(|(c, _)| (c.x, c.y)).collect();
    keys.sort();
    assert_eq!(keys, vec![(0, 1), (1, -1)]);

    let acc = b.accessible_neighbors(AxialCoords::new(0, 0));
    assert_eq!(acc.len(), 6);
    let none = b.accessible_neighbors(AxialCoords::new(-2, 2));
    assert!(none.is_empty());
}
