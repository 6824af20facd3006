use hive_engine::coords::AxialCoords;
use hive_engine::errors::DecodeError;
use hive_engine::pieces::{Piece, PieceType, PlayerColor};
use hive_engine::rules::{GameState, Move};
use hive_engine::text::{parse_bool, parse_i32, parse_u32, str_eq};
use hive_engine::board::Board;
use hive_engine::field::Field;
use hive_engine::xml_node::XmlNode;

fn attr(node: XmlNode, key: &str, value: &str) -> XmlNode {
    let mut n = node;
    n.attributes.push((key.to_string(), value.to_string()));
    n
}

fn elem(name: &str) -> XmlNode {
    XmlNode::new(name).build()
}

fn piece_xml(owner: &str, piece_type: &str) -> XmlNode {
    attr(attr(elem("piece"), "owner", owner), "type", piece_type)
}

fn field_xml(x: i32, y: i32, obstructed: bool, pieces: Vec<XmlNode>) -> XmlNode {
    let z = -x - y;
    let mut n = attr(
        attr(
            attr(
                attr(elem("field"), "x", &x.to_string()),
                "y",
                &y.to_string(),
            ),
            "z",
            &z.to_string(),
        ),
        "isObstructed",
        if obstructed { "true" } else { "false" },
    );
    n.childs = pieces;
    n
}

fn board_xml(fields: Vec<XmlNode>) -> XmlNode {
    let mut fields_elem = elem("fields");
    fields_elem.childs = fields;
    let mut board_elem = elem("board");
    board_elem.childs = vec![fields_elem];
    board_elem
}

fn player_xml(tag: &str, color: &str, name: &str) -> XmlNode {
    attr(attr(elem(tag), "color", color), "displayName", name)
}

fn pool_xml(tag: &str, pieces: Vec<XmlNode>) -> XmlNode {
    let mut n = elem(tag);
    n.childs = pieces;
    n
}

fn game_state_xml(turn: &str, fields: Vec<XmlNode>, red_pool: Vec<XmlNode>) -> XmlNode {
    let mut root = attr(
        attr(attr(elem("state"), "turn", turn), "startPlayerColor", "RED"),
        "currentPlayerColor",
        "BLUE",
    );
    root.childs = vec![
        player_xml("red", "RED", "Alice"),
        player_xml("blue", "BLUE", "Bob"),
        board_xml(fields),
        pool_xml("undeployedRedPieces", red_pool),
        pool_xml("undeployedBluePieces", vec![]),
    ];
    root
}

#[test]
fn text_helpers_parse_and_compare() {
    assert!(str_eq("hive", "hive"));
    assert!(!str_eq("hive", "hife"));
    assert!(!str_eq("hive", "hiv"));
    assert_eq!(parse_u32("42"), Some(42));
    assert_eq!(parse_u32("0"), Some(0));
    assert_eq!(parse_u32("4294967295"), Some(u32::MAX));
    assert_eq!(parse_u32("4294967296"), None);
    assert_eq!(parse_u32(""), None);
    assert_eq!(parse_u32("4x2"), None);
    assert_eq!(parse_i32("-7"), Some(-7));
    assert_eq!(parse_i32("2147483647"), Some(i32::MAX));
    assert_eq!(parse_i32("-2147483648"), Some(i32::MIN));
    assert_eq!(parse_i32("2147483648"), None);
    assert_eq!(parse_i32("-"), None);
    assert_eq!(parse_bool("true"), Some(true));
    assert_eq!(parse_bool("false"), Some(false));
    assert_eq!(parse_bool("maybe"), None);
}

#[test]
fn node_accessors_and_builder() {
    let n = XmlNode::new("tag")
        .data("text")
        .attribute("a".to_string(), "1".to_string())
        .attribute("a".to_string(), "2".to_string())
        .child(elem("kid"))
        .child(elem("other"))
        .child(elem("kid"))
        .build();
    assert_eq!(n.name(), "tag");
    assert_eq!(n.data(), "text");
    // A later entry for the same key replaces the earlier one.
    assert_eq!(n.attribute("a"), Ok("2"));
    match n.attribute("b") {
        Err(DecodeError::MissingAttribute { key, tag }) => {
            assert_eq!(key, "b");
            assert_eq!(tag, "tag");
        }
        other => panic!("expected a missing-attribute error, got {:?}", other),
    }
    assert_eq!(n.child_by_name("kid").unwrap().name(), "kid");
    match n.child_by_name("none") {
        Err(DecodeError::MissingChild { name, tag }) => {
            assert_eq!(name, "none");
            assert_eq!(tag, "tag");
        }
        other => panic!("expected a missing-child error, got {:?}", other),
    }
    assert_eq!(n.childs_by_name("kid").len(), 2);
    assert_eq!(n.childs_by_name("other").len(), 1);
    assert_eq!(n.childs_by_name("none").len(), 0);
}

#[test]
fn color_and_piece_type_strings_round_trip() {
    assert_eq!(PlayerColor::from_str("RED"), Ok(PlayerColor::Red));
    assert_eq!(PlayerColor::from_str("BLUE"), Ok(PlayerColor::Blue));
    assert!(matches!(
        PlayerColor::from_str("GREEN"),
        Err(DecodeError::BadColor { .. })
    ));
    assert_eq!(PlayerColor::Red.to_str(), "RED");
    assert_eq!(PlayerColor::Blue.to_str(), "BLUE");

    for (s, t) in [
        ("ANT", PieceType::Ant),
        ("BEE", PieceType::Bee),
        ("BEETLE", PieceType::Beetle),
        ("GRASSHOPPER", PieceType::Grasshopper),
        ("SPIDER", PieceType::Spider),
    ] {
        assert_eq!(PieceType::from_str(s), Ok(t));
        assert_eq!(t.to_str(), s);
    }
    assert!(matches!(
        PieceType::from_str("MOTH"),
        Err(DecodeError::BadPieceType { .. })
    ));
}

#[test]
fn decodes_a_full_game_state() {
    let root = game_state_xml(
        "6",
        vec![
            field_xml(0, 0, false, vec![piece_xml("RED", "BEE"), piece_xml("BLUE", "BEETLE")]),
            field_xml(1, 0, true, vec![]),
            field_xml(0, 1, false, vec![]),
        ],
        vec![piece_xml("RED", "ANT"), piece_xml("RED", "SPIDER")],
    );
    let gs = GameState::from_node(&root).expect("snapshot decodes");
    assert_eq!(gs.turn, 6);
    assert_eq!(gs.round(), 3);
    assert_eq!(gs.start_player_color, PlayerColor::Red);
    assert_eq!(gs.current_player_color, PlayerColor::Blue);
    assert_eq!(gs.player(PlayerColor::Red).display_name, "Alice");
    assert_eq!(gs.player(PlayerColor::Blue).display_name, "Bob");
    assert_eq!(
        gs.undeployed_pieces(PlayerColor::Red),
        &vec![
            Piece::new(PlayerColor::Red, PieceType::Ant),
            Piece::new(PlayerColor::Red, PieceType::Spider),
        ]
    );
    assert!(gs.undeployed_pieces(PlayerColor::Blue).is_empty());

    let stacked = gs.board.field(AxialCoords::new(0, 0)).expect("present");
    assert_eq!(
        stacked.piece_stack(),
        &vec![
            Piece::new(PlayerColor::Red, PieceType::Bee),
            Piece::new(PlayerColor::Blue, PieceType::Beetle),
        ]
    );
    assert_eq!(stacked.owner(), Some(PlayerColor::Blue));
    assert!(gs.board.field(AxialCoords::new(1, 0)).expect("present").is_occupied());
    assert!(!gs.board.field(AxialCoords::new(0, 1)).expect("present").has_pieces());
    assert!(!gs.board.contains_coords(AxialCoords::new(2, 0)));
    assert!(gs.board.has_placed_bee(PlayerColor::Red));
    assert!(!gs.board.has_placed_bee(PlayerColor::Blue));
}

#[test]
fn decode_rejects_malformed_documents() {
    // Missing turn attribute.
    let mut root = game_state_xml("6", vec![], vec![]);
    root.attributes.retain(|(k, _)| k != "turn");
    assert!(matches!(
        GameState::from_node(&root),
        Err(DecodeError::MissingAttribute { .. })
    ));

    // Unparseable turn.
    let root = game_state_xml("six", vec![], vec![]);
    assert!(matches!(
        GameState::from_node(&root),
        Err(DecodeError::BadNumber { .. })
    ));

    // Unknown color.
    let mut root = game_state_xml("6", vec![], vec![]);
    root.attributes.retain(|(k, _)| k != "startPlayerColor");
    root.attributes.push(("startPlayerColor".to_string(), "PINK".to_string()));
    assert!(matches!(
        GameState::from_node(&root),
        Err(DecodeError::BadColor { .. })
    ));

    // Missing board child.
    let mut root = game_state_xml("6", vec![], vec![]);
    root.childs.retain(|c| c.name() != "board");
    assert!(matches!(
        GameState::from_node(&root),
        Err(DecodeError::MissingChild { .. })
    ));

    // Unparseable obstruction flag.
    let bad_field = attr(
        attr(attr(attr(elem("field"), "x", "0"), "y", "0"), "z", "0"),
        "isObstructed",
        "TRUE",
    );
    let root = game_state_xml("6", vec![bad_field], vec![]);
    assert!(matches!(
        GameState::from_node(&root),
        Err(DecodeError::BadBool { .. })
    ));

    // Unparseable coordinate.
    let bad_coord = attr(
        attr(attr(attr(elem("field"), "x", "a"), "y", "0"), "z", "0"),
        "isObstructed",
        "false",
    );
    let root = game_state_xml("6", vec![bad_coord], vec![]);
    assert!(matches!(
        GameState::from_node(&root),
        Err(DecodeError::BadNumber { .. })
    ));

    // A coordinate beyond the engine's range.
    let far_field = attr(
        attr(
            attr(attr(elem("field"), "x", "2000000"), "y", "0"),
            "z",
            "-2000000",
        ),
        "isObstructed",
        "false",
    );
    let root = game_state_xml("6", vec![far_field], vec![]);
    assert!(matches!(
        GameState::from_node(&root),
        Err(DecodeError::CoordOutOfRange { .. })
    ));

    // An unknown piece type inside a field.
    let root = game_state_xml(
        "6",
        vec![field_xml(0, 0, false, vec![piece_xml("RED", "MOTH")])],
        vec![],
    );
    assert!(matches!(
        GameState::from_node(&root),
        Err(DecodeError::BadPieceType { .. })
    ));
}

#[test]
fn later_field_entry_for_same_coordinate_wins() {
    let root = game_state_xml(
        "0",
        vec![
            field_xml(0, 0, false, vec![piece_xml("RED", "BEE")]),
            field_xml(0, 0, false, vec![]),
        ],
        vec![],
    );
    let gs = GameState::from_node(&root).expect("snapshot decodes");
    assert!(!gs.board.field(AxialCoords::new(0, 0)).expect("present").has_pieces());
}

#[test]
fn encodes_a_set_move() {
    let mv = Move::SetMove {
        piece: Piece::new(PlayerColor::Red, PieceType::Ant),
        destination: AxialCoords::new(2, -1),
    };
    let n = mv.to_xml();
    assert_eq!(n.name(), "setmove");
    assert_eq!(n.childs.len(), 2);
    let piece_node = &n.childs[0];
    assert_eq!(piece_node.name(), "piece");
    assert_eq!(piece_node.attribute("owner"), Ok("RED"));
    assert_eq!(piece_node.attribute("type"), Ok("ANT"));
    let dest = &n.childs[1];
    assert_eq!(dest.name(), "destination");
    assert_eq!(dest.attribute("x"), Ok("2"));
    assert_eq!(dest.attribute("y"), Ok("-1"));
    assert_eq!(dest.attribute("z"), Ok("-1"));
}

#[test]
fn encodes_a_drag_move() {
    let mv = Move::DragMove {
        start: AxialCoords::new(0, 0),
        destination: AxialCoords::new(1, 1),
    };
    let n = mv.to_xml();
    assert_eq!(n.name(), "dragmove");
    assert_eq!(n.childs.len(), 2);
    assert_eq!(n.childs[0].name(), "start");
    assert_eq!(n.childs[0].attribute("x"), Ok("0"));
    assert_eq!(n.childs[0].attribute("z"), Ok("0"));
    assert_eq!(n.childs[1].name(), "destination");
    assert_eq!(n.childs[1].attribute("x"), Ok("1"));
    assert_eq!(n.childs[1].attribute("y"), Ok("1"));
    assert_eq!(n.childs[1].attribute("z"), Ok("-2"));
}

#[test]
fn decoded_board_supports_validation() {
    // The decoded snapshot feeds the validator directly: a red bee may
    // step beside its own hive.
    let root = game_state_xml(
        "4",
        vec![
            field_xml(0, 0, false, vec![piece_xml("RED", "BEE")]),
            field_xml(1, 0, false, vec![]),
            field_xml(0, 1, false, vec![]),
            field_xml(-1, 0, false, vec![]),
            field_xml(0, -1, false, vec![]),
            field_xml(-1, 1, false, vec![]),
            field_xml(1, -1, false, vec![]),
        ],
        vec![],
    );
    let gs = GameState::from_node(&root).expect("snapshot decodes");
    let verdict = gs.validate_move(
        PlayerColor::Red,
        Move::DragMove { start: AxialCoords::new(0, 0), destination: AxialCoords::new(1, 0) },
    );
    assert_eq!(verdict, Ok(()));
}

#[test]
fn board_from_entries_checks_the_range() {
    let entries = vec![(AxialCoords::new(2_000_000, 0), Field::new(vec![], false))];
    assert!(Board::new(entries).is_none());
    let fine = vec![(AxialCoords::new(0, 0), Field::new(vec![], false))];
    assert!(Board::new(fine).is_some());
}
