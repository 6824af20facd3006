//! The boundary with the wire codec: constructing a game-state
//! snapshot from a decoded labelled tree, and encoding a chosen move
//! into such a tree.  The tree parser and printer themselves live
//! outside the engine.

use vstd::prelude::*;
use crate::board::Board;
use crate::coords::{in_coord_range, spec_to_cube, AxialCoords, CubeCoords, COORD_LIMIT};
use crate::errors::DecodeError;
use crate::field::{Field, FieldModel};
use crate::pieces::{Piece, PieceType, Player, PlayerColor};
use crate::rules::{GameState, Move};
use crate::text::{i32_to_string, parse_bool, parse_i32, parse_i32_spec, parse_u32, parse_u32_spec, str_eq};
use crate::xml_node::{attr_lookup, children_named, first_child_named, FromXmlNode, XmlNode};

verus! {

/// The color a wire string denotes, if any.
pub open spec fn spec_parse_color(s: Seq<char>) -> Option<PlayerColor> {
    if s == "RED"@ {
        Some(PlayerColor::Red)
    } else if s == "BLUE"@ {
        Some(PlayerColor::Blue)
    } else {
        None
    }
}

/// The wire string of a color.
pub open spec fn color_str(c: PlayerColor) -> Seq<char> {
    match c {
        PlayerColor::Red => "RED"@,
        PlayerColor::Blue => "BLUE"@,
    }
}

/// The piece type a wire string denotes, if any.
pub open spec fn spec_parse_piece_type(s: Seq<char>) -> Option<PieceType> {
    if s == "ANT"@ {
        Some(PieceType::Ant)
    } else if s == "BEE"@ {
        Some(PieceType::Bee)
    } else if s == "BEETLE"@ {
        Some(PieceType::Beetle)
    } else if s == "GRASSHOPPER"@ {
        Some(PieceType::Grasshopper)
    } else if s == "SPIDER"@ {
        Some(PieceType::Spider)
    } else {
        None
    }
}

/// The wire string of a piece type.
pub open spec fn piece_type_str(t: PieceType) -> Seq<char> {
    match t {
        PieceType::Ant => "ANT"@,
        PieceType::Bee => "BEE"@,
        PieceType::Beetle => "BEETLE"@,
        PieceType::Grasshopper => "GRASSHOPPER"@,
        PieceType::Spider => "SPIDER"@,
    }
}

/// The piece a tree element denotes: attributes `owner` and `type`.
pub open spec fn spec_decode_piece(n: XmlNode) -> Option<Piece> {
    match attr_lookup(n.attributes@, "owner"@) {
        None => None,
        Some(os) => match spec_parse_color(os) {
            None => None,
            Some(owner) => match attr_lookup(n.attributes@, "type"@) {
                None => None,
                Some(ts) => match spec_parse_piece_type(ts) {
                    None => None,
                    Some(piece_type) => Some(Piece { owner, piece_type }),
                },
            },
        },
    }
}

/// The piece sequence a list of tree elements denotes, first failure
/// aborting the whole list.
pub open spec fn spec_decode_pieces(ns: Seq<XmlNode>) -> Option<Seq<Piece>>
    decreases ns.len(),
{
    if ns.len() == 0 {
        Some(Seq::empty())
    } else {
        match spec_decode_piece(ns[0]) {
            None => None,
            Some(p) => match spec_decode_pieces(ns.drop_first()) {
                None => None,
                Some(rest) => Some(seq![p] + rest),
            },
        }
    }
}

/// The field a tree element denotes: nested `piece` children
/// (bottom-to-top of the stack) and an `isObstructed` attribute.
pub open spec fn spec_decode_field(n: XmlNode) -> Option<FieldModel> {
    match spec_decode_pieces(children_named(n.childs@, "piece"@)) {
        None => None,
        Some(stack) => match attr_lookup(n.attributes@, "isObstructed"@) {
            None => None,
            Some(bs) => if bs == "true"@ {
                Some(FieldModel { stack, obstructed: true })
            } else if bs == "false"@ {
                Some(FieldModel { stack, obstructed: false })
            } else {
                None
            },
        },
    }
}

/// The keyed field a `field` element denotes: cube-coordinate
/// attributes `x`, `y`, `z` (the redundant `z` is parsed and dropped)
/// and the field contents, with the coordinate held to the engine's
/// range.
pub open spec fn spec_decode_field_entry(n: XmlNode) -> Option<(AxialCoords, FieldModel)> {
    match attr_lookup(n.attributes@, "x"@) {
        None => None,
        Some(xs) => match parse_i32_spec(xs) {
            None => None,
            Some(x) => match attr_lookup(n.attributes@, "y"@) {
                None => None,
                Some(ys) => match parse_i32_spec(ys) {
                    None => None,
                    Some(y) => match attr_lookup(n.attributes@, "z"@) {
                        None => None,
                        Some(zs) => match parse_i32_spec(zs) {
                            None => None,
                            Some(_z) => if -COORD_LIMIT <= x <= COORD_LIMIT && -COORD_LIMIT <= y
                                <= COORD_LIMIT {
                                match spec_decode_field(n) {
                                    None => None,
                                    Some(fm) => Some((AxialCoords { x, y }, fm)),
                                }
                            } else {
                                None
                            },
                        },
                    },
                },
            },
        },
    }
}

/// Folds a list of `field` elements into a board map; a later element
/// for the same coordinate replaces the earlier one.
pub open spec fn spec_fold_fields(
    ns: Seq<XmlNode>,
    acc: Map<AxialCoords, FieldModel>,
) -> Option<Map<AxialCoords, FieldModel>>
    decreases ns.len(),
{
    if ns.len() == 0 {
        Some(acc)
    } else {
        match spec_decode_field_entry(ns[0]) {
            None => None,
            Some(entry) => spec_fold_fields(ns.drop_first(), acc.insert(entry.0, entry.1)),
        }
    }
}

/// The board a tree element denotes: a `fields` child holding `field`
/// elements.
pub open spec fn spec_decode_board(n: XmlNode) -> Option<Map<AxialCoords, FieldModel>> {
    match first_child_named(n.childs@, "fields"@) {
        None => None,
        Some(fs) => spec_fold_fields(children_named(fs.childs@, "field"@), Map::empty()),
    }
}

/// The player a tree element denotes: attributes `color` and
/// `displayName`.
pub open spec fn spec_decode_player(n: XmlNode) -> Option<(PlayerColor, Seq<char>)> {
    match attr_lookup(n.attributes@, "color"@) {
        None => None,
        Some(cs) => match spec_parse_color(cs) {
            None => None,
            Some(c) => match attr_lookup(n.attributes@, "displayName"@) {
                None => None,
                Some(dn) => Some((c, dn)),
            },
        },
    }
}

/// The mathematical content of a decoded game-state snapshot.
pub ghost struct GameStateModel {
    pub turn: u32,
    pub start_player_color: PlayerColor,
    pub current_player_color: PlayerColor,
    pub board: Map<AxialCoords, FieldModel>,
    pub red_player: (PlayerColor, Seq<char>),
    pub blue_player: (PlayerColor, Seq<char>),
    pub undeployed_red: Seq<Piece>,
    pub undeployed_blue: Seq<Piece>,
}

/// The snapshot a root element denotes: attributes `turn`,
/// `startPlayerColor`, `currentPlayerColor`; children `red`, `blue`,
/// `board`, `undeployedRedPieces` and `undeployedBluePieces`.
pub open spec fn spec_decode_game_state(n: XmlNode) -> Option<GameStateModel> {
    match attr_lookup(n.attributes@, "turn"@) {
        None => None,
        Some(ts) => match parse_u32_spec(ts) {
            None => None,
            Some(turn) => match attr_lookup(n.attributes@, "startPlayerColor"@) {
                None => None,
                Some(ss) => match spec_parse_color(ss) {
                    None => None,
                    Some(start_player_color) => match attr_lookup(
                        n.attributes@,
                        "currentPlayerColor"@,
                    ) {
                        None => None,
                        Some(cs) => match spec_parse_color(cs) {
                            None => None,
                            Some(current_player_color) => match first_child_named(
                                n.childs@,
                                "red"@,
                            ) {
                                None => None,
                                Some(rn) => match spec_decode_player(rn) {
                                    None => None,
                                    Some(red_player) => match first_child_named(
                                        n.childs@,
                                        "blue"@,
                                    ) {
                                        None => None,
                                        Some(bn) => match spec_decode_player(bn) {
                                            None => None,
                                            Some(blue_player) => match first_child_named(
                                                n.childs@,
                                                "board"@,
                                            ) {
                                                None => None,
                                                Some(brd) => match spec_decode_board(brd) {
                                                    None => None,
                                                    Some(board) => match first_child_named(
                                                        n.childs@,
                                                        "undeployedRedPieces"@,
                                                    ) {
                                                        None => None,
                                                        Some(urn) => match spec_decode_pieces(
                                                            children_named(urn.childs@, "piece"@),
                                                        ) {
                                                            None => None,
                                                            Some(undeployed_red) => match
                                                                first_child_named(
                                                                n.childs@,
                                                                "undeployedBluePieces"@,
                                                            ) {
                                                                None => None,
                                                                Some(ubn) => match
                                                                    spec_decode_pieces(
                                                                    children_named(
                                                                        ubn.childs@,
                                                                        "piece"@,
                                                                    ),
                                                                ) {
                                                                    None => None,
                                                                    Some(undeployed_blue) => Some(
                                                                        GameStateModel {
                                                                            turn,
                                                                            start_player_color,
                                                                            current_player_color,
                                                                            board,
                                                                            red_player,
                                                                            blue_player,
                                                                            undeployed_red,
                                                                            undeployed_blue,
                                                                        },
                                                                    ),
                                                                },
                                                            },
                                                        },
                                                    },
                                                },
                                            },
                                        },
                                    },
                                },
                            },
                        },
                    },
                },
            },
        },
    }
}

impl PlayerColor {
    /// Parses the wire string of a color.
    pub fn from_str(raw: &str) -> (r: Result<PlayerColor, DecodeError>)
        ensures
            match r {
                Ok(c) => spec_parse_color(raw@) == Some(c),
                Err(e) => spec_parse_color(raw@) is None && (e matches DecodeError::BadColor {
                    value,
                } && value@ == raw@),
            },
    {
        if str_eq(raw, "RED") {
            Ok(PlayerColor::Red)
        } else if str_eq(raw, "BLUE") {
            Ok(PlayerColor::Blue)
        } else {
            Err(DecodeError::BadColor { value: raw.to_owned() })
        }
    }

    /// The wire string of this color.
    pub fn to_str(self) -> (r: &'static str)
        ensures
            r@ == color_str(self),
    {
        match self {
            PlayerColor::Red => "RED",
            PlayerColor::Blue => "BLUE",
        }
    }
}

impl PieceType {
    /// Parses the wire string of a piece type.
    pub fn from_str(raw: &str) -> (r: Result<PieceType, DecodeError>)
        ensures
            match r {
                Ok(t) => spec_parse_piece_type(raw@) == Some(t),
                Err(e) => spec_parse_piece_type(raw@) is None && (e matches
                    DecodeError::BadPieceType { value } && value@ == raw@),
            },
    {
        if str_eq(raw, "ANT") {
            Ok(PieceType::Ant)
        } else if str_eq(raw, "BEE") {
            Ok(PieceType::Bee)
        } else if str_eq(raw, "BEETLE") {
            Ok(PieceType::Beetle)
        } else if str_eq(raw, "GRASSHOPPER") {
            Ok(PieceType::Grasshopper)
        } else if str_eq(raw, "SPIDER") {
            Ok(PieceType::Spider)
        } else {
            Err(DecodeError::BadPieceType { value: raw.to_owned() })
        }
    }

    /// The wire string of this piece type.
    pub fn to_str(self) -> (r: &'static str)
        ensures
            r@ == piece_type_str(self),
    {
        match self {
            PieceType::Ant => "ANT",
            PieceType::Bee => "BEE",
            PieceType::Beetle => "BEETLE",
            PieceType::Grasshopper => "GRASSHOPPER",
            PieceType::Spider => "SPIDER",
        }
    }
}

impl Piece {
    /// Constructs a piece from a tree element.
    pub fn from_node(node: &XmlNode) -> (r: Result<Piece, DecodeError>)
        ensures
            match r {
                Ok(p) => spec_decode_piece(*node) == Some(p),
                Err(_) => spec_decode_piece(*node) is None,
            },
    {
        let owner_s = match node.attribute("owner") {
            Ok(v) => v,
            Err(e) => {
                return Err(e);
            },
        };
        let owner = match PlayerColor::from_str(owner_s) {
            Ok(c) => c,
            Err(e) => {
                return Err(e);
            },
        };
        let type_s = match node.attribute("type") {
            Ok(v) => v,
            Err(e) => {
                return Err(e);
            },
        };
        let piece_type = match PieceType::from_str(type_s) {
            Ok(t) => t,
            Err(e) => {
                return Err(e);
            },
        };
        Ok(Piece { owner, piece_type })
    }
}

impl FromXmlNode for Piece {
    fn from_node(node: &XmlNode) -> Result<Piece, DecodeError> {
        Piece::from_node(node)
    }
}

impl Player {
    /// Constructs player metadata from a tree element.
    pub fn from_node(node: &XmlNode) -> (r: Result<Player, DecodeError>)
        ensures
            match r {
                Ok(p) => spec_decode_player(*node) == Some((p.color, p.display_name@)),
                Err(_) => spec_decode_player(*node) is None,
            },
    {
        let color_s = match node.attribute("color") {
            Ok(v) => v,
            Err(e) => {
                return Err(e);
            },
        };
        let color = match PlayerColor::from_str(color_s) {
            Ok(c) => c,
            Err(e) => {
                return Err(e);
            },
        };
        let name_s = match node.attribute("displayName") {
            Ok(v) => v,
            Err(e) => {
                return Err(e);
            },
        };
        Ok(Player { color, display_name: name_s.to_owned() })
    }
}

impl FromXmlNode for Player {
    fn from_node(node: &XmlNode) -> Result<Player, DecodeError> {
        Player::from_node(node)
    }
}

/// Decodes the `piece` children of an element into a stack, first
/// failure aborting the list.
fn decode_piece_children(node: &XmlNode) -> (r: Result<Vec<Piece>, DecodeError>)
    ensures
        match r {
            Ok(v) => spec_decode_pieces(children_named(node.childs@, "piece"@)) == Some(v@),
            Err(_) => spec_decode_pieces(children_named(node.childs@, "piece"@)) is None,
        },
{
    let ghost cn = children_named(node.childs@, "piece"@);
    let piece_nodes = node.childs_by_name("piece");
    let mut stack: Vec<Piece> = Vec::new();
    let mut k: usize = 0;
    proof {
        assert(cn.subrange(0, cn.len() as int) =~= cn);
    }
    while k < piece_nodes.len()
        invariant
            k <= cn.len(),
            piece_nodes@.len() == cn.len(),
            forall|i: int| 0 <= i < cn.len() ==> *(#[trigger] piece_nodes@[i]) == cn[i],
            stack@.len() == k,
            spec_decode_pieces(cn) == (match spec_decode_pieces(
                cn.subrange(k as int, cn.len() as int),
            ) {
                None => None,
                Some(rest) => Some(stack@ + rest),
            }),
        decreases cn.len() - k,
    {
        let ghost suffix = cn.subrange(k as int, cn.len() as int);
        proof {
            assert(suffix[0] == cn[k as int]);
            assert(suffix.drop_first() =~= cn.subrange(k + 1, cn.len() as int));
        }
        match Piece::from_node(piece_nodes[k]) {
            Ok(p) => {
                let ghost old_stack = stack@;
                stack.push(p);
                proof {
                    assert forall|rest: Seq<Piece>| true implies old_stack + (seq![p] + rest)
                        =~= stack@ + rest by {}
                    if spec_decode_pieces(suffix.drop_first()) is Some {
                        let rest = spec_decode_pieces(suffix.drop_first()).unwrap();
                        assert(old_stack + (seq![p] + rest) =~= stack@ + rest);
                    }
                }
            },
            Err(e) => {
                return Err(e);
            },
        }
        k += 1;
    }
    proof {
        assert(cn.subrange(cn.len() as int, cn.len() as int).len() == 0);
        assert(stack@ + Seq::<Piece>::empty() =~= stack@);
    }
    Ok(stack)
}

impl Field {
    /// Constructs a field from a tree element.
    pub fn from_node(node: &XmlNode) -> (r: Result<Field, DecodeError>)
        ensures
            match r {
                Ok(f) => spec_decode_field(*node) == Some(f@),
                Err(_) => spec_decode_field(*node) is None,
            },
    {
        let stack = match decode_piece_children(node) {
            Ok(v) => v,
            Err(e) => {
                return Err(e);
            },
        };
        let ob_s = match node.attribute("isObstructed") {
            Ok(v) => v,
            Err(e) => {
                return Err(e);
            },
        };
        let is_obstructed = match parse_bool(ob_s) {
            Some(b) => b,
            None => {
                return Err(DecodeError::BadBool { value: ob_s.to_owned() });
            },
        };
        Ok(Field::new(stack, is_obstructed))
    }
}

impl FromXmlNode for Field {
    fn from_node(node: &XmlNode) -> Result<Field, DecodeError> {
        Field::from_node(node)
    }
}

impl Board {
    /// Constructs a board from a tree element.
    pub fn from_node(node: &XmlNode) -> (r: Result<Board, DecodeError>)
        ensures
            match r {
                Ok(b) => b.wf() && spec_decode_board(*node) == Some(b@),
                Err(_) => spec_decode_board(*node) is None,
            },
    {
        let fields_node = match node.child_by_name("fields") {
            Ok(c) => c,
            Err(e) => {
                return Err(e);
            },
        };
        let ghost cn = children_named(fields_node.childs@, "field"@);
        let field_nodes = fields_node.childs_by_name("field");
        let mut b = Board { fields: Vec::new() };
        proof {
            assert(b.wf());
            assert(b@ =~= Map::<AxialCoords, FieldModel>::empty());
            assert(cn.subrange(0, cn.len() as int) =~= cn);
        }
        let mut k: usize = 0;
        while k < field_nodes.len()
            invariant
                k <= cn.len(),
                field_nodes@.len() == cn.len(),
                forall|i: int| 0 <= i < cn.len() ==> *(#[trigger] field_nodes@[i]) == cn[i],
                b.wf(),
                spec_fold_fields(cn, Map::empty()) == spec_fold_fields(
                    cn.subrange(k as int, cn.len() as int),
                    b@,
                ),
            decreases cn.len() - k,
        {
            let ghost suffix = cn.subrange(k as int, cn.len() as int);
            proof {
                assert(suffix[0] == cn[k as int]);
                assert(suffix.drop_first() =~= cn.subrange(k + 1, cn.len() as int));
            }
            let fnode = field_nodes[k];
            let xs = match fnode.attribute("x") {
                Ok(v) => v,
                Err(e) => {
                    return Err(e);
                },
            };
            let x = match parse_i32(xs) {
                Some(v) => v,
                None => {
                    return Err(DecodeError::BadNumber { value: xs.to_owned() });
                },
            };
            let ys = match fnode.attribute("y") {
                Ok(v) => v,
                Err(e) => {
                    return Err(e);
                },
            };
            let y = match parse_i32(ys) {
                Some(v) => v,
                None => {
                    return Err(DecodeError::BadNumber { value: ys.to_owned() });
                },
            };
            let zs = match fnode.attribute("z") {
                Ok(v) => v,
                Err(e) => {
                    return Err(e);
                },
            };
            let z = match parse_i32(zs) {
                Some(v) => v,
                None => {
                    return Err(DecodeError::BadNumber { value: zs.to_owned() });
                },
            };
            if !(-COORD_LIMIT <= x && x <= COORD_LIMIT && -COORD_LIMIT <= y && y <= COORD_LIMIT) {
                return Err(DecodeError::CoordOutOfRange { x, y });
            }
            let fld = match Field::from_node(fnode) {
                Ok(f) => f,
                Err(e) => {
                    return Err(e);
                },
            };
            let coords = CubeCoords::new(x, y, z).to_axial();
            proof {
                assert(spec_decode_field_entry(cn[k as int]) == Some((coords, fld@)));
            }
            b.insert_field(coords, fld);
            k += 1;
        }
        proof {
            assert(cn.subrange(cn.len() as int, cn.len() as int).len() == 0);
        }
        Ok(b)
    }
}

impl FromXmlNode for Board {
    fn from_node(node: &XmlNode) -> Result<Board, DecodeError> {
        Board::from_node(node)
    }
}

impl GameState {
    /// Constructs a game-state snapshot from a decoded tree.  No
    /// partial snapshot is ever produced: the first missing or
    /// unparseable part aborts construction.
    pub fn from_node(node: &XmlNode) -> (r: Result<GameState, DecodeError>)
        ensures
            match r {
                Ok(gs) => {
                    &&& spec_decode_game_state(*node) matches Some(model)
                    &&& gs.turn == model.turn
                    &&& gs.start_player_color == model.start_player_color
                    &&& gs.current_player_color == model.current_player_color
                    &&& gs.board@ == model.board
                    &&& gs.board.wf()
                    &&& (gs.red_player.color, gs.red_player.display_name@) == model.red_player
                    &&& (gs.blue_player.color, gs.blue_player.display_name@) == model.blue_player
                    &&& gs.undeployed_red_pieces@ == model.undeployed_red
                    &&& gs.undeployed_blue_pieces@ == model.undeployed_blue
                },
                Err(_) => spec_decode_game_state(*node) is None,
            },
    {
        let turn_s = match node.attribute("turn") {
            Ok(v) => v,
            Err(e) => {
                return Err(e);
            },
        };
        let turn = match parse_u32(turn_s) {
            Some(v) => v,
            None => {
                return Err(DecodeError::BadNumber { value: turn_s.to_owned() });
            },
        };
        let start_s = match node.attribute("startPlayerColor") {
            Ok(v) => v,
            Err(e) => {
                return Err(e);
            },
        };
        let start_player_color = match PlayerColor::from_str(start_s) {
            Ok(c) => c,
            Err(e) => {
                return Err(e);
            },
        };
        let current_s = match node.attribute("currentPlayerColor") {
            Ok(v) => v,
            Err(e) => {
                return Err(e);
            },
        };
        let current_player_color = match PlayerColor::from_str(current_s) {
            Ok(c) => c,
            Err(e) => {
                return Err(e);
            },
        };
        let red_node = match node.child_by_name("red") {
            Ok(c) => c,
            Err(e) => {
                return Err(e);
            },
        };
        let red_player = match Player::from_node(red_node) {
            Ok(p) => p,
            Err(e) => {
                return Err(e);
            },
        };
        let blue_node = match node.child_by_name("blue") {
            Ok(c) => c,
            Err(e) => {
                return Err(e);
            },
        };
        let blue_player = match Player::from_node(blue_node) {
            Ok(p) => p,
            Err(e) => {
                return Err(e);
            },
        };
        let board_node = match node.child_by_name("board") {
            Ok(c) => c,
            Err(e) => {
                return Err(e);
            },
        };
        let board = match Board::from_node(board_node) {
            Ok(b) => b,
            Err(e) => {
                return Err(e);
            },
        };
        let red_pool_node = match node.child_by_name("undeployedRedPieces") {
            Ok(c) => c,
            Err(e) => {
                return Err(e);
            },
        };
        let undeployed_red_pieces = match decode_piece_children(red_pool_node) {
            Ok(v) => v,
            Err(e) => {
                return Err(e);
            },
        };
        let blue_pool_node = match node.child_by_name("undeployedBluePieces") {
            Ok(c) => c,
            Err(e) => {
                return Err(e);
            },
        };
        let undeployed_blue_pieces = match decode_piece_children(blue_pool_node) {
            Ok(v) => v,
            Err(e) => {
                return Err(e);
            },
        };
        Ok(GameState {
            turn,
            start_player_color,
            current_player_color,
            board,
            red_player,
            blue_player,
            undeployed_red_pieces,
            undeployed_blue_pieces,
        })
    }
}

impl FromXmlNode for GameState {
    fn from_node(node: &XmlNode) -> Result<GameState, DecodeError> {
        GameState::from_node(node)
    }
}

/// The element encodes the given piece.
pub open spec fn encodes_piece(n: XmlNode, p: Piece) -> bool {
    &&& n.name@ == "piece"@
    &&& attr_lookup(n.attributes@, "owner"@) == Some(color_str(p.owner))
    &&& attr_lookup(n.attributes@, "type"@) == Some(piece_type_str(p.piece_type))
    &&& n.childs@.len() == 0
}

/// The element encodes the given coordinate in cube form under the
/// given tag name.
pub open spec fn encodes_coord(n: XmlNode, tag: Seq<char>, c: AxialCoords) -> bool {
    &&& n.name@ == tag
    &&& (attr_lookup(n.attributes@, "x"@) matches Some(s) && parse_i32_spec(s) == Some(c.x))
    &&& (attr_lookup(n.attributes@, "y"@) matches Some(s) && parse_i32_spec(s) == Some(c.y))
    &&& (attr_lookup(n.attributes@, "z"@) matches Some(s) && parse_i32_spec(s) == Some(
        spec_to_cube(c).z,
    ))
    &&& n.childs@.len() == 0
}

impl Piece {
    /// Encodes this piece as a `piece` element.
    pub fn to_xml(&self) -> (r: XmlNode)
        ensures
            encodes_piece(r, *self),
    {
        proof {
            reveal_strlit("owner");
            reveal_strlit("type");
        }
        let r = XmlNode::new("piece").attribute(
            "owner".to_owned(),
            self.owner.to_str().to_owned(),
        ).attribute("type".to_owned(), self.piece_type.to_str().to_owned()).build();
        proof {
            reveal_strlit("owner");
            reveal_strlit("type");
            let attrs = r.attributes@;
            assert(attrs.len() == 2);
            assert(attrs.last() == attrs[1]);
            assert(attr_lookup(attrs, "type"@) == Some(attrs[1].1@));
            assert("owner"@.len() == 5);
            assert("type"@.len() == 4);
            assert("owner"@ != "type"@);
            assert(attrs.drop_last().last() == attrs[0]);
            assert(attr_lookup(attrs, "owner"@) == attr_lookup(attrs.drop_last(), "owner"@));
            assert(attr_lookup(attrs.drop_last(), "owner"@) == Some(attrs[0].1@));
        }
        r
    }
}

/// Encodes an axial coordinate as a cube-coordinate element with the
/// given tag name.
fn coord_to_xml(tag: &str, c: AxialCoords) -> (r: XmlNode)
    requires
        in_coord_range(c),
    ensures
        encodes_coord(r, tag@, c),
{
    proof {
        reveal_strlit("x");
        reveal_strlit("y");
        reveal_strlit("z");
    }
    let cube = c.to_cube();
    let r = XmlNode::new(tag).attribute("x".to_owned(), i32_to_string(cube.x)).attribute(
        "y".to_owned(),
        i32_to_string(cube.y),
    ).attribute("z".to_owned(), i32_to_string(cube.z)).build();
    proof {
        reveal_strlit("x");
        reveal_strlit("y");
        reveal_strlit("z");
        let attrs = r.attributes@;
        assert(attrs.len() == 3);
        assert("x"@.len() == 1 && "x"@[0] == 'x');
        assert("y"@.len() == 1 && "y"@[0] == 'y');
        assert("z"@.len() == 1 && "z"@[0] == 'z');
        assert("x"@ != "y"@ && "x"@ != "z"@ && "y"@ != "z"@);
        assert(attrs.last() == attrs[2]);
        assert(attr_lookup(attrs, "z"@) == Some(attrs[2].1@));
        assert(attrs.drop_last().last() == attrs[1]);
        assert(attr_lookup(attrs, "y"@) == attr_lookup(attrs.drop_last(), "y"@));
        assert(attr_lookup(attrs.drop_last(), "y"@) == Some(attrs[1].1@));
        assert(attrs.drop_last().drop_last().last() == attrs[0]);
        assert(attr_lookup(attrs, "x"@) == attr_lookup(attrs.drop_last(), "x"@));
        assert(attr_lookup(attrs.drop_last(), "x"@) == attr_lookup(
            attrs.drop_last().drop_last(),
            "x"@,
        ));
        assert(attr_lookup(attrs.drop_last().drop_last(), "x"@) == Some(attrs[0].1@));
    }
    r
}

impl Move {
    /// Encodes this move as a `setmove` element (the piece, then the
    /// destination) or a `dragmove` element (start, then destination),
    /// coordinates in cube form.
    pub fn to_xml(&self) -> (r: XmlNode)
        requires
            match *self {
                Move::SetMove { piece, destination } => in_coord_range(destination),
                Move::DragMove { start, destination } => in_coord_range(start) && in_coord_range(
                    destination,
                ),
            },
        ensures
            match *self {
                Move::SetMove { piece, destination } => {
                    &&& r.name@ == "setmove"@
                    &&& r.childs@.len() == 2
                    &&& encodes_piece(r.childs@[0], piece)
                    &&& encodes_coord(r.childs@[1], "destination"@, destination)
                },
                Move::DragMove { start, destination } => {
                    &&& r.name@ == "dragmove"@
                    &&& r.childs@.len() == 2
                    &&& encodes_coord(r.childs@[0], "start"@, start)
                    &&& encodes_coord(r.childs@[1], "destination"@, destination)
                },
            },
    {
        match *self {
            Move::SetMove { piece, destination } => XmlNode::new("setmove").child(
                piece.to_xml(),
            ).child(coord_to_xml("destination", destination)).build(),
            Move::DragMove { start, destination } => XmlNode::new("dragmove").child(
                coord_to_xml("start", start),
            ).child(coord_to_xml("destination", destination)).build(),
        }
    }
}

} // verus!
