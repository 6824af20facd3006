//! A field on the game board: a stack of pieces (top = current occupant)
//! and an obstruction flag.

use vstd::prelude::*;
use crate::pieces::{Piece, PieceType, PlayerColor};

verus! {

/// The mathematical model of a field: its piece stack and obstruction flag.
pub ghost struct FieldModel {
    pub stack: Seq<Piece>,
    pub obstructed: bool,
}

impl FieldModel {
    /// The field holds at least one piece.
    pub open spec fn has_pieces(self) -> bool {
        self.stack.len() > 0
    }

    /// The field cannot be entered: obstructed or holding pieces.
    pub open spec fn blocked(self) -> bool {
        self.obstructed || self.has_pieces()
    }

    /// The top-most piece, if any.
    pub open spec fn top(self) -> Option<Piece> {
        if self.stack.len() > 0 {
            Some(self.stack[self.stack.len() - 1])
        } else {
            None
        }
    }

    /// The color owning the field: the top piece's owner.
    pub open spec fn owner(self) -> Option<PlayerColor> {
        match self.top() {
            Some(p) => Some(p.owner),
            None => None,
        }
    }

    /// A bee of `color` sits somewhere in the stack.
    pub open spec fn has_bee(self, color: PlayerColor) -> bool {
        exists|i: int|
            0 <= i < self.stack.len() && self.stack[i] == (Piece {
                owner: color,
                piece_type: PieceType::Bee,
            })
    }
}

/// A field on the game board.
#[derive(Debug, Clone, PartialEq, Eq, Hash)]
pub struct Field {
    pub piece_stack: Vec<Piece>,
    pub is_obstructed: bool,
}

impl View for Field {
    type V = FieldModel;

    open spec fn view(&self) -> FieldModel {
        FieldModel { stack: self.piece_stack@, obstructed: self.is_obstructed }
    }
}

impl Field {
    /// Builds a field from a piece stack (bottom first) and an
    /// obstruction flag.
    pub fn new(piece_stack: Vec<Piece>, is_obstructed: bool) -> (r: Field)
        ensures
            r@.stack == piece_stack@,
            r@.obstructed == is_obstructed,
    {
        Field { piece_stack, is_obstructed }
    }

    /// Fetches the player color "owning" the field.
    pub fn owner(&self) -> (r: Option<PlayerColor>)
        ensures
            r == self@.owner(),
    {
        match self.piece() {
            Some(p) => Some(p.owner),
            None => None,
        }
    }

    /// Tests whether the field is owned by the given owner.
    pub fn is_owned_by(&self, color: PlayerColor) -> (r: bool)
        ensures
            r == (self@.owner() == Some(color)),
    {
        match self.owner() {
            Some(c) => c == color,
            None => false,
        }
    }

    /// Tests whether the field is blocked: obstructed or holding pieces.
    pub fn is_occupied(&self) -> (r: bool)
        ensures
            r == self@.blocked(),
    {
        self.is_obstructed || self.has_pieces()
    }

    /// Fetches the top-most piece.
    pub fn piece(&self) -> (r: Option<Piece>)
        ensures
            r == self@.top(),
    {
        if self.piece_stack.len() > 0 {
            Some(self.piece_stack[self.piece_stack.len() - 1])
        } else {
            None
        }
    }

    /// Tests whether the field contains pieces.
    pub fn has_pieces(&self) -> (r: bool)
        ensures
            r == self@.has_pieces(),
    {
        self.piece_stack.len() > 0
    }

    /// Fetches the piece stack, bottom first.
    pub fn piece_stack(&self) -> (r: &Vec<Piece>)
        ensures
            r@ == self@.stack,
    {
        &self.piece_stack
    }

    /// Structurally copies the field (pieces are plain values).
    pub fn duplicate(&self) -> (r: Field)
        ensures
            r@ == self@,
    {
        let mut stack: Vec<Piece> = Vec::new();
        let mut k: usize = 0;
        while k < self.piece_stack.len()
            invariant
                k <= self.piece_stack@.len(),
                stack@ == self.piece_stack@.subrange(0, k as int),
            decreases self.piece_stack@.len() - k,
        {
            stack.push(self.piece_stack[k]);
            k += 1;
            proof {
                assert(stack@ =~= self.piece_stack@.subrange(0, k as int));
            }
        }
        proof {
            assert(stack@ =~= self.piece_stack@);
        }
        Field { piece_stack: stack, is_obstructed: self.is_obstructed }
    }

    /// Pushes a piece onto the piece stack.
    pub fn push(&mut self, piece: Piece)
        ensures
            final(self)@.stack == old(self)@.stack.push(piece),
            final(self)@.obstructed == old(self)@.obstructed,
    {
        self.piece_stack.push(piece);
    }

    /// Pops a piece from the piece stack, or returns `None` if the
    /// stack is empty.
    pub fn pop(&mut self) -> (r: Option<Piece>)
        ensures
            final(self)@.obstructed == old(self)@.obstructed,
            old(self)@.stack.len() == 0 ==> r is None && final(self)@.stack
                == old(self)@.stack,
            old(self)@.stack.len() > 0 ==> r == old(self)@.top() && final(self)@.stack
                == old(self)@.stack.drop_last(),
    {
        self.piece_stack.pop()
    }
}

} // verus!
