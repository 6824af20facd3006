//! The game board: a sparse hex grid of fields with a fixed coordinate
//! set, plus the connectivity engine (freedom-to-move predicate,
//! accessible-neighbor graph, boundary-path reachability and the
//! one-hive swarm check).

use vstd::prelude::*;
use vstd::seq_lib::*;
use vstd::set_lib::lemma_len_subset;
use crate::coords::{in_coord_range, spec_adjacent, AxialCoords};
use crate::field::{Field, FieldModel};
use crate::pieces::{Piece, PieceType, PlayerColor};
use crate::reach::{lemma_closed_contains_reachable, lemma_reaches_refl, lemma_reaches_step, lemma_reaches_sym, lemma_reaches_trans, reaches};

verus! {

broadcast use vstd::seq_lib::lemma_seq_contains_after_push, vstd::seq_lib::seq_to_set_is_finite;

/// A duplicate-free sequence stays duplicate-free when an element not
/// yet contained is pushed.
pub(crate) proof fn lemma_push_keeps_distinct<A>(s: Seq<A>, x: A)
    requires
        s.no_duplicates(),
        !s.contains(x),
    ensures
        s.push(x).no_duplicates(),
{
    assert forall|i: int, j: int|
        0 <= i < j < s.push(x).len() implies s.push(x)[i] != s.push(x)[j] by {
        if j == s.len() {
            if s.push(x)[i] == x {
                assert(s[i] == x);
                assert(s.contains(x));
            }
        }
    }
}

/// The game board.  Fields are stored as a keyed sequence; the keys are
/// pairwise distinct, so the board denotes a finite map from coordinates
/// to fields.  Coordinates absent from the map are off the board.
#[derive(Debug, Clone, PartialEq, Eq)]
pub struct Board {
    pub fields: Vec<(AxialCoords, Field)>,
}

impl View for Board {
    type V = Map<AxialCoords, FieldModel>;

    open spec fn view(&self) -> Map<AxialCoords, FieldModel> {
        Map::new(
            |c: AxialCoords| self.spec_contains(c),
            |c: AxialCoords| self.fields@[self.idx_of(c)].1@,
        )
    }
}

impl Board {
    /// The keys of the underlying entry sequence, in storage order.
    pub open spec fn key_seq(self) -> Seq<AxialCoords> {
        self.fields@.map_values(|p: (AxialCoords, Field)| p.0)
    }

    /// Some entry holds coordinate `c`.
    pub open spec fn spec_contains(self, c: AxialCoords) -> bool {
        exists|i: int| 0 <= i < self.fields@.len() && self.fields@[i].0 == c
    }

    /// The index of the entry holding coordinate `c`.
    pub open spec fn idx_of(self, c: AxialCoords) -> int {
        choose|i: int| 0 <= i < self.fields@.len() && self.fields@[i].0 == c
    }

    /// Well-formedness: keys are pairwise distinct and within the
    /// coordinate range the engine works with.
    pub open spec fn wf(self) -> bool {
        &&& forall|i: int, j: int|
            0 <= i < j < self.fields@.len() ==> (#[trigger] self.fields@[i]).0 != (
            #[trigger] self.fields@[j]).0
        &&& forall|i: int|
            0 <= i < self.fields@.len() ==> in_coord_range((#[trigger] self.fields@[i]).0)
    }

    /// Each stored entry is the map entry for its key.
    pub proof fn lemma_entry_view(self, i: int)
        requires
            self.wf(),
            0 <= i < self.fields@.len(),
        ensures
            self@.contains_key(self.fields@[i].0),
            self@[self.fields@[i].0] == self.fields@[i].1@,
            self.idx_of(self.fields@[i].0) == i,
    {
        let c = self.fields@[i].0;
        assert(self.spec_contains(c));
        let j = self.idx_of(c);
        assert(0 <= j < self.fields@.len() && self.fields@[j].0 == c);
        if i != j {
            assert(false);
        }
    }

    /// Every coordinate of a well-formed board lies in the coordinate
    /// range the engine works with.
    pub proof fn lemma_contained_in_range(self, c: AxialCoords)
        requires
            self.wf(),
            self@.contains_key(c),
        ensures
            in_coord_range(c),
    {
        let i = self.idx_of(c);
        assert(self.fields@[i].0 == c);
    }

    /// The key sequence is duplicate-free on a well-formed board.
    pub proof fn lemma_keys_distinct(self)
        requires
            self.wf(),
        ensures
            self.key_seq().no_duplicates(),
            self.key_seq().len() == self.fields@.len(),
            forall|c: AxialCoords| self.key_seq().contains(c) <==> self.spec_contains(c),
    {
        assert forall|c: AxialCoords| self.key_seq().contains(c) <==> self.spec_contains(
            c,
        ) by {
            if self.spec_contains(c) {
                let i = self.idx_of(c);
                assert(self.key_seq()[i] == c);
            }
        }
    }
}

/// The coordinate holds at least one piece (it is part of the swarm).
pub open spec fn has_pieces_at(m: Map<AxialCoords, FieldModel>, c: AxialCoords) -> bool {
    m.contains_key(c) && m[c].stack.len() > 0
}

/// The coordinate counts as blocked: off the board, obstructed, or
/// holding pieces.
pub open spec fn blocked_at(m: Map<AxialCoords, FieldModel>, c: AxialCoords) -> bool {
    !m.contains_key(c) || m[c].blocked()
}

/// The top piece at a coordinate, if the coordinate is on the board and
/// holds pieces.
pub open spec fn top_at(m: Map<AxialCoords, FieldModel>, c: AxialCoords) -> Option<Piece> {
    if m.contains_key(c) {
        m[c].top()
    } else {
        None
    }
}

/// The color owning the field at `c`, if any.
pub open spec fn owner_at(m: Map<AxialCoords, FieldModel>, c: AxialCoords) -> Option<PlayerColor> {
    match top_at(m, c) {
        Some(p) => Some(p.owner),
        None => None,
    }
}

/// Some on-board neighbor of `c` is owned by `color`.
pub open spec fn next_to(
    m: Map<AxialCoords, FieldModel>,
    color: PlayerColor,
    c: AxialCoords,
) -> bool {
    exists|d: AxialCoords| spec_adjacent(c, d) && #[trigger] owner_at(m, d) == Some(color)
}

/// Some on-board neighbor of `c` holds pieces.
pub open spec fn next_to_piece(m: Map<AxialCoords, FieldModel>, c: AxialCoords) -> bool {
    exists|d: AxialCoords| spec_adjacent(c, d) && #[trigger] has_pieces_at(m, d)
}

/// A bee of `color` has been placed anywhere on the board (at any
/// position of a stack).
pub open spec fn spec_has_placed_bee(m: Map<AxialCoords, FieldModel>, color: PlayerColor) -> bool {
    exists|c: AxialCoords| m.contains_key(c) && (#[trigger] m[c]).has_bee(color)
}

/// Some field of `m` holds pieces.
pub open spec fn spec_any_pieces(m: Map<AxialCoords, FieldModel>) -> bool {
    exists|c: AxialCoords| #[trigger] has_pieces_at(m, c)
}

/// Some field of `m` is owned by `color`.
pub open spec fn owns_field(m: Map<AxialCoords, FieldModel>, color: PlayerColor) -> bool {
    exists|c: AxialCoords| #[trigger] owner_at(m, c) == Some(color)
}

/// `c` is a gate cell of the pair `(a, b)`: an on-board common neighbor
/// physically controlling passage between them.
pub open spec fn is_gate(
    m: Map<AxialCoords, FieldModel>,
    a: AxialCoords,
    b: AxialCoords,
    c: AxialCoords,
) -> bool {
    m.contains_key(c) && spec_adjacent(a, c) && spec_adjacent(b, c)
}

/// Exactly one gate cell of `(a, b)` exists (the pair sits on the
/// board's edge).
pub open spec fn single_gate(m: Map<AxialCoords, FieldModel>, a: AxialCoords, b: AxialCoords) -> bool {
    exists|c: AxialCoords|
        #[trigger] is_gate(m, a, b, c) && forall|d: AxialCoords|
            #[trigger] is_gate(m, a, b, d) ==> d == c
}

/// The freedom-to-move predicate: sliding between `a` and `b` is not
/// squeezed shut.  It holds when either only one gate cell exists or at
/// least one gate cell is unobstructed, and at least one of the two
/// fields themselves currently holds a piece.  Purely geometric; it
/// checks no ownership.
pub open spec fn can_slide(m: Map<AxialCoords, FieldModel>, a: AxialCoords, b: AxialCoords) -> bool {
    &&& (single_gate(m, a, b) || exists|c: AxialCoords|
        #[trigger] is_gate(m, a, b, c) && !m[c].obstructed)
    &&& (has_pieces_at(m, a) || has_pieces_at(m, b))
}

/// The accessible-neighbor relation: `b` is an on-board neighbor of `a`
/// and sliding between the two is possible.
pub open spec fn acc_edge(m: Map<AxialCoords, FieldModel>) -> spec_fn(AxialCoords, AxialCoords) -> bool {
    |a: AxialCoords, b: AxialCoords| m.contains_key(b) && spec_adjacent(a, b) && can_slide(m, a, b)
}

/// Raw physical adjacency restricted to the swarm: both endpoints hold
/// pieces and the cells touch.
pub open spec fn swarm_edge(m: Map<AxialCoords, FieldModel>) -> spec_fn(AxialCoords, AxialCoords) -> bool {
    |a: AxialCoords, b: AxialCoords| has_pieces_at(m, a) && has_pieces_at(m, b) && spec_adjacent(
        a,
        b,
    )
}

/// The one-hive property: every two occupied coordinates are connected
/// through occupied coordinates by physical adjacency.
pub open spec fn swarm_connected(m: Map<AxialCoords, FieldModel>) -> bool {
    forall|a: AxialCoords, b: AxialCoords|
        #[trigger] has_pieces_at(m, a) && #[trigger] has_pieces_at(m, b) ==> reaches(
            swarm_edge(m),
            a,
            b,
        )
}

/// Tests whether a coordinate occurs in a vector of coordinates.
pub(crate) fn contains_coord(v: &Vec<AxialCoords>, c: AxialCoords) -> (r: bool)
    ensures
        r == v@.contains(c),
{
    let mut k: usize = 0;
    while k < v.len()
        invariant
            k <= v@.len(),
            forall|j: int| 0 <= j < k ==> v@[j] != c,
        decreases v@.len() - k,
    {
        if v[k] == c {
            return true;
        }
        k += 1;
    }
    false
}

/// The map denoted by a keyed entry sequence: a later entry for the
/// same coordinate replaces the earlier one.
pub open spec fn entries_map(entries: Seq<(AxialCoords, Field)>) -> Map<AxialCoords, FieldModel>
    decreases entries.len(),
{
    if entries.len() == 0 {
        Map::empty()
    } else {
        entries_map(entries.drop_last()).insert(entries.last().0, entries.last().1@)
    }
}

impl Board {
    /// Builds a board from keyed fields.  A later entry for the same
    /// coordinate replaces the earlier one.  Coordinates outside the
    /// engine's range are rejected.
    pub fn new(entries: Vec<(AxialCoords, Field)>) -> (r: Option<Board>)
        ensures
            match r {
                Some(b) => b.wf() && b@ == entries_map(entries@) && forall|i: int|
                    0 <= i < entries@.len() ==> in_coord_range((#[trigger] entries@[i]).0),
                None => exists|i: int|
                    0 <= i < entries@.len() && !in_coord_range((#[trigger] entries@[i]).0),
            },
    {
        let mut b = Board { fields: Vec::new() };
        proof {
            assert(b@ =~= Map::<AxialCoords, FieldModel>::empty());
        }
        let mut k: usize = 0;
        while k < entries.len()
            invariant
                k <= entries@.len(),
                b.wf(),
                b@ == entries_map(entries@.subrange(0, k as int)),
                forall|i: int| 0 <= i < k ==> in_coord_range((#[trigger] entries@[i]).0),
            decreases entries@.len() - k,
        {
            let (c, f) = (entries[k].0, entries[k].1.duplicate());
            if !(-crate::coords::COORD_LIMIT <= c.x && c.x <= crate::coords::COORD_LIMIT
                && -crate::coords::COORD_LIMIT <= c.y && c.y <= crate::coords::COORD_LIMIT) {
                return None;
            }
            b.insert_field(c, f);
            k += 1;
            proof {
                let cur = entries@.subrange(0, k as int);
                assert(cur.drop_last() =~= entries@.subrange(0, k - 1));
                assert(cur.last() == entries@[k - 1]);
            }
        }
        proof {
            assert(entries@.subrange(0, entries@.len() as int) =~= entries@);
        }
        Some(b)
    }

    /// Inserts or replaces the field at `coords`.
    pub(crate) fn insert_field(&mut self, coords: AxialCoords, field: Field)
        requires
            old(self).wf(),
            in_coord_range(coords),
        ensures
            final(self).wf(),
            final(self)@ == old(self)@.insert(coords, field@),
    {
        match self.find_index(coords) {
            Some(i) => {
                self.fields[i] = (coords, field);
                proof {
                    assert(self.fields@ == old(self).fields@.update(i as int, (coords, field)));
                }
            },
            None => {
                self.fields.push((coords, field));
                proof {
                    assert(self.fields@ == old(self).fields@.push((coords, field)));
                    assert(self.fields@[old(self).fields@.len() as int].0 == coords);
                }
            },
        }
        proof {
            assert(self.spec_contains(coords)) by {
                if old(self).spec_contains(coords) {
                    let i = old(self).idx_of(coords);
                    assert(self.fields@[i].0 == coords);
                } else {
                    assert(self.fields@[self.fields@.len() - 1].0 == coords);
                }
            }
            assert forall|c: AxialCoords| c != coords implies (self.spec_contains(c) <==> old(
                self,
            ).spec_contains(c)) by {
                if old(self).spec_contains(c) {
                    let i = old(self).idx_of(c);
                    assert(self.fields@[i].0 == c);
                }
                if self.spec_contains(c) {
                    let i = self.idx_of(c);
                    assert(old(self).fields@[i].0 == c);
                }
            }
            assert(self.wf());
            assert forall|c: AxialCoords| self@.contains_key(c) implies self@[c] == old(
                self,
            )@.insert(coords, field@)[c] by {
                let i = self.idx_of(c);
                self.lemma_entry_view(i);
                if c == coords {
                    assert(self.fields@[i].1 == field);
                } else {
                    assert(old(self).fields@[i].0 == c);
                    old(self).lemma_entry_view(i);
                    assert(self.fields@[i].1 == old(self).fields@[i].1);
                }
            }
            assert(self@ =~= old(self)@.insert(coords, field@));
        }
    }

    /// Finds the entry index of `coords`, if the board contains it.
    fn find_index(&self, coords: AxialCoords) -> (r: Option<usize>)
        requires
            self.wf(),
        ensures
            match r {
                Some(i) => i < self.fields@.len() && self.fields@[i as int].0 == coords
                    && self@.contains_key(coords) && self@[coords] == self.fields@[i as int].1@
                    && self.idx_of(coords) == i,
                None => !self@.contains_key(coords),
            },
    {
        let mut k: usize = 0;
        while k < self.fields.len()
            invariant
                k <= self.fields@.len(),
                forall|j: int| 0 <= j < k ==> (#[trigger] self.fields@[j]).0 != coords,
            decreases self.fields@.len() - k,
        {
            if self.fields[k].0 == coords {
                proof {
                    self.lemma_entry_view(k as int);
                }
                return Some(k);
            }
            k += 1;
        }
        None
    }

    /// Fetches a reference to the field at the given coordinates.
    pub fn field(&self, coords: AxialCoords) -> (r: Option<&Field>)
        requires
            self.wf(),
        ensures
            match r {
                Some(f) => self@.contains_key(coords) && f@ == self@[coords],
                None => !self@.contains_key(coords),
            },
    {
        match self.find_index(coords) {
            Some(i) => Some(&self.fields[i].1),
            None => None,
        }
    }

    /// Tests whether a given position is blocked: off the board,
    /// obstructed, or holding pieces.
    pub fn is_occupied(&self, coords: AxialCoords) -> (r: bool)
        requires
            self.wf(),
        ensures
            r == blocked_at(self@, coords),
    {
        match self.field(coords) {
            Some(f) => f.is_occupied(),
            None => true,
        }
    }

    /// Tests whether the board contains the given coordinate.
    pub fn contains_coords(&self, coords: AxialCoords) -> (r: bool)
        requires
            self.wf(),
        ensures
            r == self@.contains_key(coords),
    {
        match self.find_index(coords) {
            Some(_) => true,
            None => false,
        }
    }

    /// Fetches all fields as keyed entries.
    pub fn fields(&self) -> (r: &Vec<(AxialCoords, Field)>)
        ensures
            r == &self.fields,
    {
        &self.fields
    }

    /// The coordinates of the on-board neighbors of `coords`.
    fn neighbor_coords_on_board(&self, coords: AxialCoords) -> (r: Vec<AxialCoords>)
        requires
            self.wf(),
            in_coord_range(coords),
        ensures
            r@.len() <= 6,
            r@.no_duplicates(),
            forall|d: AxialCoords|
                #[trigger] r@.contains(d) == (self@.contains_key(d) && spec_adjacent(coords, d)),
    {
        let ns = coords.coord_neighbors();
        let mut r: Vec<AxialCoords> = Vec::new();
        let mut k: usize = 0;
        while k < ns.len()
            invariant
                k <= ns@.len(),
                r@.len() <= k,
                r@.no_duplicates(),
                forall|i: int|
                    0 <= i < r@.len() ==> self@.contains_key(#[trigger] r@[i]) && spec_adjacent(
                        coords,
                        r@[i],
                    ),
                forall|j: int|
                    0 <= j < k && self@.contains_key(#[trigger] ns@[j]) ==> r@.contains(ns@[j]),
            decreases ns@.len() - k,
        {
            let d = ns[k];
            proof {
                assert(ns@.contains(d));
            }
            let ghost r_old = r@;
            if self.contains_coords(d) && !contains_coord(&r, d) {
                r.push(d);
                proof {
                    lemma_push_keeps_distinct(r_old, d);
                    assert(r@[r@.len() - 1] == d);
                }
            }
            k += 1;
        }
        proof {
            assert forall|d: AxialCoords|
                #[trigger] r@.contains(d) == (self@.contains_key(d) && spec_adjacent(coords, d)) by {
                if self@.contains_key(d) && spec_adjacent(coords, d) {
                    assert(ns@.contains(d));
                    let j = choose|j: int| 0 <= j < ns@.len() && ns@[j] == d;
                    assert(r@.contains(ns@[j]));
                }
                if r@.contains(d) {
                    let i = choose|i: int| 0 <= i < r@.len() && r@[i] == d;
                    assert(self@.contains_key(r@[i]));
                }
            }
        }
        r
    }

    /// Fetches the on-board neighbor fields of `coords` as keyed
    /// entries: at most six, fewer at the board's edge.
    pub fn neighbors(&self, coords: AxialCoords) -> (r: Vec<(AxialCoords, Field)>)
        requires
            self.wf(),
            in_coord_range(coords),
        ensures
            r@.len() <= 6,
            forall|i: int, j: int|
                0 <= i < j < r@.len() ==> (#[trigger] r@[i]).0 != (#[trigger] r@[j]).0,
            forall|i: int|
                0 <= i < r@.len() ==> {
                    &&& self@.contains_key((#[trigger] r@[i]).0)
                    &&& spec_adjacent(coords, r@[i].0)
                    &&& r@[i].1@ == self@[r@[i].0]
                },
            forall|d: AxialCoords|
                self@.contains_key(d) && spec_adjacent(coords, d) ==> exists|i: int|
                    0 <= i < r@.len() && (#[trigger] r@[i]).0 == d,
    {
        let ns = self.neighbor_coords_on_board(coords);
        let mut r: Vec<(AxialCoords, Field)> = Vec::new();
        let mut k: usize = 0;
        while k < ns.len()
            invariant
                k <= ns@.len(),
                r@.len() == k,
                forall|i: int| 0 <= i < k ==> (#[trigger] r@[i]).0 == ns@[i],
                forall|i: int|
                    0 <= i < k ==> self@.contains_key((#[trigger] r@[i]).0) && r@[i].1@
                        == self@[r@[i].0],
            decreases ns@.len() - k,
        {
            let d = ns[k];
            proof {
                assert(ns@.contains(d));
            }
            match self.field(d) {
                Some(f) => {
                    let fd = f.duplicate();
                    r.push((d, fd));
                },
                None => {
                    proof {
                        assert(false);
                    }
                },
            }
            k += 1;
        }
        proof {
            assert forall|d: AxialCoords|
                self@.contains_key(d) && spec_adjacent(coords, d) implies exists|i: int|
                0 <= i < r@.len() && (#[trigger] r@[i]).0 == d by {
                assert(ns@.contains(d));
                let i = choose|i: int| 0 <= i < ns@.len() && ns@[i] == d;
                assert(r@[i].0 == d);
            }
            assert forall|i: int| 0 <= i < r@.len() implies spec_adjacent(
                coords,
                (#[trigger] r@[i]).0,
            ) by {
                assert(ns@.contains(ns@[i]));
            }
            assert forall|i: int, j: int|
                0 <= i < j < r@.len() implies (#[trigger] r@[i]).0 != (#[trigger] r@[j]).0 by {
                assert(r@[i].0 == ns@[i] && r@[j].0 == ns@[j]);
            }
        }
        r
    }

    /// Fetches all fields currently owned by the given color (their top
    /// piece belongs to it), as keyed entries.
    pub fn fields_owned_by(&self, color: PlayerColor) -> (r: Vec<(AxialCoords, Field)>)
        requires
            self.wf(),
        ensures
            forall|i: int|
                0 <= i < r@.len() ==> {
                    &&& self@.contains_key((#[trigger] r@[i]).0)
                    &&& owner_at(self@, r@[i].0) == Some(color)
                    &&& r@[i].1@ == self@[r@[i].0]
                },
            forall|c: AxialCoords|
                self@.contains_key(c) && owner_at(self@, c) == Some(color) ==> exists|i: int|
                    0 <= i < r@.len() && (#[trigger] r@[i]).0 == c,
    {
        let mut r: Vec<(AxialCoords, Field)> = Vec::new();
        let mut k: usize = 0;
        while k < self.fields.len()
            invariant
                k <= self.fields@.len(),
                forall|i: int|
                    0 <= i < r@.len() ==> {
                        &&& self@.contains_key((#[trigger] r@[i]).0)
                        &&& owner_at(self@, r@[i].0) == Some(color)
                        &&& r@[i].1@ == self@[r@[i].0]
                    },
                forall|j: int|
                    0 <= j < k && owner_at(self@, (#[trigger] self.fields@[j]).0) == Some(color)
                        ==> exists|i: int|
                        0 <= i < r@.len() && (#[trigger] r@[i]).0 == self.fields@[j].0,
            decreases self.fields@.len() - k,
        {
            let ghost r_old = r@;
            proof {
                self.lemma_entry_view(k as int);
            }
            let c = self.fields[k].0;
            if self.fields[k].1.is_owned_by(color) {
                let fd = self.fields[k].1.duplicate();
                r.push((c, fd));
            }
            proof {
                assert forall|j: int|
                    0 <= j <= k && owner_at(self@, (#[trigger] self.fields@[j]).0) == Some(color)
                        implies exists|i: int|
                    0 <= i < r@.len() && (#[trigger] r@[i]).0 == self.fields@[j].0 by {
                    if j < k {
                        let i = choose|i: int|
                            0 <= i < r_old.len() && (#[trigger] r_old[i]).0 == self.fields@[j].0;
                        assert(r@[i].0 == self.fields@[j].0);
                    } else {
                        assert(r@[r@.len() - 1].0 == c);
                    }
                }
            }
            k += 1;
        }
        proof {
            assert forall|c: AxialCoords|
                self@.contains_key(c) && owner_at(self@, c) == Some(color) implies exists|i: int|
                0 <= i < r@.len() && (#[trigger] r@[i]).0 == c by {
                let j = self.idx_of(c);
                assert(self.fields@[j].0 == c);
            }
        }
        r
    }

    /// Tests whether a bee of the given color has been placed anywhere
    /// on the board, at any position of a stack.
    pub fn has_placed_bee(&self, color: PlayerColor) -> (r: bool)
        requires
            self.wf(),
        ensures
            r == spec_has_placed_bee(self@, color),
    {
        let mut k: usize = 0;
        while k < self.fields.len()
            invariant
                k <= self.fields@.len(),
                forall|j: int|
                    0 <= j < k ==> !(#[trigger] self.fields@[j]).1@.has_bee(color),
            decreases self.fields@.len() - k,
        {
            let stack = &self.fields[k].1.piece_stack;
            let mut t: usize = 0;
            while t < stack.len()
                invariant
                    t <= stack@.len(),
                    stack@ == self.fields@[k as int].1@.stack,
                    forall|u: int|
                        0 <= u < t ==> stack@[u] != (Piece {
                            owner: color,
                            piece_type: PieceType::Bee,
                        }),
                decreases stack@.len() - t,
            {
                let p = stack[t];
                if p.owner == color && p.piece_type == PieceType::Bee {
                    proof {
                        self.lemma_entry_view(k as int);
                        assert(self.fields@[k as int].1@.has_bee(color));
                    }
                    return true;
                }
                t += 1;
            }
            k += 1;
        }
        proof {
            if spec_has_placed_bee(self@, color) {
                let c = choose|c: AxialCoords|
                    self@.contains_key(c) && (#[trigger] self@[c]).has_bee(color);
                let j = self.idx_of(c);
                self.lemma_entry_view(j);
                assert(self.fields@[j].1@.has_bee(color));
                assert(false);
            }
        }
        false
    }

    /// Tests whether the field at the given coordinates is next to a
    /// field owned by the given color.
    pub fn is_next_to(&self, color: PlayerColor, coords: AxialCoords) -> (r: bool)
        requires
            self.wf(),
            in_coord_range(coords),
        ensures
            r == next_to(self@, color, coords),
    {
        let ns = self.neighbor_coords_on_board(coords);
        let mut k: usize = 0;
        while k < ns.len()
            invariant
                k <= ns@.len(),
                forall|j: int| 0 <= j < k ==> owner_at(self@, #[trigger] ns@[j]) != Some(color),
            decreases ns@.len() - k,
        {
            let d = ns[k];
            proof {
                assert(ns@.contains(d));
            }
            match self.field(d) {
                Some(f) => {
                    if f.is_owned_by(color) {
                        proof {
                            assert(owner_at(self@, d) == Some(color));
                        }
                        return true;
                    }
                },
                None => {},
            }
            k += 1;
        }
        proof {
            if next_to(self@, color, coords) {
                let d = choose|d: AxialCoords|
                    spec_adjacent(coords, d) && #[trigger] owner_at(self@, d) == Some(color);
                assert(self@.contains_key(d));
                assert(ns@.contains(d));
                let j = choose|j: int| 0 <= j < ns@.len() && ns@[j] == d;
                assert(false);
            }
        }
        false
    }

    /// Tests whether the field at the given coordinates is adjacent to
    /// a field holding pieces.
    pub fn is_next_to_piece(&self, coords: AxialCoords) -> (r: bool)
        requires
            self.wf(),
            in_coord_range(coords),
        ensures
            r == next_to_piece(self@, coords),
    {
        let ns = self.neighbor_coords_on_board(coords);
        let mut k: usize = 0;
        while k < ns.len()
            invariant
                k <= ns@.len(),
                forall|j: int| 0 <= j < k ==> !has_pieces_at(self@, #[trigger] ns@[j]),
            decreases ns@.len() - k,
        {
            let d = ns[k];
            proof {
                assert(ns@.contains(d));
            }
            match self.field(d) {
                Some(f) => {
                    if f.has_pieces() {
                        proof {
                            assert(has_pieces_at(self@, d));
                            assert(spec_adjacent(coords, d));
                        }
                        return true;
                    }
                },
                None => {},
            }
            k += 1;
        }
        proof {
            if next_to_piece(self@, coords) {
                let d = choose|d: AxialCoords|
                    spec_adjacent(coords, d) && #[trigger] has_pieces_at(self@, d);
                assert(ns@.contains(d));
                let j = choose|j: int| 0 <= j < ns@.len() && ns@[j] == d;
                assert(false);
            }
        }
        false
    }

    /// The coordinates of the cells controlling passage between `a` and `b`.
    fn shared_coords(&self, a: AxialCoords, b: AxialCoords) -> (r: Vec<AxialCoords>)
        requires
            self.wf(),
            in_coord_range(a),
        ensures
            r@.no_duplicates(),
            forall|c: AxialCoords| #[trigger] r@.contains(c) == is_gate(self@, a, b, c),
    {
        let ns = self.neighbor_coords_on_board(a);
        let mut r: Vec<AxialCoords> = Vec::new();
        let mut k: usize = 0;
        while k < ns.len()
            invariant
                k <= ns@.len(),
                r@.no_duplicates(),
                forall|i: int|
                    0 <= i < r@.len() ==> is_gate(self@, a, b, #[trigger] r@[i]),
                forall|j: int|
                    0 <= j < k && spec_adjacent(b, #[trigger] ns@[j]) ==> r@.contains(ns@[j]),
            decreases ns@.len() - k,
        {
            let c = ns[k];
            proof {
                assert(ns@.contains(c));
            }
            let ghost r_old = r@;
            if b.is_adjacent_to(c) && !contains_coord(&r, c) {
                r.push(c);
                proof {
                    lemma_push_keeps_distinct(r_old, c);
                    assert(is_gate(self@, a, b, c));
                    assert(r@[r@.len() - 1] == c);
                }
            }
            k += 1;
        }
        proof {
            assert forall|c: AxialCoords| #[trigger] r@.contains(c) == is_gate(self@, a, b, c) by {
                if is_gate(self@, a, b, c) {
                    assert(ns@.contains(c));
                    let j = choose|j: int| 0 <= j < ns@.len() && ns@[j] == c;
                    assert(r@.contains(ns@[j]));
                }
                if r@.contains(c) {
                    let i = choose|i: int| 0 <= i < r@.len() && r@[i] == c;
                    assert(is_gate(self@, a, b, r@[i]));
                }
            }
        }
        r
    }

    /// Finds the cells common to `a`'s and `b`'s on-board
    /// neighborhoods, as keyed entries: they control passage between the two.
    pub fn shared_neighbors(&self, a: AxialCoords, b: AxialCoords) -> (r: Vec<(AxialCoords, Field)>)
        requires
            self.wf(),
            in_coord_range(a),
        ensures
            forall|i: int, j: int|
                0 <= i < j < r@.len() ==> (#[trigger] r@[i]).0 != (#[trigger] r@[j]).0,
            forall|i: int|
                0 <= i < r@.len() ==> is_gate(self@, a, b, (#[trigger] r@[i]).0) && r@[i].1@
                    == self@[r@[i].0],
            forall|c: AxialCoords|
                is_gate(self@, a, b, c) ==> exists|i: int|
                    0 <= i < r@.len() && (#[trigger] r@[i]).0 == c,
    {
        let cs = self.shared_coords(a, b);
        let mut r: Vec<(AxialCoords, Field)> = Vec::new();
        let mut k: usize = 0;
        while k < cs.len()
            invariant
                k <= cs@.len(),
                r@.len() == k,
                forall|i: int| 0 <= i < k ==> (#[trigger] r@[i]).0 == cs@[i],
                forall|i: int|
                    0 <= i < k ==> self@.contains_key((#[trigger] r@[i]).0) && r@[i].1@
                        == self@[r@[i].0],
            decreases cs@.len() - k,
        {
            let c = cs[k];
            proof {
                assert(cs@.contains(c));
            }
            match self.field(c) {
                Some(f) => {
                    let fd = f.duplicate();
                    r.push((c, fd));
                },
                None => {
                    proof {
                        assert(false);
                    }
                },
            }
            k += 1;
        }
        proof {
            assert forall|c: AxialCoords|
                is_gate(self@, a, b, c) implies exists|i: int|
                0 <= i < r@.len() && (#[trigger] r@[i]).0 == c by {
                assert(cs@.contains(c));
                let i = choose|i: int| 0 <= i < cs@.len() && cs@[i] == c;
                assert(r@[i].0 == c);
            }
            assert forall|i: int, j: int|
                0 <= i < j < r@.len() implies (#[trigger] r@[i]).0 != (#[trigger] r@[j]).0 by {
                assert(r@[i].0 == cs@[i] && r@[j].0 == cs@[j]);
            }
            assert forall|i: int|
                0 <= i < r@.len() implies is_gate(self@, a, b, (#[trigger] r@[i]).0) by {
                assert(cs@.contains(cs@[i]));
            }
        }
        r
    }

    /// Tests whether a piece may slide between the two given locations
    /// (the freedom-to-move rule).
    #[verifier::rlimit(50)]
    pub fn can_move_between(&self, a: AxialCoords, b: AxialCoords) -> (r: bool)
        requires
            self.wf(),
            in_coord_range(a),
        ensures
            r == can_slide(self@, a, b),
    {
        let shared = self.shared_coords(a, b);
        let single = shared.len() == 1;
        proof {
            if single {
                assert(shared@.contains(shared@[0]));
                assert(is_gate(self@, a, b, shared@[0]));
                assert forall|d: AxialCoords| #[trigger] is_gate(self@, a, b, d) implies d
                    == shared@[0] by {
                    assert(shared@.contains(d));
                    let j = choose|j: int| 0 <= j < shared@.len() && shared@[j] == d;
                    assert(j == 0);
                }
                assert(single_gate(self@, a, b));
            } else {
                if single_gate(self@, a, b) {
                    let c = choose|c: AxialCoords|
                        #[trigger] is_gate(self@, a, b, c) && forall|d: AxialCoords|
                            #[trigger] is_gate(self@, a, b, d) ==> d == c;
                    assert(shared@.contains(c));
                    if shared@.len() >= 2 {
                        assert(shared@.contains(shared@[0]) && shared@.contains(shared@[1]));
                        assert(is_gate(self@, a, b, shared@[0]) && is_gate(self@, a, b, shared@[1]));
                        assert(shared@[0] == c && shared@[1] == c);
                        assert(false);
                    } else {
                        assert(shared@.len() == 0);
                        assert(false);
                    }
                }
            }
        }
        let mut free = false;
        let mut k: usize = 0;
        while k < shared.len()
            invariant
                k <= shared@.len(),
                free == exists|j: int|
                    0 <= j < k && !self@[#[trigger] shared@[j]].obstructed,
            decreases shared@.len() - k,
        {
            let c = shared[k];
            proof {
                assert(shared@.contains(c));
            }
            match self.field(c) {
                Some(f) => {
                    if !f.is_obstructed {
                        free = true;
                    }
                },
                None => {
                    proof {
                        assert(false);
                    }
                },
            }
            k += 1;
        }
        proof {
            assert(free == (exists|c: AxialCoords|
                #[trigger] is_gate(self@, a, b, c) && !self@[c].obstructed)) by {
                if free {
                    let j = choose|j: int| 0 <= j < shared@.len() && !self@[shared@[j]].obstructed;
                    assert(shared@.contains(shared@[j]));
                    assert(is_gate(self@, a, b, shared@[j]));
                } else {
                    if exists|c: AxialCoords|
                        #[trigger] is_gate(self@, a, b, c) && !self@[c].obstructed {
                        let c = choose|c: AxialCoords|
                            #[trigger] is_gate(self@, a, b, c) && !self@[c].obstructed;
                        assert(shared@.contains(c));
                        let j = choose|j: int| 0 <= j < shared@.len() && shared@[j] == c;
                        assert(false);
                    }
                }
            }
        }
        let a_pieces = match self.field(a) {
            Some(f) => f.has_pieces(),
            None => false,
        };
        let b_pieces = match self.field(b) {
            Some(f) => f.has_pieces(),
            None => false,
        };
        (single || free) && (a_pieces || b_pieces)
    }

    /// The coordinates of the accessible neighbors of `c`.
    pub(crate) fn accessible_coords(&self, c: AxialCoords) -> (r: Vec<AxialCoords>)
        requires
            self.wf(),
            in_coord_range(c),
        ensures
            r@.no_duplicates(),
            forall|d: AxialCoords| #[trigger] r@.contains(d) == acc_edge(self@)(c, d),
    {
        let ns = self.neighbor_coords_on_board(c);
        let mut r: Vec<AxialCoords> = Vec::new();
        let mut k: usize = 0;
        while k < ns.len()
            invariant
                k <= ns@.len(),
                r@.no_duplicates(),
                forall|i: int| 0 <= i < r@.len() ==> acc_edge(self@)(c, #[trigger] r@[i]),
                forall|j: int|
                    0 <= j < k && can_slide(self@, c, #[trigger] ns@[j]) ==> r@.contains(ns@[j]),
            decreases ns@.len() - k,
        {
            let d = ns[k];
            proof {
                assert(ns@.contains(d));
            }
            let ghost r_old = r@;
            if self.can_move_between(c, d) && !contains_coord(&r, d) {
                r.push(d);
                proof {
                    lemma_push_keeps_distinct(r_old, d);
                    assert(acc_edge(self@)(c, d));
                    assert(r@[r@.len() - 1] == d);
                }
            }
            k += 1;
        }
        proof {
            assert forall|d: AxialCoords| #[trigger] r@.contains(d) == acc_edge(self@)(c, d) by {
                if acc_edge(self@)(c, d) {
                    assert(ns@.contains(d));
                    let j = choose|j: int| 0 <= j < ns@.len() && ns@[j] == d;
                    assert(r@.contains(ns@[j]));
                }
                if r@.contains(d) {
                    let i = choose|i: int| 0 <= i < r@.len() && r@[i] == d;
                    assert(acc_edge(self@)(c, r@[i]));
                }
            }
        }
        r
    }

    /// Finds the accessible neighbors of `coords`, as keyed entries:
    /// the on-board neighbors that a piece could slide to.
    pub fn accessible_neighbors(&self, coords: AxialCoords) -> (r: Vec<(AxialCoords, Field)>)
        requires
            self.wf(),
            in_coord_range(coords),
        ensures
            forall|i: int, j: int|
                0 <= i < j < r@.len() ==> (#[trigger] r@[i]).0 != (#[trigger] r@[j]).0,
            forall|i: int|
                0 <= i < r@.len() ==> acc_edge(self@)(coords, (#[trigger] r@[i]).0) && r@[i].1@
                    == self@[r@[i].0],
            forall|d: AxialCoords|
                #[trigger] acc_edge(self@)(coords, d) ==> exists|i: int|
                    0 <= i < r@.len() && (#[trigger] r@[i]).0 == d,
    {
        let cs = self.accessible_coords(coords);
        let mut r: Vec<(AxialCoords, Field)> = Vec::new();
        let mut k: usize = 0;
        while k < cs.len()
            invariant
                k <= cs@.len(),
                r@.len() == k,
                forall|i: int| 0 <= i < k ==> (#[trigger] r@[i]).0 == cs@[i],
                forall|i: int|
                    0 <= i < k ==> self@.contains_key((#[trigger] r@[i]).0) && r@[i].1@
                        == self@[r@[i].0],
            decreases cs@.len() - k,
        {
            let c = cs[k];
            proof {
                assert(cs@.contains(c));
                assert(acc_edge(self@)(coords, c));
            }
            match self.field(c) {
                Some(f) => {
                    let fd = f.duplicate();
                    r.push((c, fd));
                },
                None => {
                    proof {
                        assert(false);
                    }
                },
            }
            k += 1;
        }
        proof {
            assert forall|d: AxialCoords|
                #[trigger] acc_edge(self@)(coords, d) implies exists|i: int|
                0 <= i < r@.len() && (#[trigger] r@[i]).0 == d by {
                assert(cs@.contains(d));
                let i = choose|i: int| 0 <= i < cs@.len() && cs@[i] == d;
                assert(r@[i].0 == d);
            }
            assert forall|i: int, j: int|
                0 <= i < j < r@.len() implies (#[trigger] r@[i]).0 != (#[trigger] r@[j]).0 by {
                assert(r@[i].0 == cs@[i] && r@[j].0 == cs@[j]);
            }
            assert forall|i: int|
                0 <= i < r@.len() implies acc_edge(self@)(coords, (#[trigger] r@[i]).0) by {
                assert(cs@.contains(cs@[i]));
            }
        }
        r
    }
}

/// An empty swarm is connected: a board without pieces satisfies the
/// one-hive property trivially.
pub proof fn lemma_empty_swarm_connected(m: Map<AxialCoords, FieldModel>)
    requires
        !spec_any_pieces(m),
    ensures
        swarm_connected(m),
{
}

/// The squeeze direction of the freedom-to-move rule: when two distinct
/// gate cells exist between `a` and `b` and both are obstructed,
/// sliding between `a` and `b` is impossible.
pub proof fn lemma_squeezed_shut(
    m: Map<AxialCoords, FieldModel>,
    a: AxialCoords,
    b: AxialCoords,
    c1: AxialCoords,
    c2: AxialCoords,
)
    requires
        c1 != c2,
        is_gate(m, a, b, c1),
        is_gate(m, a, b, c2),
        m[c1].obstructed,
        m[c2].obstructed,
        forall|d: AxialCoords| #[trigger] is_gate(m, a, b, d) ==> d == c1 || d == c2,
    ensures
        !can_slide(m, a, b),
{
    if single_gate(m, a, b) {
        let c = choose|c: AxialCoords|
            #[trigger] is_gate(m, a, b, c) && forall|d: AxialCoords|
                #[trigger] is_gate(m, a, b, d) ==> d == c;
        assert(c1 == c && c2 == c);
    }
}

/// The board-edge direction of the freedom-to-move rule: when exactly
/// one gate cell exists between `a` and `b`, sliding is possible no
/// matter what that gate cell holds, provided one of the two fields
/// themselves holds a piece.
pub proof fn lemma_single_gate_free(
    m: Map<AxialCoords, FieldModel>,
    a: AxialCoords,
    b: AxialCoords,
)
    requires
        single_gate(m, a, b),
        has_pieces_at(m, a) || has_pieces_at(m, b),
    ensures
        can_slide(m, a, b),
{
}

/// The edge relation the traversal engine runs over: the
/// accessible-neighbor graph, or raw adjacency restricted to the swarm.
pub open spec fn spec_edge(
    m: Map<AxialCoords, FieldModel>,
    use_acc: bool,
) -> spec_fn(AxialCoords, AxialCoords) -> bool {
    if use_acc {
        acc_edge(m)
    } else {
        swarm_edge(m)
    }
}

impl Board {
    /// A duplicate-free sequence of on-board coordinates is no longer
    /// than the board itself.
    proof fn lemma_distinct_coords_bound(self, vs: Seq<AxialCoords>)
        requires
            self.wf(),
            vs.no_duplicates(),
            forall|i: int| 0 <= i < vs.len() ==> self.spec_contains(#[trigger] vs[i]),
        ensures
            vs.len() <= self.fields@.len(),
    {
        self.lemma_keys_distinct();
        vs.unique_seq_to_set();
        self.key_seq().unique_seq_to_set();
        assert forall|c: AxialCoords| vs.to_set().contains(c) implies self.key_seq()
            .to_set()
            .contains(c) by {
            assert(vs.contains(c));
            let i = choose|i: int| 0 <= i < vs.len() && vs[i] == c;
            assert(self.spec_contains(c));
        }
        lemma_len_subset(vs.to_set(), self.key_seq().to_set());
    }

    /// The coordinates of the occupied on-board neighbors of `c`.
    fn occupied_neighbor_coords(&self, c: AxialCoords) -> (r: Vec<AxialCoords>)
        requires
            self.wf(),
            in_coord_range(c),
        ensures
            r@.no_duplicates(),
            forall|d: AxialCoords|
                #[trigger] r@.contains(d) == (has_pieces_at(self@, d) && spec_adjacent(c, d)),
    {
        let ns = self.neighbor_coords_on_board(c);
        let mut r: Vec<AxialCoords> = Vec::new();
        let mut k: usize = 0;
        while k < ns.len()
            invariant
                k <= ns@.len(),
                r@.no_duplicates(),
                forall|i: int|
                    0 <= i < r@.len() ==> has_pieces_at(self@, #[trigger] r@[i]) && spec_adjacent(
                        c,
                        r@[i],
                    ),
                forall|j: int|
                    0 <= j < k && has_pieces_at(self@, #[trigger] ns@[j]) ==> r@.contains(ns@[j]),
            decreases ns@.len() - k,
        {
            let d = ns[k];
            proof {
                assert(ns@.contains(d));
            }
            let occ = match self.field(d) {
                Some(f) => f.has_pieces(),
                None => false,
            };
            let ghost r_old = r@;
            if occ && !contains_coord(&r, d) {
                r.push(d);
                proof {
                    lemma_push_keeps_distinct(r_old, d);
                    assert(r@[r@.len() - 1] == d);
                }
            }
            k += 1;
        }
        proof {
            assert forall|d: AxialCoords|
                #[trigger] r@.contains(d) == (has_pieces_at(self@, d) && spec_adjacent(c, d)) by {
                if has_pieces_at(self@, d) && spec_adjacent(c, d) {
                    assert(ns@.contains(d));
                    let j = choose|j: int| 0 <= j < ns@.len() && ns@[j] == d;
                    assert(r@.contains(ns@[j]));
                }
                if r@.contains(d) {
                    let i = choose|i: int| 0 <= i < r@.len() && r@[i] == d;
                    assert(has_pieces_at(self@, r@[i]));
                }
            }
        }
        r
    }

    /// Traverses the chosen edge relation from `start` until no new
    /// coordinate can be added, and returns every coordinate seen.  The
    /// result contains `start`, only reachable on-board coordinates,
    /// and is closed under the edge relation.
    fn saturate(
        &self,
        start: AxialCoords,
        use_acc: bool,
        Ghost(e): Ghost<spec_fn(AxialCoords, AxialCoords) -> bool>,
    ) -> (visited: Vec<AxialCoords>)
        requires
            self.wf(),
            self@.contains_key(start),
            !use_acc ==> has_pieces_at(self@, start),
            e == spec_edge(self@, use_acc),
        ensures
            visited@.no_duplicates(),
            visited@.contains(start),
            forall|c: AxialCoords|
                #[trigger] visited@.contains(c) ==> self@.contains_key(c) && reaches(e, start, c),
            forall|c: AxialCoords, d: AxialCoords|
                visited@.contains(c) && #[trigger] e(c, d) ==> visited@.contains(d),
    {
        let mut visited: Vec<AxialCoords> = Vec::new();
        visited.push(start);
        proof {
            assert(visited@[0] == start);
            lemma_reaches_refl(e, start);
        }
        let mut i: usize = 0;
        while i < visited.len()
            invariant
                i <= visited@.len(),
                1 <= visited@.len() <= self.fields@.len(),
                visited@[0] == start,
                visited@.no_duplicates(),
                forall|t: int|
                    0 <= t < visited@.len() ==> self@.contains_key(#[trigger] visited@[t])
                        && reaches(e, start, visited@[t]) && (!use_acc ==> has_pieces_at(
                        self@,
                        visited@[t],
                    )),
                forall|t: int, d: AxialCoords|
                    0 <= t < i && #[trigger] e(visited@[t], d) ==> visited@.contains(d),
            decreases self.fields@.len() - visited@.len(), visited@.len() - i,
        {
            let ghost v_start = visited@;
            let c = visited[i];
            proof {
                assert(self@.contains_key(c));
                let ci = self.idx_of(c);
                assert(self.fields@[ci].0 == c);
                assert(in_coord_range(c));
            }
            let ns = if use_acc {
                self.accessible_coords(c)
            } else {
                self.occupied_neighbor_coords(c)
            };
            proof {
                assert forall|d: AxialCoords| #[trigger] ns@.contains(d) == e(c, d) by {
                    if use_acc {
                        assert(ns@.contains(d) == acc_edge(self@)(c, d));
                    } else {
                        assert(ns@.contains(d) == (has_pieces_at(self@, d) && spec_adjacent(c, d)));
                        assert(has_pieces_at(self@, c));
                    }
                }
            }
            let mut k: usize = 0;
            while k < ns.len()
                invariant
                    k <= ns@.len(),
                    i < visited@.len(),
                    c == visited@[i as int],
                    v_start.len() <= visited@.len(),
                    1 <= visited@.len() <= self.fields@.len(),
                    visited@[0] == start,
                    visited@.no_duplicates(),
                    forall|d: AxialCoords| #[trigger] ns@.contains(d) == e(c, d),
                    forall|t: int|
                        0 <= t < visited@.len() ==> self@.contains_key(#[trigger] visited@[t])
                            && reaches(e, start, visited@[t]) && (!use_acc ==> has_pieces_at(
                            self@,
                            visited@[t],
                        )),
                    forall|t: int, d: AxialCoords|
                        0 <= t < i && #[trigger] e(visited@[t], d) ==> visited@.contains(d),
                    forall|j: int| 0 <= j < k ==> visited@.contains(#[trigger] ns@[j]),
                decreases ns@.len() - k,
            {
                let d = ns[k];
                proof {
                    assert(ns@.contains(d));
                    assert(e(c, d));
                }
                let ghost v_old = visited@;
                if !contains_coord(&visited, d) {
                    visited.push(d);
                    proof {
                        lemma_push_keeps_distinct(v_old, d);
                        assert(visited@[visited@.len() - 1] == d);
                        assert(reaches(e, start, c));
                        lemma_reaches_step(e, start, c, d);
                        assert(self@.contains_key(d)) by {
                            if use_acc {
                                assert(acc_edge(self@)(c, d));
                            } else {
                                assert(has_pieces_at(self@, d));
                            }
                        }
                        assert forall|t: int|
                            0 <= t < visited@.len() implies self@.contains_key(
                            #[trigger] visited@[t],
                        ) && reaches(e, start, visited@[t]) && (!use_acc ==> has_pieces_at(
                            self@,
                            visited@[t],
                        )) by {
                            if t < v_old.len() {
                                assert(visited@[t] == v_old[t]);
                            } else {
                                assert(visited@[t] == d);
                            }
                        }
                        assert forall|t: int|
                            0 <= t < visited@.len() implies self.spec_contains(
                            #[trigger] visited@[t],
                        ) by {
                            assert(self@.contains_key(visited@[t]));
                        }
                        self.lemma_distinct_coords_bound(visited@);
                    }
                }
                k += 1;
            }
            proof {
                assert forall|d: AxialCoords| #[trigger] e(c, d) implies visited@.contains(d) by {
                    assert(ns@.contains(d));
                    let j = choose|j: int| 0 <= j < ns@.len() && ns@[j] == d;
                    assert(visited@.contains(ns@[j]));
                }
            }
            i += 1;
        }
        proof {
            assert(visited@.contains(visited@[0]));
            assert forall|c: AxialCoords|
                #[trigger] visited@.contains(c) implies self@.contains_key(c) && reaches(
                e,
                start,
                c,
            ) by {
                let t = choose|t: int| 0 <= t < visited@.len() && visited@[t] == c;
                assert(self@.contains_key(visited@[t]));
            }
            assert forall|c: AxialCoords, d: AxialCoords|
                visited@.contains(c) && #[trigger] e(c, d) implies visited@.contains(d) by {
                let t = choose|t: int| 0 <= t < visited@.len() && visited@[t] == c;
                assert(e(visited@[t], d));
            }
        }
        visited
    }

    /// Tests whether two coordinates are connected by a path along the
    /// swarm's boundary: the destination is reachable from the start
    /// over the accessible-neighbor graph.
    pub fn connected_by_boundary_path(
        &self,
        start_coords: AxialCoords,
        destination_coords: AxialCoords,
    ) -> (r: bool)
        requires
            self.wf(),
        ensures
            r == (self@.contains_key(start_coords) && reaches(
                acc_edge(self@),
                start_coords,
                destination_coords,
            )),
    {
        if !self.contains_coords(start_coords) {
            return false;
        }
        let visited = self.saturate(start_coords, true, Ghost(acc_edge(self@)));
        let found = contains_coord(&visited, destination_coords);
        proof {
            let e = acc_edge(self@);
            if !found {
                if reaches(e, start_coords, destination_coords) {
                    lemma_closed_contains_reachable(
                        e,
                        visited@,
                        start_coords,
                        destination_coords,
                    );
                    assert(false);
                }
            }
        }
        found
    }

    /// The coordinates currently holding pieces.
    fn swarm_coords(&self) -> (r: Vec<AxialCoords>)
        requires
            self.wf(),
        ensures
            r@.no_duplicates(),
            forall|c: AxialCoords| #[trigger] r@.contains(c) == has_pieces_at(self@, c),
    {
        let mut r: Vec<AxialCoords> = Vec::new();
        let mut k: usize = 0;
        while k < self.fields.len()
            invariant
                k <= self.fields@.len(),
                r@.no_duplicates(),
                forall|i: int|
                    0 <= i < r@.len() ==> has_pieces_at(self@, #[trigger] r@[i]),
                forall|j: int|
                    0 <= j < k && has_pieces_at(self@, (#[trigger] self.fields@[j]).0)
                        ==> r@.contains(self.fields@[j].0),
            decreases self.fields@.len() - k,
        {
            proof {
                self.lemma_entry_view(k as int);
            }
            let c = self.fields[k].0;
            let ghost r_old = r@;
            if self.fields[k].1.has_pieces() && !contains_coord(&r, c) {
                r.push(c);
                proof {
                    lemma_push_keeps_distinct(r_old, c);
                    assert(r@[r@.len() - 1] == c);
                }
            }
            k += 1;
        }
        proof {
            assert forall|c: AxialCoords|
                #[trigger] r@.contains(c) == has_pieces_at(self@, c) by {
                if has_pieces_at(self@, c) {
                    let j = self.idx_of(c);
                    assert(self.fields@[j].0 == c);
                    assert(r@.contains(self.fields@[j].0));
                }
                if r@.contains(c) {
                    let i = choose|i: int| 0 <= i < r@.len() && r@[i] == c;
                    assert(has_pieces_at(self@, r@[i]));
                }
            }
        }
        r
    }

    /// Tests whether any field of the board holds pieces.
    pub(crate) fn has_any_pieces(&self) -> (r: bool)
        requires
            self.wf(),
        ensures
            r == spec_any_pieces(self@),
    {
        let sw = self.swarm_coords();
        let r = sw.len() > 0;
        proof {
            if sw@.len() > 0 {
                assert(sw@.contains(sw@[0]));
                assert(has_pieces_at(self@, sw@[0]));
            } else {
                if spec_any_pieces(self@) {
                    let c = choose|c: AxialCoords| #[trigger] has_pieces_at(self@, c);
                    assert(sw@.contains(c));
                    assert(false);
                }
            }
        }
        r
    }

    /// Tests whether any field is owned by the given color.
    pub(crate) fn any_owned_by(&self, color: PlayerColor) -> (r: bool)
        requires
            self.wf(),
        ensures
            r == owns_field(self@, color),
    {
        let mut k: usize = 0;
        while k < self.fields.len()
            invariant
                k <= self.fields@.len(),
                forall|j: int|
                    0 <= j < k ==> owner_at(self@, (#[trigger] self.fields@[j]).0) != Some(color),
            decreases self.fields@.len() - k,
        {
            proof {
                self.lemma_entry_view(k as int);
            }
            if self.fields[k].1.is_owned_by(color) {
                proof {
                    assert(owner_at(self@, self.fields@[k as int].0) == Some(color));
                }
                return true;
            }
            k += 1;
        }
        proof {
            if owns_field(self@, color) {
                let c = choose|c: AxialCoords| #[trigger] owner_at(self@, c) == Some(color);
                assert(self@.contains_key(c));
                let j = self.idx_of(c);
                assert(self.fields@[j].0 == c);
                assert(false);
            }
        }
        false
    }

    /// Tests whether some gate cell of `(a, b)` holds pieces.
    pub(crate) fn any_gate_with_pieces(&self, a: AxialCoords, b: AxialCoords) -> (r: bool)
        requires
            self.wf(),
            in_coord_range(a),
        ensures
            r == exists|c: AxialCoords| #[trigger] is_gate(self@, a, b, c) && self@[c].stack.len()
                > 0,
    {
        let cs = self.shared_coords(a, b);
        let mut k: usize = 0;
        while k < cs.len()
            invariant
                k <= cs@.len(),
                forall|j: int| 0 <= j < k ==> self@[#[trigger] cs@[j]].stack.len() == 0,
            decreases cs@.len() - k,
        {
            let c = cs[k];
            proof {
                assert(cs@.contains(c));
            }
            match self.field(c) {
                Some(f) => {
                    if f.has_pieces() {
                        proof {
                            assert(is_gate(self@, a, b, c) && self@[c].stack.len() > 0);
                        }
                        return true;
                    }
                },
                None => {
                    proof {
                        assert(false);
                    }
                },
            }
            k += 1;
        }
        proof {
            if exists|c: AxialCoords| #[trigger] is_gate(self@, a, b, c) && self@[c].stack.len()
                > 0 {
                let c = choose|c: AxialCoords|
                    #[trigger] is_gate(self@, a, b, c) && self@[c].stack.len() > 0;
                assert(cs@.contains(c));
                let j = choose|j: int| 0 <= j < cs@.len() && cs@[j] == c;
                assert(false);
            }
        }
        false
    }

    /// Tests whether the set of occupied coordinates forms one connected
    /// swarm (the one-hive invariant).  An empty swarm is connected.
    pub fn is_swarm_connected(&self) -> (r: bool)
        requires
            self.wf(),
        ensures
            r == swarm_connected(self@),
    {
        let sw = self.swarm_coords();
        let ghost e = swarm_edge(self@);
        if sw.len() == 0 {
            proof {
                assert forall|a: AxialCoords, b: AxialCoords|
                    #[trigger] has_pieces_at(self@, a) && #[trigger] has_pieces_at(self@, b)
                        implies reaches(e, a, b) by {
                    assert(sw@.contains(a));
                    assert(false);
                }
            }
            return true;
        }
        let root = sw[0];
        proof {
            assert(sw@.contains(root));
        }
        let visited = self.saturate(root, false, Ghost(e));
        let mut j: usize = 0;
        while j < sw.len()
            invariant
                j <= sw@.len(),
                forall|t: int| 0 <= t < j ==> visited@.contains(#[trigger] sw@[t]),
            decreases sw@.len() - j,
        {
            let s = sw[j];
            if !contains_coord(&visited, s) {
                proof {
                    assert(sw@.contains(s));
                    assert(has_pieces_at(self@, s));
                    if reaches(e, root, s) {
                        lemma_closed_contains_reachable(e, visited@, root, s);
                        assert(false);
                    }
                    if swarm_connected(self@) {
                        assert(has_pieces_at(self@, root) && has_pieces_at(self@, s));
                        assert(reaches(e, root, s));
                        assert(false);
                    }
                }
                return false;
            }
            j += 1;
        }
        proof {
            assert forall|x: AxialCoords, y: AxialCoords|
                #[trigger] has_pieces_at(self@, x) && #[trigger] has_pieces_at(self@, y)
                    implies reaches(e, x, y) by {
                assert(sw@.contains(x) && sw@.contains(y));
                let tx = choose|t: int| 0 <= t < sw@.len() && sw@[t] == x;
                let ty = choose|t: int| 0 <= t < sw@.len() && sw@[t] == y;
                assert(visited@.contains(sw@[tx]) && visited@.contains(sw@[ty]));
                assert(reaches(e, root, x) && reaches(e, root, y));
                assert forall|p: AxialCoords, q: AxialCoords| #[trigger] e(p, q) implies e(
                    q,
                    p,
                ) by {}
                lemma_reaches_sym(e, root, x);
                lemma_reaches_trans(e, x, root, y);
            }
        }
        true
    }

    /// The board model after removing the top piece at `c` (unchanged
    /// when `c` is off the board or empty).
    pub open spec fn popped_model(
        m: Map<AxialCoords, FieldModel>,
        c: AxialCoords,
    ) -> Map<AxialCoords, FieldModel> {
        if m.contains_key(c) && m[c].stack.len() > 0 {
            m.insert(
                c,
                FieldModel { stack: m[c].stack.drop_last(), obstructed: m[c].obstructed },
            )
        } else {
            m
        }
    }

    /// Builds the hypothetical board in which the top piece at `coords`
    /// has been removed; the board itself is untouched.
    pub(crate) fn popped(&self, coords: AxialCoords) -> (r: Board)
        requires
            self.wf(),
        ensures
            r.wf(),
            r@ == Board::popped_model(self@, coords),
    {
        let mut fields: Vec<(AxialCoords, Field)> = Vec::new();
        let mut k: usize = 0;
        while k < self.fields.len()
            invariant
                k <= self.fields@.len(),
                fields@.len() == k,
                forall|i: int|
                    0 <= i < k ==> (#[trigger] fields@[i]).0 == self.fields@[i].0,
                forall|i: int|
                    0 <= i < k ==> (#[trigger] fields@[i]).1@ == (if self.fields@[i].0 == coords {
                        FieldModel {
                            stack: (if self.fields@[i].1@.stack.len() > 0 {
                                self.fields@[i].1@.stack.drop_last()
                            } else {
                                self.fields@[i].1@.stack
                            }),
                            obstructed: self.fields@[i].1@.obstructed,
                        }
                    } else {
                        self.fields@[i].1@
                    }),
            decreases self.fields@.len() - k,
        {
            let c = self.fields[k].0;
            let mut fd = self.fields[k].1.duplicate();
            if c == coords {
                let _popped_piece = fd.pop();
            }
            fields.push((c, fd));
            k += 1;
        }
        let r = Board { fields };
        proof {
            assert forall|i: int, j: int|
                0 <= i < j < r.fields@.len() implies (#[trigger] r.fields@[i]).0 != (
                #[trigger] r.fields@[j]).0 by {
                assert(self.fields@[i].0 != self.fields@[j].0);
            }
            assert forall|i: int|
                0 <= i < r.fields@.len() implies in_coord_range(
                (#[trigger] r.fields@[i]).0,
            ) by {
                assert(in_coord_range(self.fields@[i].0));
            }
            assert(r.wf());
            assert forall|c: AxialCoords| r.spec_contains(c) == self.spec_contains(c) by {
                if r.spec_contains(c) {
                    let i = choose|i: int| 0 <= i < r.fields@.len() && r.fields@[i].0 == c;
                    assert(self.fields@[i].0 == c);
                }
                if self.spec_contains(c) {
                    let i = choose|i: int|
                        0 <= i < self.fields@.len() && self.fields@[i].0 == c;
                    assert(r.fields@[i].0 == c);
                }
            }
            let pm = Board::popped_model(self@, coords);
            assert forall|c: AxialCoords| r@.contains_key(c) implies r@[c] == pm[c] by {
                let i = r.idx_of(c);
                r.lemma_entry_view(i);
                assert(self.fields@[i].0 == c);
                self.lemma_entry_view(i);
                if c == coords {
                    assert(self@.contains_key(coords));
                    assert(self@[coords] == self.fields@[i].1@);
                } else {
                    assert(r@[c] == self@[c]);
                }
            }
            assert(r@ =~= pm);
        }
        r
    }
}

} // verus!
