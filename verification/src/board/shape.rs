//! When a position is well formed, and how a move changes it.
use vstd::prelude::*;
use crate::board::on_board;
use crate::board::packedmove::{PackedCoord, PackedMove};
use crate::board::piece::{
    is_piece_letter, is_upper, letter_of_piece, slot_kind, PieceSet, PieceType,
};

use crate::board::BoardState;

verus! {

/// Whether one of the sixteen slots of `set` holds `p`.
pub open spec fn slot_holds(set: PieceSet, p: PackedCoord) -> bool {
    exists|i: int| 0 <= i < 16 && #[trigger] set.slot(i) == p
}

/// Whether `k` is the first index of `s` that holds `target`.
pub open spec fn is_first_hit(s: Seq<PackedCoord>, target: PackedCoord, k: int) -> bool {
    &&& 0 <= k < s.len()
    &&& s[k] == target
    &&& forall|j: int| 0 <= j < k ==> s[j] != target
}

/// The first index of `arr` that holds `target`, or `None` where none does.
pub fn find_first<const N: usize>(arr: &[PackedCoord; N], target: &PackedCoord) -> (r: Option<usize>)
    ensures
        match r {
            Some(k) => is_first_hit(arr@, *target, k as int),
            None => forall|j: int| 0 <= j < N ==> arr[j] != *target,
        },
{
    let mut i: usize = 0;
    while i < N
        invariant
            i <= N,
            forall|j: int| 0 <= j < i ==> arr[j] != *target,
        decreases N - i,
    {
        if arr[i].data == target.data {
            return Some(i);
        }
        i += 1;
    }
    None
}

impl PieceSet {
    /// Whether `k` is the first slot of kind `kind` that holds `from`.
    pub open spec fn is_first_slot(&self, kind: PieceType, from: PackedCoord, k: int) -> bool {
        &&& 0 <= k < 16
        &&& slot_kind(k) == kind
        &&& self.slot(k) == from
        &&& forall|j: int| 0 <= j < k && slot_kind(j) == kind ==> self.slot(j) != from
    }

    /// Whether `after` is this roster with `to` written into slot `k`.
    pub open spec fn slot_written(&self, after: PieceSet, k: int, to: PackedCoord) -> bool {
        forall|i: int|
            0 <= i < 16 ==> #[trigger] after.slot(i) == if i == k {
                to
            } else {
                self.slot(i)
            }
    }

    /// Whether `after` is this roster with `to` in every slot that held `from`.
    pub open spec fn relocated(&self, after: PieceSet, from: PackedCoord, to: PackedCoord) -> bool {
        forall|i: int|
            0 <= i < 16 ==> #[trigger] after.slot(i) == if self.slot(i) == from {
                to
            } else {
                self.slot(i)
            }
    }

    /// The first slot of kind `kind` that holds `from`, or `None` where none does.
    pub fn find_slot(&self, kind: PieceType, from: &PackedCoord) -> (r: Option<usize>)
        ensures
            match r {
                Some(k) => self.is_first_slot(kind, *from, k as int),
                None => forall|j: int| 0 <= j < 16 && slot_kind(j) == kind ==> self.slot(j) != *from,
            },
    {
        match kind {
            PieceType::Rook => match find_first(&self.Rooks, from) {
                Some(k) => Some(k),
                None => None,
            },
            PieceType::Cannon => match find_first(&self.Cannons, from) {
                Some(k) => Some(k + 2),
                None => None,
            },
            PieceType::Horse => match find_first(&self.Horses, from) {
                Some(k) => Some(k + 4),
                None => None,
            },
            PieceType::Elephant => match find_first(&self.Elephants, from) {
                Some(k) => Some(k + 6),
                None => None,
            },
            PieceType::Pawn => match find_first(&self.Pawns, from) {
                Some(k) => Some(k + 8),
                None => None,
            },
            PieceType::King => if self.King.data == from.data {
                Some(13)
            } else {
                None
            },
            PieceType::Advisor => match find_first(&self.Advisors, from) {
                Some(k) => Some(k + 14),
                None => None,
            },
        }
    }

    /// Writes `to` into slot `k`.
    pub fn set_slot(&mut self, k: usize, to: PackedCoord)
        requires
            k < 16,
        ensures
            old(self).slot_written(*final(self), k as int, to),
    {
        if k < 2 {
            self.Rooks[k] = to;
        } else if k < 4 {
            self.Cannons[k - 2] = to;
        } else if k < 6 {
            self.Horses[k - 4] = to;
        } else if k < 8 {
            self.Elephants[k - 6] = to;
        } else if k < 13 {
            self.Pawns[k - 8] = to;
        } else if k == 13 {
            self.King = to;
        } else {
            self.Advisors[k - 14] = to;
        }
    }
}

impl BoardState {
    /// Every square is empty or holds one of the fourteen piece letters.
    pub open spec fn letters_valid(&self) -> bool {
        forall|x: int, y: int|
            on_board(x, y) ==> #[trigger] self.tile_char(x, y) == '\0' || is_piece_letter(
                self.tile_char(x, y),
            )
    }

    /// Every piece that the roster of `red` lists as on the board stands on its square.
    pub open spec fn roster_on_grid(&self, red: bool) -> bool {
        forall|i: int|
            0 <= i < 16 ==> (#[trigger] self.roster(red).slot(i)).is_dead() || (self.roster(
                red,
            ).slot(i).on_board() && self.tile_char(
                self.roster(red).slot(i).x() as int,
                self.roster(red).slot(i).y() as int,
            ) == letter_of_piece(slot_kind(i), red))
    }

    /// No two slots of the roster of `red` name the same square.
    pub open spec fn roster_distinct(&self, red: bool) -> bool {
        forall|i: int, j: int|
            0 <= i < 16 && 0 <= j < 16 && i != j && #[trigger] self.roster(red).slot(i)
                == #[trigger] self.roster(red).slot(j) ==> self.roster(red).slot(i).is_dead()
    }

    /// Whether the piece on `(x, y)` is listed in the roster of its side.
    pub open spec fn listed(&self, x: int, y: int) -> bool {
        slot_holds(self.roster(is_upper(self.tile_char(x, y))), PackedCoord::pack(x, y))
    }

    /// Every piece on a square is listed in the roster of its side.
    pub open spec fn grid_on_roster(&self) -> bool {
        forall|x: int, y: int| #[trigger] self.occupied(x, y) ==> self.listed(x, y)
    }

    /// The squares and the two rosters describe the same pieces.
    pub open spec fn wf(&self) -> bool {
        &&& self.letters_valid()
        &&& self.roster_on_grid(true)
        &&& self.roster_on_grid(false)
        &&& self.roster_distinct(true)
        &&& self.roster_distinct(false)
        &&& self.grid_on_roster()
    }

    /// Whether `m` takes a piece of the side to move from its square to a square
    /// of the board that holds no piece of that side.
    pub open spec fn can_move(&self, m: PackedMove) -> bool {
        &&& m.start().on_board()
        &&& m.end().on_board()
        &&& self.same_colour(m.start().x() as int, m.start().y() as int, self.isRedTurn)
        &&& !self.same_colour(m.end().x() as int, m.end().y() as int, self.isRedTurn)
    }

    /// Whether `m` captures a piece.
    pub open spec fn captures(&self, m: PackedMove) -> bool {
        self.occupied(m.end().x() as int, m.end().y() as int)
    }

    /// Whether `after` holds the pieces of this position once `m` has been
    /// played: the moved piece stands on the square it reached, the square it
    /// left is empty, its slot names the new square, and a piece that stood
    /// there has left the board. Turn and ply are not spoken of.
    pub open spec fn pieces_moved(&self, m: PackedMove, after: BoardState) -> bool {
        let s = m.start();
        let e = m.end();
        let turn = self.isRedTurn;
        &&& forall|x: int, y: int|
            on_board(x, y) ==> #[trigger] after.tile_char(x, y) == if x == e.x() && y == e.y() {
                self.tile_char(s.x() as int, s.y() as int)
            } else if x == s.x() && y == s.y() {
                '\0'
            } else {
                self.tile_char(x, y)
            }
        &&& self.roster(turn).relocated(after.roster(turn), s, e)
        &&& self.roster(!turn).relocated(after.roster(!turn), e, PackedCoord { data: 0xFF })
    }

    /// Whether `after` is this position once `m` has been played.
    pub open spec fn moves_to(&self, m: PackedMove, after: BoardState) -> bool {
        &&& self.pieces_moved(m, after)
        &&& after.isRedTurn == !self.isRedTurn
        &&& after.plyNumber == self.plyNumber + 1
    }

    /// The position after `m` has been played.
    pub open spec fn after(&self, m: PackedMove) -> BoardState {
        choose|r: BoardState| self.moves_to(m, r)
    }
}

} // verus!
