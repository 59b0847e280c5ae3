//! Tests that tell whether a position can be searched and a move played.
use vstd::prelude::*;
use crate::board::packedmove::PackedMove;
use crate::board::piece::{kind_of_slot, PieceType};
use crate::board::BoardState;

verus! {

impl BoardState {
    /// Whether the pieces of the side `red` stand where they can be moved and valued.
    fn side_in_place(&self, red: bool) -> (b: bool)
        ensures
            b == (self.side_placed(red) && self.side_valued(red)),
    {
        let mut i: usize = 0;
        while i < 16
            invariant
                i <= 16,
                forall|j: int|
                    0 <= j < i && !(#[trigger] self.roster(red).slot(j)).is_dead() ==> {
                        &&& Self::well_placed(self.roster(red).piece(red, j))
                        &&& j >= 14 ==> if red {
                            self.roster(red).slot(j).y() <= 2
                        } else {
                            7 <= self.roster(red).slot(j).y()
                        }
                    },
            decreases 16 - i,
        {
            let loc = if red {
                self.redPieces.slot_at(i)
            } else {
                self.blackPieces.slot_at(i)
            };
            if loc.data != 0xFF {
                let x = loc.x();
                let y = loc.y();
                let on_board = x < 9 && y < 10;
                let elephant_ok = match kind_of_slot(i) {
                    PieceType::Elephant => ((x == 2 || x == 6) && (y == 0 || y == 4 || y == 5 || y
                        == 9)) || ((x == 0 || x == 4 || x == 8) && (y == 2 || y == 7)),
                    _ => true,
                };
                let advisor_ok = i < 14 || if red {
                    y <= 2
                } else {
                    7 <= y
                };
                if !on_board || !elephant_ok || !advisor_ok {
                    proof {
                        assert(!(self.side_placed(red) && self.side_valued(red))) by {
                            let c = self.roster(red).slot(i as int);
                            assert(!c.is_dead());
                        }
                    }
                    return false;
                }
            }
            i += 1;
        }
        true
    }

    /// Whether the pieces of both sides stand where they can be moved and
    /// valued: each on the board, an elephant on one of the squares that
    /// elephants can reach, an advisor on one of the three ranks of its palace.
    pub fn pieces_in_place(&self) -> (b: bool)
        ensures
            b == (self.side_placed(true) && self.side_placed(false) && self.side_valued(true)
                && self.side_valued(false)),
            self.wf() ==> b == self.ready(),
    {
        self.side_in_place(true) && self.side_in_place(false)
    }

    /// Whether `newMove` can be played in this position.
    pub fn can_play(&self, newMove: PackedMove) -> (b: bool)
        requires
            self.wf(),
        ensures
            b == self.can_branch(newMove),
    {
        let s = newMove.start();
        let e = newMove.end();
        if s.x() >= 9 || s.y() >= 10 || e.x() >= 9 || e.y() >= 10 {
            return false;
        }
        self.plyNumber < i16::MAX && self.IsSameColour(s.x(), s.y(), self.isRedTurn)
            && !self.IsSameColour(e.x(), e.y(), self.isRedTurn)
    }

    /// The position after `newMove`, or `None` where the move cannot be played:
    /// where it does not take a piece of the side to move from its square to a
    /// square of the board that holds no piece of that side.
    pub fn try_branch(&self, newMove: PackedMove) -> (r: Option<Self>)
        requires
            self.wf(),
        ensures
            match r {
                Some(after) => self.can_branch(newMove) && self.moves_to(newMove, after) && after
                    == self.after(newMove) && after.wf(),
                None => !self.can_branch(newMove),
            },
    {
        if self.can_play(newMove) {
            Some(self.branch(newMove))
        } else {
            None
        }
    }
}

} // verus!
