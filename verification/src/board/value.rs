//! What a position is worth before any move is looked at.
use vstd::prelude::*;
use crate::board::piece::{Piece, PieceType};
use crate::board::{BoardState, BLACK_RIVER, BLACK_ROW, RED_RIVER, RED_ROW};
use crate::engine::score::{ScoreF32, BLACK_WON, RED_WON};

verus! {

/// What a piece on the board is worth, in eighths of a pawn that has not
/// crossed the river: a pawn 1 and beyond the river 2, an advisor 2 and on its
/// own back rank 1.75, an elephant 2, a horse 4 and on an edge file 3.5, a
/// cannon 4.5, a rook 8.5 and on the other side's back rank 9, a king nothing.
pub open spec fn piece_worth(piece: Piece) -> int {
    let x = piece.loc.x();
    let y = piece.loc.y();
    match piece.pieceType {
        PieceType::Pawn => if (piece.isRed && y >= BLACK_RIVER) || (!piece.isRed && y <= RED_RIVER) {
            16
        } else {
            8
        },
        PieceType::Advisor => if (piece.isRed && y == RED_ROW) || (!piece.isRed && y == BLACK_ROW) {
            14
        } else {
            16
        },
        PieceType::Elephant => 16,
        PieceType::Horse => if x == 0 || x == 8 {
            28
        } else {
            32
        },
        PieceType::Cannon => 36,
        PieceType::Rook => if (piece.isRed && y == BLACK_ROW) || (!piece.isRed && y == RED_ROW) {
            72
        } else {
            68
        },
        PieceType::King => 0,
    }
}

/// What the pieces `pieces` are worth together.
pub open spec fn worth_of_all(pieces: Seq<Piece>) -> int
    decreases pieces.len(),
{
    if pieces.len() == 0 {
        0
    } else {
        piece_worth(pieces[0]) + worth_of_all(pieces.drop_first())
    }
}

/// No piece is worth more than nine.
pub proof fn lemma_worth_bound(pieces: Seq<Piece>)
    ensures
        0 <= worth_of_all(pieces) <= 72 * pieces.len(),
    decreases pieces.len(),
{
    if pieces.len() > 0 {
        lemma_worth_bound(pieces.drop_first());
    }
}

/// What a piece on the board is worth, in eighths.
pub fn worth(piece: &Piece) -> (w: i32)
    ensures
        w == piece_worth(*piece),
        0 <= w <= 72,
{
    let x = piece.loc.x();
    let y = piece.loc.y();
    match piece.pieceType {
        PieceType::Pawn => if (piece.isRed && y >= BLACK_RIVER) || (!piece.isRed && y <= RED_RIVER) {
            16
        } else {
            8
        },
        PieceType::Advisor => if (piece.isRed && y == RED_ROW) || (!piece.isRed && y == BLACK_ROW) {
            14
        } else {
            16
        },
        PieceType::Elephant => 16,
        PieceType::Horse => if x == 0 || x == 8 {
            28
        } else {
            32
        },
        PieceType::Cannon => 36,
        PieceType::Rook => if (piece.isRed && y == BLACK_ROW) || (!piece.isRed && y == RED_ROW) {
            72
        } else {
            68
        },
        PieceType::King => 0,
    }
}

impl BoardState {
    /// Whether the pieces of the side `red` stand where they can be valued:
    /// each one that has not been captured stands on the board, an advisor on
    /// one of the three ranks of its palace.
    pub open spec fn side_valued(&self, red: bool) -> bool {
        forall|i: int|
            0 <= i < 16 && !(#[trigger] self.roster(red).slot(i)).is_dead() ==> {
                &&& self.roster(red).slot(i).on_board()
                &&& i >= 14 ==> if red {
                    self.roster(red).slot(i).y() <= 2
                } else {
                    7 <= self.roster(red).slot(i).y()
                }
            }
    }

    /// What the pieces of the side `red` are worth together, in eighths.
    pub open spec fn material(&self, red: bool) -> int {
        worth_of_all(self.roster(red).live(red))
    }

    /// Red's material less Black's, and one eighth more where Red is to move.
    pub open spec fn balance(&self) -> int {
        (if self.isRedTurn {
            1int
        } else {
            0int
        }) + self.material(true) - self.material(false)
    }

    /// The score of the position as it stands: a win for Red where Black's
    /// king has left the board, else a win for Black where Red's king has, else
    /// the balance.
    pub open spec fn value(&self) -> ScoreF32 {
        if self.blackPieces.King.is_dead() {
            RED_WON()
        } else if self.redPieces.King.is_dead() {
            BLACK_WON()
        } else {
            ScoreF32::of_eighths(self.balance())
        }
    }

    /// The balance lies well within what a score can hold exactly.
    pub proof fn lemma_balance_bound(&self)
        ensures
            -1152 <= self.balance() <= 1153,
    {
        lemma_worth_bound(self.roster(true).live(true));
        lemma_worth_bound(self.roster(false).live(false));
        self.roster(true).lemma_live_len(true, 0);
        self.roster(false).lemma_live_len(false, 0);
    }

    /// What the pieces of the side `red` are worth together, in eighths.
    fn side_material(&self, red: bool) -> (sum: i32)
        ensures
            sum == self.material(red),
            0 <= sum <= 16 * 72,
    {
        let mut it = self.IteratePieces(red);
        let mut sum: i32 = 0;
        loop
            invariant
                it.index <= 16,
                0 <= sum <= 72 * it.index,
                sum + worth_of_all(it.remaining()) == self.material(red),
            ensures
                sum == self.material(red),
                0 <= sum <= 16 * 72,
            decreases it.remaining().len(),
        {
            match it.next() {
                Some(piece) => {
                    sum += worth(&piece);
                },
                None => {
                    break;
                },
            }
        }
        sum
    }

    /// The score of the position as it stands, with no move looked at. A
    /// positive number favours Red.
    pub fn getValue(&self) -> (r: ScoreF32)
        requires
            self.side_valued(true),
            self.side_valued(false),
        ensures
            r == self.value(),
            -1152 <= self.balance() <= 1153,
    {
        let red = self.side_material(true);
        let black = self.side_material(false);
        if self.blackPieces.King.data == 0xFF {
            return RED_WON();
        }
        if self.redPieces.King.data == 0xFF {
            return BLACK_WON();
        }
        let bonus: i32 = if self.isRedTurn { 1 } else { 0 };
        ScoreF32::from_eighths(bonus + red - black)
    }
}

} // verus!
