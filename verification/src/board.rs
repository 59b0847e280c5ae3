//! The board: squares, rosters, movement rules and move application.
use vstd::prelude::*;

pub mod branch;
pub mod canonical;
pub mod checks;
pub mod counting;
pub mod decimal;
pub mod distinct;
pub mod fen;
pub mod laws;
pub mod moves;
pub mod notation;
pub mod packedmove;
pub mod piece;
pub mod rayiterator;
pub mod roundtrip;
pub mod rules;
pub mod setup;
pub mod shape;
pub mod tile;
pub mod value;
pub mod writer;

use self::packedmove::PackedCoord;
use self::piece::{is_upper, PieceSet, PieceSetIterator};
use self::rayiterator::RayIterator;
use self::tile::{Tile, TileIterator};

verus! {

/// A square as `(x, y)`: `x` counts files from 0 to 8, `y` ranks from 0 to 9.
pub type Coord = (usize, usize);

/// The squares of the board, indexed `[y][x]`.
pub type TileGrid = [[Tile; 9]; 10];

/// The coordinate of a piece that is no longer on the board.
pub const DEAD_PIECE_COORD: Coord = (15, 15);

/// The text of the position in which a game starts.
pub const STARTING_POSITION_FEN: &'static str =
    "rheakaehr/9/1c5c1/p1p1p1p1p/9/9/P1P1P1P1P/1C5C1/9/RHEAKAEHR w - - 0 1";

/// The rank on which Black's pieces start.
pub const BLACK_ROW: usize = 9;

/// The rank on which Red's pieces start.
pub const RED_ROW: usize = 0;

/// The first rank on Black's side of the river.
pub const BLACK_RIVER: usize = 5;

/// The last rank on Red's side of the river.
pub const RED_RIVER: usize = 4;

/// Whether `(x, y)` names one of the ninety squares.
pub open spec fn on_board(x: int, y: int) -> bool {
    0 <= x < 9 && 0 <= y < 10
}

/// Whether `after` is `before` with `tile` written on the square `(x, y)`.
pub open spec fn grid_written(before: TileGrid, after: TileGrid, x: int, y: int, tile: Tile) -> bool {
    forall|i: int, j: int|
        on_board(i, j) ==> #[trigger] after[j][i] == if i == x && j == y {
            tile
        } else {
            before[j][i]
        }
}

/// Everything that defines a position: the squares, whose turn it is, how
/// many moves have been played, and where each side's pieces stand.
#[derive(Clone, Copy, PartialEq, Eq, Hash, Debug)]
pub struct BoardState {
    pub squares: TileGrid,
    pub isRedTurn: bool,
    /// Counted from zero; each move of either side adds one.
    pub plyNumber: i16,
    pub redPieces: PieceSet,
    pub blackPieces: PieceSet,
}

impl BoardState {
    /// The letter on the square `(x, y)`, or `'\0'` where it is empty.
    pub open spec fn tile_char(&self, x: int, y: int) -> char {
        self.squares[y][x].pieceIndex.cara
    }

    /// Whether `(x, y)` is a square of the board with a piece on it.
    pub open spec fn occupied(&self, x: int, y: int) -> bool {
        on_board(x, y) && self.tile_char(x, y) != '\0'
    }

    /// Whether a piece of the side `red` stands on `(x, y)`.
    pub open spec fn same_colour(&self, x: int, y: int, red: bool) -> bool {
        self.occupied(x, y) && is_upper(self.tile_char(x, y)) == red
    }

    /// The roster of the side `red`.
    pub open spec fn roster(&self, red: bool) -> PieceSet {
        if red {
            self.redPieces
        } else {
            self.blackPieces
        }
    }

    /// Whether a piece of the side `isRed` stands on `(x, y)`.
    pub fn IsSameColour(&self, x: usize, y: usize, isRed: bool) -> (b: bool)
        requires
            x < 9,
            y < 10,
        ensures
            b == self.same_colour(x as int, y as int, isRed),
    {
        let c = self.squares[y][x].pieceIndex.cara;
        c != '\0' && ('A' <= c && c <= 'Z') == isRed
    }

    /// Appends `(x, y)` to `moveArr` unless a piece of the side `isRed` stands there.
    pub fn TryMove(&self, x: usize, y: usize, isRed: bool, moveArr: &mut Vec<PackedCoord>)
        requires
            x < 9,
            y < 10,
        ensures
            final(moveArr)@ == if self.same_colour(x as int, y as int, isRed) {
                old(moveArr)@
            } else {
                old(moveArr)@.push(PackedCoord::pack(x as int, y as int))
            },
    {
        if !self.IsSameColour(x, y, isRed) {
            moveArr.push(PackedCoord::new_from_usize(x, y));
        }
    }

    /// Whether `(x, y)` lies in one of the two palaces.
    pub fn IsPalace(x: usize, y: usize) -> (b: bool)
        ensures
            b == rules::is_palace(x as int, y as int),
    {
        3 <= x && x <= 5 && (y <= 2 || (7 <= y && y <= 9))
    }

    /// The four rays of squares that leave `(x, y)`.
    pub fn GetRaysFrom(&self, x: usize, y: usize) -> (r: RayIterator<'_>)
        requires
            x < 9,
            y < 10,
        ensures
            r.cardinal == 0,
            r.x == x,
            r.y == y,
            *r.tileRef == self.squares,
    {
        RayIterator::new(&self.squares, x, y)
    }

    /// A walk over the ninety squares.
    pub fn IterateTiles(&self) -> (r: TileIterator<'_>)
        ensures
            *r.squaresRef == self.squares,
            r.wf(),
            r.handed_out() == 0,
    {
        TileIterator::new(&self.squares)
    }

    /// A walk over the pieces of the side `isRed` that are on the board.
    pub fn IteratePieces(&self, isRed: bool) -> (r: PieceSetIterator<'_>)
        ensures
            r.index == 0,
            r.isRed == isRed,
            *r.setRef == self.roster(isRed),
            r.remaining() == self.roster(isRed).live(isRed),
    {
        if isRed {
            return PieceSetIterator::new(&self.redPieces, true);
        }
        PieceSetIterator::new(&self.blackPieces, false)
    }
}

} // verus!
