//! A square of the board and what stands on it.
use vstd::prelude::*;
use crate::board::{Coord, TileGrid};

verus! {

/// The character of a square on which nothing stands.
pub const NO_PIECE_CHAR: char = '\0';

/// The letter of the piece on a square, or `'\0'` where the square is empty.
#[derive(Clone, Copy, PartialEq, Eq, Hash, Debug, Structural)]
pub struct PieceIndex {
    pub cara: char,
}

impl PieceIndex {
    pub fn new(c: char) -> (r: Self)
        ensures
            r.cara == c,
    {
        Self { cara: c }
    }

    pub open spec fn spec_asChar(&self) -> char {
        self.cara
    }

    #[verifier::when_used_as_spec(spec_asChar)]
    pub fn asChar(&self) -> (c: char)
        ensures
            c == self.cara,
    {
        self.cara
    }
}

/// One square of the board.
#[derive(Clone, Copy, PartialEq, Eq, Hash, Debug, Structural)]
pub struct Tile {
    pub pieceIndex: PieceIndex,
}

impl Tile {
    /// An empty square.
    pub fn new() -> (r: Self)
        ensures
            r.pieceIndex.cara == NO_PIECE_CHAR,
            !r.hasPiece(),
    {
        Tile::real_default_because_traits_suck()
    }

    /// An empty square.
    pub fn real_default_because_traits_suck() -> (r: Self)
        ensures
            r.pieceIndex.cara == NO_PIECE_CHAR,
    {
        Self { pieceIndex: PieceIndex { cara: NO_PIECE_CHAR } }
    }

    pub open spec fn spec_hasPiece(&self) -> bool {
        self.pieceIndex.cara != NO_PIECE_CHAR
    }

    /// Whether a piece stands on the square.
    #[verifier::when_used_as_spec(spec_hasPiece)]
    pub fn hasPiece(&self) -> (b: bool)
        ensures
            b == (self.pieceIndex.cara != NO_PIECE_CHAR),
    {
        self.pieceIndex.cara != NO_PIECE_CHAR
    }

    /// Lifts the piece off the square and hands it out; the square is empty afterwards.
    pub fn take(&mut self) -> (r: PieceIndex)
        ensures
            r == old(self).pieceIndex,
            final(self).pieceIndex.cara == NO_PIECE_CHAR,
    {
        let ret = self.pieceIndex;
        self.pieceIndex = PieceIndex { cara: NO_PIECE_CHAR };
        ret
    }
}

impl Default for Tile {
    fn default() -> (r: Self)
        ensures
            r.pieceIndex.cara == NO_PIECE_CHAR,
    {
        Tile::real_default_because_traits_suck()
    }
}

/// The square number of `(x, y)` when the board is walked rank by rank from
/// rank 0, each rank from file 0.
pub open spec fn walk_index(x: int, y: int) -> int {
    y * 9 + x
}

/// Walks the ninety squares rank by rank from rank 0, each rank from file 0.
pub struct TileIterator<'a> {
    pub squaresRef: &'a TileGrid,
    pub x: usize,
    pub y: usize,
    pub doneFirst: bool,
}

impl<'a> TileIterator<'a> {
    pub fn new(squares: &'a TileGrid) -> (r: Self)
        ensures
            r.squaresRef == squares,
            r.wf(),
            r.handed_out() == 0,
    {
        Self { squaresRef: squares, x: 0, y: 0, doneFirst: false }
    }

    /// The cursor is on the board.
    pub open spec fn wf(&self) -> bool {
        self.x < 9 && self.y < 10 && (!self.doneFirst ==> self.x == 0 && self.y == 0)
    }

    /// How many squares have been handed out so far.
    pub open spec fn handed_out(&self) -> int {
        if self.doneFirst {
            walk_index(self.x as int, self.y as int) + 1
        } else {
            0
        }
    }

    /// Hands out the next square with its coordinate, or `None` after the ninetieth.
    pub fn next(&mut self) -> (r: Option<(Coord, &'a Tile)>)
        requires
            old(self).wf(),
        ensures
            final(self).wf(),
            final(self).squaresRef == old(self).squaresRef,
            old(self).handed_out() == 90 ==> r is None && *final(self) == *old(self),
            old(self).handed_out() < 90 ==> (match r {
                Some(((x, y), tile)) => {
                    &&& walk_index(x as int, y as int) == old(self).handed_out()
                    &&& x < 9
                    &&& y < 10
                    &&& *tile == old(self).squaresRef[y as int][x as int]
                    &&& final(self).handed_out() == old(self).handed_out() + 1
                },
                None => false,
            }),
    {
        if !self.doneFirst {
            self.doneFirst = true;
            return Some(((self.x, self.y), &self.squaresRef[self.y][self.x]));
        }
        if self.x < 8 {
            self.x += 1;
        } else if self.y < 9 {
            self.x = 0;
            self.y += 1;
        } else {
            return None;
        }
        Some(((self.x, self.y), &self.squaresRef[self.y][self.x]))
    }

    /// The number of squares that are still to come.
    pub fn count(self) -> (n: usize)
        requires
            self.wf(),
        ensures
            n == 90 - self.handed_out(),
    {
        let mut it = self;
        let mut n: usize = 0;
        loop
            invariant
                it.wf(),
                n + 90 - it.handed_out() == 90 - self.handed_out(),
                0 <= it.handed_out() <= 90,
                n <= 90,
            ensures
                n == 90 - self.handed_out(),
            decreases 90 - it.handed_out(),
        {
            match it.next() {
                Some(_) => {
                    n += 1;
                },
                None => {
                    break;
                },
            }
        }
        n
    }
}

} // verus!
