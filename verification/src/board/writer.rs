//! Writing a position as text and as a picture.
use vstd::prelude::*;
use crate::board::decimal::{digit_to_char, push_decimal};
use crate::board::fen::{fullmove_of, rank_from, ranks_from, signed_decimal};
use crate::board::BoardState;

verus! {

/// The picture of the squares of rank `y` from file `x` on: the letter of each
/// piece and `-` for an empty square.
pub open spec fn picture_row(cells: Seq<char>, y: int, x: int) -> Seq<char>
    decreases 9 - x,
{
    if x >= 9 {
        seq!['\n']
    } else {
        seq![if cells[9 * y + x] == '\0' {
            '-'
        } else {
            cells[9 * y + x]
        }] + picture_row(cells, y, x + 1)
    }
}

/// The picture of the ranks from rank `y` down to rank 0, one line for each.
pub open spec fn picture_from(cells: Seq<char>, y: int) -> Seq<char>
    decreases y + 1,
{
    if y < 0 {
        Seq::empty()
    } else {
        picture_row(cells, y, 0) + picture_from(cells, y - 1)
    }
}

impl BoardState {
    /// The letter on `(x, y)` is the one that `cells` holds for it.
    pub proof fn lemma_cell(&self, x: int, y: int)
        requires
            0 <= x < 9,
            0 <= y < 10,
        ensures
            self.cells()[9 * y + x] == self.tile_char(x, y),
            self.cells().len() == 90,
    {
        assert((9 * y + x) / 9 == y && (9 * y + x) % 9 == x);
    }

    /// Appends the text of rank `y` to `out`.
    fn write_rank(&self, y: usize, out: &mut String)
        requires
            y < 10,
        ensures
            final(out)@ == old(out)@ + rank_from(self.cells(), y as int, 0, 0),
    {
        let mut number: u8 = 0;
        let mut x: usize = 0;
        proof {
            assert(out@ + rank_from(self.cells(), y as int, 0, 0) =~= old(out)@ + rank_from(
                self.cells(),
                y as int,
                0,
                0,
            ));
        }
        while x < 9
            invariant
                y < 10,
                x <= 9,
                number <= x,
                out@ + rank_from(self.cells(), y as int, x as int, number as nat) == old(out)@
                    + rank_from(self.cells(), y as int, 0, 0),
            decreases 9 - x,
        {
            let tile = &self.squares[y][x];
            let ghost before = out@;
            let ghost rest = rank_from(self.cells(), y as int, x + 1, 0);
            let ghost run = number as nat;
            proof {
                self.lemma_cell(x as int, y as int);
            }
            if !tile.hasPiece() {
                number += 1;
            } else {
                if number != 0 {
                    out.push(digit_to_char(number));
                    number = 0;
                }
                out.push(tile.pieceIndex.asChar());
                proof {
                    assert(out@ + rest =~= before + rank_from(
                        self.cells(),
                        y as int,
                        x as int,
                        run,
                    ));
                }
            }
            x += 1;
        }
        if number != 0 {
            out.push(digit_to_char(number));
        }
        proof {
            assert(out@ =~= old(out)@ + rank_from(self.cells(), y as int, 0, 0));
        }
    }

    /// The text of the position.
    pub fn writeFEN(&self) -> (s: String)
        ensures
            s@ == self.text(),
    {
        let mut fenString = String::new();
        let mut y: usize = 9;
        proof {
            assert(fenString@ + ranks_from(self.cells(), 9) =~= ranks_from(self.cells(), 9));
        }
        while y > 0
            invariant
                y <= 9,
                fenString@ + ranks_from(self.cells(), y as int) == ranks_from(self.cells(), 9),
            decreases y,
        {
            let ghost before = fenString@;
            self.write_rank(y, &mut fenString);
            fenString.push('/');
            proof {
                assert(fenString@ + ranks_from(self.cells(), y - 1) =~= before + ranks_from(
                    self.cells(),
                    y as int,
                ));
            }
            y -= 1;
        }
        self.write_rank(0, &mut fenString);
        let ghost ranks = fenString@;
        fenString.push(' ');
        if self.isRedTurn {
            fenString.push('w');
        } else {
            fenString.push('b');
        }
        fenString.push(' ');
        fenString.push('-');
        fenString.push(' ');
        fenString.push('-');
        fenString.push(' ');
        fenString.push('0');
        fenString.push(' ');
        let ply: i32 = self.plyNumber as i32;
        let ghost head = fenString@;
        if ply >= 0 {
            push_decimal(&mut fenString, (ply / 2 + 1) as u32);
        } else {
            let back: i32 = (-ply) / 2;
            if back <= 1 {
                push_decimal(&mut fenString, (1 - back) as u32);
            } else {
                fenString.push('-');
                push_decimal(&mut fenString, (back - 1) as u32);
                proof {
                    assert(fenString@ =~= head + signed_decimal(fullmove_of(ply as int)));
                }
            }
        }
        proof {
            assert(ranks == ranks_from(self.cells(), 9));
            assert(fenString@ =~= self.text());
        }
        fenString
    }

    /// Appends the picture of rank `y` to `out`.
    fn draw_rank(&self, y: usize, out: &mut String)
        requires
            y < 10,
        ensures
            final(out)@ == old(out)@ + picture_row(self.cells(), y as int, 0),
    {
        let mut x: usize = 0;
        while x < 9
            invariant
                y < 10,
                x <= 9,
                out@ + picture_row(self.cells(), y as int, x as int) =~= old(out)@ + picture_row(
                    self.cells(),
                    y as int,
                    0,
                ),
            decreases 9 - x,
        {
            let tile = &self.squares[y][x];
            let ghost before = out@;
            proof {
                self.lemma_cell(x as int, y as int);
            }
            if !tile.hasPiece() {
                out.push('-');
            } else {
                out.push(tile.pieceIndex.asChar());
            }
            proof {
                assert(out@ + picture_row(self.cells(), y as int, x + 1) =~= before + picture_row(
                    self.cells(),
                    y as int,
                    x as int,
                ));
            }
            x += 1;
        }
        out.push('\n');
        proof {
            assert(out@ =~= old(out)@ + picture_row(self.cells(), y as int, 0));
        }
    }

    /// The picture of the board: ten lines, rank 9 first, with the letter of
    /// each piece and `-` for an empty square.
    pub fn Display(&self) -> (s: String)
        ensures
            s@ == picture_from(self.cells(), 9),
    {
        let mut out = String::new();
        let mut y: usize = 10;
        proof {
            assert(out@ + picture_from(self.cells(), 9) =~= picture_from(self.cells(), 9));
        }
        while y > 0
            invariant
                y <= 10,
                out@ + picture_from(self.cells(), y - 1) == picture_from(self.cells(), 9),
            decreases y,
        {
            let ghost before = out@;
            y -= 1;
            self.draw_rank(y, &mut out);
            proof {
                assert(out@ + picture_from(self.cells(), y - 1) =~= before + picture_from(
                    self.cells(),
                    y as int,
                ));
            }
        }
        proof {
            assert(out@ =~= out@ + picture_from(self.cells(), -1));
        }
        out
    }
}

} // verus!
