//! Positions as text: ten ranks from rank 9 down, separated by `/`, each
//! rank written file by file with a digit for a run of empty squares; then the
//! side to move, two fields that are not read, a counter that is not read,
//! and the number of the move.
use vstd::prelude::*;
use crate::board::decimal::{all_digits, decimal, decimal_value, digit_char, digit_value, is_digit};
use crate::board::packedmove::PackedCoord;
use crate::board::piece::{is_piece_letter, is_upper, kind_of_letter, slot_kind, PieceSet, PieceType};
use crate::board::BoardState;

verus! {

/// Why a text describes no position.
#[derive(Clone, Copy, PartialEq, Eq, Hash, Debug, Structural)]
pub enum FenError {
    /// A rank does not describe exactly nine files.
    RankWidth,
    /// The text does not describe exactly ten ranks.
    RankCount,
    /// One side has more pieces of a kind than a game starts with.
    TooManyPieces,
    /// Nothing follows the ranks.
    MissingSideToMove,
    /// The side to move is none of `w`, `r` and `b`, in either case.
    BadSideToMove,
    /// The move number is not a numeral between 1 and 16384.
    BadMoveNumber,
    /// One side has no king.
    MissingKing,
}

/// What a text describes: the letter on each of the ninety squares (square
/// `(x, y)` at index `9 * y + x`), the sixteen slots of each roster, the side to
/// move and the ply.
pub struct Layout {
    pub cells: Seq<char>,
    pub red: Seq<PackedCoord>,
    pub black: Seq<PackedCoord>,
    pub red_turn: bool,
    pub ply: int,
}

/// Whether `c` is white space: one of the characters that Unicode gives the
/// name White_Space.
pub open spec fn is_space(c: char) -> bool {
    let n = c as u32;
    ||| (0x09 <= n <= 0x0D)
    ||| n == 0x20
    ||| n == 0x85
    ||| n == 0xA0
    ||| n == 0x1680
    ||| (0x2000 <= n <= 0x200A)
    ||| n == 0x2028
    ||| n == 0x2029
    ||| n == 0x202F
    ||| n == 0x205F
    ||| n == 0x3000
}

/// The letter that `c` puts on a square: a piece letter stands for itself, `b`
/// for an elephant and `n` for a horse, in either case; any other character
/// puts nothing there.
pub open spec fn square_letter(c: char) -> char {
    if c == 'b' {
        'e'
    } else if c == 'B' {
        'E'
    } else if c == 'n' {
        'h'
    } else if c == 'N' {
        'H'
    } else if is_piece_letter(c) {
        c
    } else {
        '\0'
    }
}

/// Ninety empty squares.
pub open spec fn empty_cells() -> Seq<char> {
    Seq::new(90, |n: int| '\0')
}

/// Sixteen slots whose pieces are off the board.
pub open spec fn dead_slots() -> Seq<PackedCoord> {
    Seq::new(16, |n: int| PackedCoord { data: 0xFF })
}

/// Reads the ranks from index `i` on, with the cursor on file `x` of rank `y`
/// and `cells` filled so far. Gives the squares and the index after the ranks.
pub open spec fn scan_board(s: Seq<char>, i: int, x: int, y: int, cells: Seq<char>) -> Result<
    (Seq<char>, int),
    FenError,
>
    decreases s.len() - i,
{
    if i < 0 || i >= s.len() || is_space(s[i]) {
        if x != 9 {
            Err(FenError::RankWidth)
        } else if y != 0 {
            Err(FenError::RankCount)
        } else {
            Ok((cells, i))
        }
    } else if s[i] == '/' {
        if x != 9 {
            Err(FenError::RankWidth)
        } else if y <= 0 {
            Err(FenError::RankCount)
        } else {
            scan_board(s, i + 1, 0, y - 1, cells)
        }
    } else if is_digit(s[i]) {
        if x + digit_value(s[i]) > 9 {
            Err(FenError::RankWidth)
        } else {
            scan_board(s, i + 1, x + digit_value(s[i]), y, cells)
        }
    } else if x >= 9 {
        Err(FenError::RankWidth)
    } else if square_letter(s[i]) == '\0' {
        scan_board(s, i + 1, x + 1, y, cells)
    } else {
        scan_board(s, i + 1, x + 1, y, cells.update(9 * y + x, square_letter(s[i])))
    }
}

/// Whether `k` is the first slot of kind `kind` whose piece is off the board.
pub open spec fn first_free(slots: Seq<PackedCoord>, kind: PieceType, k: int) -> bool {
    &&& 0 <= k < 16
    &&& slot_kind(k) == kind
    &&& slots[k].is_dead()
    &&& forall|j: int| 0 <= j < k && slot_kind(j) == kind ==> !(#[trigger] slots[j]).is_dead()
}

/// Whether a slot of kind `kind` is free.
pub open spec fn has_free(slots: Seq<PackedCoord>, kind: PieceType) -> bool {
    exists|k: int| #[trigger] first_free(slots, kind, k)
}

/// The first free slot of kind `kind`.
pub open spec fn free_slot(slots: Seq<PackedCoord>, kind: PieceType) -> int {
    choose|k: int| #[trigger] first_free(slots, kind, k)
}

/// The square that is read as number `n`: the ranks come from rank 9 down,
/// each rank from file 0 up.
pub open spec fn reading_square(n: int) -> (int, int) {
    (n % 9, 9 - n / 9)
}

/// Enters the pieces on the squares from number `n` on into the rosters, each
/// into the first free slot of its kind. `None` where a piece finds no slot.
pub open spec fn fill_rosters(cells: Seq<char>, n: int, red: Seq<PackedCoord>, black: Seq<PackedCoord>) -> Option<
    (Seq<PackedCoord>, Seq<PackedCoord>),
>
    decreases 90 - n,
{
    if n < 0 || n >= 90 {
        Some((red, black))
    } else {
        let (x, y) = reading_square(n);
        let c = cells[9 * y + x];
        if kind_of_letter(c) is None {
            fill_rosters(cells, n + 1, red, black)
        } else {
            let kind = kind_of_letter(c)->0;
            let p = PackedCoord::pack(x, y);
            if is_upper(c) {
                if has_free(red, kind) {
                    fill_rosters(cells, n + 1, red.update(free_slot(red, kind), p), black)
                } else {
                    None
                }
            } else {
                if has_free(black, kind) {
                    fill_rosters(cells, n + 1, red, black.update(free_slot(black, kind), p))
                } else {
                    None
                }
            }
        }
    }
}

/// The first index from `i` on that holds no white space.
pub open spec fn skip_spaces(s: Seq<char>, i: int) -> int
    decreases s.len() - i,
{
    if 0 <= i < s.len() && is_space(s[i]) {
        skip_spaces(s, i + 1)
    } else {
        i
    }
}

/// The first index from `i` on that holds white space, or the length.
pub open spec fn token_end(s: Seq<char>, i: int) -> int
    decreases s.len() - i,
{
    if 0 <= i < s.len() && !is_space(s[i]) {
        token_end(s, i + 1)
    } else {
        i
    }
}

/// Where the field after the one that starts at `i` starts.
pub open spec fn next_field(s: Seq<char>, i: int) -> int {
    skip_spaces(s, token_end(s, i))
}

/// Whether `c` says that Red is to move.
pub open spec fn is_red_mark(c: char) -> bool {
    c == 'w' || c == 'W' || c == 'r' || c == 'R'
}

/// Whether `c` says that Black is to move.
pub open spec fn is_black_mark(c: char) -> bool {
    c == 'b' || c == 'B'
}

/// Reads what follows the ranks, from index `i` on: the side to move, by the
/// first character of its field, and the move number, which is the fifth
/// field and 1 where the text ends before it.
pub open spec fn parse_tail(s: Seq<char>, i: int) -> Result<(bool, int), FenError> {
    let j = skip_spaces(s, i);
    if j >= s.len() {
        Err(FenError::MissingSideToMove)
    } else if !is_red_mark(s[j]) && !is_black_mark(s[j]) {
        Err(FenError::BadSideToMove)
    } else {
        let f = next_field(s, next_field(s, next_field(s, next_field(s, j))));
        if f >= s.len() {
            Ok((is_red_mark(s[j]), 1int))
        } else {
            let token = s.subrange(f, token_end(s, f));
            if all_digits(token) && 1 <= decimal_value(token) <= 16384 {
                Ok((is_red_mark(s[j]), decimal_value(token) as int))
            } else {
                Err(FenError::BadMoveNumber)
            }
        }
    }
}

/// What the text `s` describes, or why it describes no position.
pub open spec fn parse_fen(s: Seq<char>) -> Result<Layout, FenError> {
    match scan_board(s, 0, 0, 9, empty_cells()) {
        Err(e) => Err(e),
        Ok((cells, i)) => match fill_rosters(cells, 0, dead_slots(), dead_slots()) {
            None => Err(FenError::TooManyPieces),
            Some((red, black)) => match parse_tail(s, i) {
                Err(e) => Err(e),
                Ok((red_turn, fullmove)) => if red[13].is_dead() || black[13].is_dead() {
                    Err(FenError::MissingKing)
                } else {
                    Ok(
                        Layout {
                            cells: cells,
                            red: red,
                            black: black,
                            red_turn: red_turn,
                            ply: 2 * (fullmove - 1) + if red_turn {
                                0int
                            } else {
                                1int
                            },
                        },
                    )
                },
            },
        },
    }
}

/// The text of the squares of rank `y` from file `x` on, after a run of `run`
/// empty squares.
pub open spec fn rank_from(cells: Seq<char>, y: int, x: int, run: nat) -> Seq<char>
    decreases 9 - x,
{
    if x >= 9 {
        if run > 0 {
            seq![digit_char(run)]
        } else {
            Seq::empty()
        }
    } else if cells[9 * y + x] == '\0' {
        rank_from(cells, y, x + 1, run + 1)
    } else if run > 0 {
        seq![digit_char(run), cells[9 * y + x]] + rank_from(cells, y, x + 1, 0)
    } else {
        seq![cells[9 * y + x]] + rank_from(cells, y, x + 1, 0)
    }
}

/// The text of the ranks from rank `y` down to rank 0.
pub open spec fn ranks_from(cells: Seq<char>, y: int) -> Seq<char>
    decreases y,
{
    if y <= 0 {
        rank_from(cells, 0, 0, 0)
    } else {
        rank_from(cells, y, 0, 0) + seq!['/'] + ranks_from(cells, y - 1)
    }
}

/// The number of the move that is played at ply `ply`.
pub open spec fn fullmove_of(ply: int) -> int {
    if ply >= 0 {
        ply / 2 + 1
    } else {
        1 - (-ply) / 2
    }
}

/// The numeral of `n`, with a minus sign where `n` is negative.
pub open spec fn signed_decimal(n: int) -> Seq<char> {
    if n >= 0 {
        decimal(n as nat)
    } else {
        seq!['-'] + decimal((-n) as nat)
    }
}

/// The text of a position.
pub open spec fn fen_text(cells: Seq<char>, red_turn: bool, ply: int) -> Seq<char> {
    ranks_from(cells, 9) + seq![' ', if red_turn {
        'w'
    } else {
        'b'
    }, ' ', '-', ' ', '-', ' ', '0', ' '] + signed_decimal(fullmove_of(ply))
}

impl PieceSet {
    /// The sixteen slots as a sequence.
    pub open spec fn slots(&self) -> Seq<PackedCoord> {
        Seq::new(16, |i: int| self.slot(i))
    }
}

impl BoardState {
    /// The letters on the ninety squares, square `(x, y)` at index `9 * y + x`.
    pub open spec fn cells(&self) -> Seq<char> {
        Seq::new(90, |n: int| self.tile_char(n % 9, n / 9))
    }

    /// What the position holds.
    pub open spec fn layout(&self) -> Layout {
        Layout {
            cells: self.cells(),
            red: self.redPieces.slots(),
            black: self.blackPieces.slots(),
            red_turn: self.isRedTurn,
            ply: self.plyNumber as int,
        }
    }

    /// The text of the position.
    pub open spec fn text(&self) -> Seq<char> {
        fen_text(self.cells(), self.isRedTurn, self.plyNumber as int)
    }
}

} // verus!
