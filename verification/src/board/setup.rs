//! Making positions: the one in which a game starts, and those that a text describes.
use vstd::prelude::*;
use crate::board::canonical::{is_canonical, lemma_canonical_round_trip};
use crate::board::fen::{parse_fen, FenError, Layout};
use crate::board::notation::{chars_of, grid_cells, read_ranks, read_tail};
use crate::board::on_board;
use crate::board::packedmove::{PackedCoord, DEAD_PIECE_BYTE};
use crate::board::piece::{
    is_piece_letter, is_upper, lemma_letters, letter_of_piece, slot_kind, Piece, PieceSet,
    PieceType,
};
use crate::board::shape::slot_holds;
use crate::board::tile::{PieceIndex, Tile};
use crate::board::{BoardState, TileGrid};

verus! {

/// The kind of piece that starts on file `x` of a back rank.
pub open spec fn back_kind(x: int) -> PieceType {
    if x == 0 || x == 8 {
        PieceType::Rook
    } else if x == 1 || x == 7 {
        PieceType::Horse
    } else if x == 2 || x == 6 {
        PieceType::Elephant
    } else if x == 3 || x == 5 {
        PieceType::Advisor
    } else {
        PieceType::King
    }
}

/// The letter on the square `(x, y)` when a game starts.
pub open spec fn start_letter(x: int, y: int) -> char {
    if y == 0 {
        letter_of_piece(back_kind(x), true)
    } else if y == 9 {
        letter_of_piece(back_kind(x), false)
    } else if y == 2 && (x == 1 || x == 7) {
        'C'
    } else if y == 7 && (x == 1 || x == 7) {
        'c'
    } else if y == 3 && x % 2 == 0 {
        'P'
    } else if y == 6 && x % 2 == 0 {
        'p'
    } else {
        '\0'
    }
}

/// The square in slot `i` of the roster of the side `red` when a game starts.
pub open spec fn start_slot(red: bool, i: int) -> PackedCoord {
    let back: int = if red { 0 } else { 9 };
    let cannons: int = if red { 2 } else { 7 };
    let pawns: int = if red { 3 } else { 6 };
    if i == 0 {
        PackedCoord::pack(0, back)
    } else if i == 1 {
        PackedCoord::pack(8, back)
    } else if i == 2 {
        PackedCoord::pack(1, cannons)
    } else if i == 3 {
        PackedCoord::pack(7, cannons)
    } else if i == 4 {
        PackedCoord::pack(1, back)
    } else if i == 5 {
        PackedCoord::pack(7, back)
    } else if i == 6 {
        PackedCoord::pack(2, back)
    } else if i == 7 {
        PackedCoord::pack(6, back)
    } else if i < 13 {
        PackedCoord::pack(2 * (i - 8), pawns)
    } else if i == 13 {
        PackedCoord::pack(4, back)
    } else if i == 14 {
        PackedCoord::pack(3, back)
    } else {
        PackedCoord::pack(5, back)
    }
}

/// The slot of the piece that starts on `(x, y)`.
pub open spec fn start_slot_of(x: int, y: int) -> int {
    if y == 0 || y == 9 {
        if x == 0 {
            0
        } else if x == 8 {
            1
        } else if x == 1 {
            4
        } else if x == 7 {
            5
        } else if x == 2 {
            6
        } else if x == 6 {
            7
        } else if x == 3 {
            14
        } else if x == 5 {
            15
        } else {
            13
        }
    } else if y == 2 || y == 7 {
        if x == 1 {
            2
        } else {
            3
        }
    } else {
        8 + x / 2
    }
}

/// The letter of the piece that starts on file `x` of the back rank of the side `red`.
fn back_rank_letter(x: usize, red: bool) -> (c: char)
    requires
        x < 9,
    ensures
        c == letter_of_piece(back_kind(x as int), red),
{
    let kind = if x == 0 || x == 8 {
        PieceType::Rook
    } else if x == 1 || x == 7 {
        PieceType::Horse
    } else if x == 2 || x == 6 {
        PieceType::Elephant
    } else if x == 3 || x == 5 {
        PieceType::Advisor
    } else {
        PieceType::King
    };
    Piece { pieceType: kind, isRed: red, loc: PackedCoord { data: 0 } }.getChar()
}

/// The squares as they are when a game starts.
fn start_grid() -> (grid: TileGrid)
    ensures
        forall|x: int, y: int|
            on_board(x, y) ==> (#[trigger] grid[y][x]).pieceIndex.cara == start_letter(x, y),
{
    let mut grid: TileGrid = [[Tile { pieceIndex: PieceIndex { cara: '\0' } };9];10];
    let mut x: usize = 0;
    while x < 9
        invariant
            x <= 9,
            forall|i: int, j: int|
                on_board(i, j) ==> (#[trigger] grid[j][i]).pieceIndex.cara == if i < x {
                    start_letter(i, j)
                } else {
                    '\0'
                },
        decreases 9 - x,
    {
        grid[0][x] = Tile { pieceIndex: PieceIndex { cara: back_rank_letter(x, true) } };
        grid[9][x] = Tile { pieceIndex: PieceIndex { cara: back_rank_letter(x, false) } };
        if x == 1 || x == 7 {
            grid[2][x] = Tile { pieceIndex: PieceIndex { cara: 'C' } };
            grid[7][x] = Tile { pieceIndex: PieceIndex { cara: 'c' } };
        }
        if x % 2 == 0 {
            grid[3][x] = Tile { pieceIndex: PieceIndex { cara: 'P' } };
            grid[6][x] = Tile { pieceIndex: PieceIndex { cara: 'p' } };
        }
        x += 1;
    }
    grid
}

/// The roster of the side `red` as it is when a game starts.
fn start_roster(red: bool) -> (set: PieceSet)
    ensures
        forall|i: int| 0 <= i < 16 ==> #[trigger] set.slot(i) == start_slot(red, i),
{
    let back: usize = if red { 0 } else { 9 };
    let cannons: usize = if red { 2 } else { 7 };
    let pawns: usize = if red { 3 } else { 6 };
    PieceSet {
        King: PackedCoord::new_from_usize(4, back),
        Rooks: [PackedCoord::new_from_usize(0, back), PackedCoord::new_from_usize(8, back)],
        Cannons: [PackedCoord::new_from_usize(1, cannons), PackedCoord::new_from_usize(7, cannons)],
        Horses: [PackedCoord::new_from_usize(1, back), PackedCoord::new_from_usize(7, back)],
        Elephants: [PackedCoord::new_from_usize(2, back), PackedCoord::new_from_usize(6, back)],
        Advisors: [PackedCoord::new_from_usize(3, back), PackedCoord::new_from_usize(5, back)],
        Pawns: [
            PackedCoord::new_from_usize(0, pawns),
            PackedCoord::new_from_usize(2, pawns),
            PackedCoord::new_from_usize(4, pawns),
            PackedCoord::new_from_usize(6, pawns),
            PackedCoord::new_from_usize(8, pawns),
        ],
    }
}

impl BoardState {
    /// Whether this is the position in which a game starts: the pieces on
    /// their squares and in their slots, Red to move, no move played.
    pub open spec fn is_start(&self) -> bool {
        &&& forall|x: int, y: int|
            on_board(x, y) ==> #[trigger] self.tile_char(x, y) == start_letter(x, y)
        &&& forall|i: int| 0 <= i < 16 ==> #[trigger] self.redPieces.slot(i) == start_slot(true, i)
        &&& forall|i: int|
            0 <= i < 16 ==> #[trigger] self.blackPieces.slot(i) == start_slot(false, i)
        &&& self.isRedTurn
        &&& self.plyNumber == 0
    }

    /// The position in which a game starts is well formed.
    pub proof fn lemma_start_wf(&self)
        requires
            self.is_start(),
        ensures
            self.wf(),
    {
        assert(self.letters_valid()) by {
            assert forall|x: int, y: int| on_board(x, y) implies #[trigger] self.tile_char(x, y)
                == '\0' || is_piece_letter(self.tile_char(x, y)) by {
                lemma_letters('\0', back_kind(x), y == 0);
            }
        }
        assert forall|red: bool| self.roster_on_grid(red) && self.roster_distinct(red) by {
            assert forall|i: int| 0 <= i < 16 implies (#[trigger] self.roster(red).slot(
                i,
            )).is_dead() || (self.roster(red).slot(i).on_board() && self.tile_char(
                self.roster(red).slot(i).x() as int,
                self.roster(red).slot(i).y() as int,
            ) == letter_of_piece(slot_kind(i), red)) by {
                let c = self.roster(red).slot(i);
                assert(c == start_slot(red, i));
                assert(on_board(c.x() as int, c.y() as int));
                assert(self.tile_char(c.x() as int, c.y() as int) == start_letter(
                    c.x() as int,
                    c.y() as int,
                ));
            }
            assert forall|i: int, j: int|
                0 <= i < 16 && 0 <= j < 16 && i != j && #[trigger] self.roster(red).slot(i)
                    == #[trigger] self.roster(red).slot(j) implies self.roster(red).slot(
                i,
            ).is_dead() by {
                assert(self.roster(red).slot(i) == start_slot(red, i));
                assert(self.roster(red).slot(j) == start_slot(red, j));
            }
        }
        assert(self.grid_on_roster()) by {
            assert forall|x: int, y: int| #[trigger] self.occupied(x, y) implies self.listed(
                x,
                y,
            ) by {
                let c = self.tile_char(x, y);
                assert(c == start_letter(x, y));
                let red = is_upper(c);
                let k = start_slot_of(x, y);
                lemma_letters('\0', back_kind(x), y == 0);
                assert(self.roster(red).slot(k) == start_slot(red, k));
                assert(start_slot(red, k) == PackedCoord::pack(x, y));
                assert(slot_holds(self.roster(red), PackedCoord::pack(x, y)));
            }
        }
        assert(self.roster_on_grid(true) && self.roster_distinct(true));
        assert(self.roster_on_grid(false) && self.roster_distinct(false));
    }

    /// The position in which a game starts can be searched.
    pub proof fn lemma_start_ready(&self)
        requires
            self.is_start(),
        ensures
            self.ready(),
    {
        self.lemma_start_wf();
        assert forall|red: bool| self.side_placed(red) && self.side_valued(red) by {
            assert forall|i: int|
                0 <= i < 16 && !(#[trigger] self.roster(red).slot(i)).is_dead() implies Self::well_placed(
                self.roster(red).piece(red, i),
            ) && self.roster(red).slot(i).on_board() && (i >= 14 ==> if red {
                self.roster(red).slot(i).y() <= 2
            } else {
                7 <= self.roster(red).slot(i).y()
            }) by {
                assert(self.roster(red).slot(i) == start_slot(red, i));
            }
        }
        assert(self.side_placed(true) && self.side_valued(true));
        assert(self.side_placed(false) && self.side_valued(false));
    }

    /// The position in which a game starts.
    pub fn new() -> (r: Self)
        ensures
            r.is_start(),
            r.wf(),
            r.ready(),
    {
        let r = Self {
            squares: start_grid(),
            isRedTurn: true,
            plyNumber: 0,
            redPieces: start_roster(true),
            blackPieces: start_roster(false),
        };
        proof {
            r.lemma_start_ready();
        }
        r
    }

    /// The position that the characters `text` describe, or why they describe none.
    pub fn read_position(text: &Vec<char>) -> (r: Result<Self, FenError>)
        ensures
            match r {
                Ok(b) => parse_fen(text@) == Ok::<Layout, FenError>(b.layout()) && b.wf()
                    && !b.redPieces.King.is_dead() && !b.blackPieces.King.is_dead() && 0
                    <= b.plyNumber,
                Err(e) => parse_fen(text@) == Err::<Layout, FenError>(e),
            },
    {
        let (grid, i) = match read_ranks(text) {
            Ok(found) => found,
            Err(e) => {
                return Err(e);
            },
        };
        let mut board = Self {
            squares: grid,
            isRedTurn: true,
            plyNumber: 0,
            redPieces: PieceSet::default(),
            blackPieces: PieceSet::default(),
        };
        proof {
            assert(board.cells() =~= grid_cells(grid));
            assert forall|x: int, y: int| on_board(x, y) implies #[trigger] board.tile_char(x, y)
                == '\0' || is_piece_letter(board.tile_char(x, y)) by {
                assert(grid_cells(grid)[9 * y + x] == board.tile_char(x, y)) by {
                    assert((9 * y + x) / 9 == y && (9 * y + x) % 9 == x);
                }
            }
        }
        if !board.enter_pieces() {
            return Err(FenError::TooManyPieces);
        }
        let (red, number) = match read_tail(text, i) {
            Ok(found) => found,
            Err(e) => {
                return Err(e);
            },
        };
        proof {
            assert(board.redPieces.slots()[13] == board.redPieces.King);
            assert(board.blackPieces.slots()[13] == board.blackPieces.King);
        }
        if board.redPieces.King.data == DEAD_PIECE_BYTE || board.blackPieces.King.data
            == DEAD_PIECE_BYTE {
            return Err(FenError::MissingKing);
        }
        board.isRedTurn = red;
        let ply: u32 = 2 * (number - 1) + if red { 0 } else { 1 };
        board.plyNumber = ply as i16;
        proof {
            let before = Self {
                squares: grid,
                isRedTurn: true,
                plyNumber: 0,
                redPieces: board.redPieces,
                blackPieces: board.blackPieces,
            };
            assert(board.cells() =~= grid_cells(grid));
            Self::lemma_wf_ignores_turn(before, board);
        }
        Ok(board)
    }

    /// Whether a position is well formed does not depend on turn and ply.
    pub proof fn lemma_wf_ignores_turn(a: BoardState, b: BoardState)
        requires
            a.squares == b.squares,
            a.redPieces == b.redPieces,
            a.blackPieces == b.blackPieces,
            a.wf(),
        ensures
            b.wf(),
    {
        assert forall|x: int, y: int| on_board(x, y) implies #[trigger] b.tile_char(x, y)
            == a.tile_char(x, y) by {}
        assert(b.letters_valid()) by {
            assert forall|x: int, y: int| on_board(x, y) implies #[trigger] b.tile_char(x, y)
                == '\0' || is_piece_letter(b.tile_char(x, y)) by {
                assert(a.tile_char(x, y) == '\0' || is_piece_letter(a.tile_char(x, y)));
            }
        }
        assert forall|red: bool| b.roster_on_grid(red) && b.roster_distinct(red) by {
            assert(a.roster_on_grid(red) && a.roster_distinct(red));
            assert(a.roster(red) == b.roster(red));
            assert forall|i: int| 0 <= i < 16 implies (#[trigger] b.roster(red).slot(i)).is_dead()
                || (b.roster(red).slot(i).on_board() && b.tile_char(
                b.roster(red).slot(i).x() as int,
                b.roster(red).slot(i).y() as int,
            ) == letter_of_piece(slot_kind(i), red)) by {
                assert(a.roster(red).slot(i) == b.roster(red).slot(i));
            }
        }
        assert(b.grid_on_roster()) by {
            assert forall|x: int, y: int| #[trigger] b.occupied(x, y) implies b.listed(x, y) by {
                assert(a.occupied(x, y));
                assert(a.listed(x, y));
            }
        }
        assert(b.roster_on_grid(true) && b.roster_distinct(true));
        assert(b.roster_on_grid(false) && b.roster_distinct(false));
    }

    /// The position that `fenstr` describes, or why it describes none. A text
    /// in the form in which positions are written always describes one, and
    /// that position is written as the same text.
    pub fn try_from_FEN(fenstr: &str) -> (r: Result<Self, FenError>)
        ensures
            match r {
                Ok(b) => parse_fen(fenstr@) == Ok::<Layout, FenError>(b.layout()) && b.wf()
                    && !b.redPieces.King.is_dead() && !b.blackPieces.King.is_dead() && 0
                    <= b.plyNumber && (is_canonical(fenstr@) ==> b.text() == fenstr@),
                Err(e) => parse_fen(fenstr@) == Err::<Layout, FenError>(e) && !is_canonical(
                    fenstr@,
                ),
            },
    {
        let text = chars_of(fenstr);
        proof {
            if is_canonical(fenstr@) {
                lemma_canonical_round_trip(fenstr@);
            }
        }
        Self::read_position(&text)
    }

    /// The position that `fenstr` describes.
    pub fn new_from_FEN(fenstr: &str) -> (r: Self)
        requires
            parse_fen(fenstr@) is Ok,
        ensures
            parse_fen(fenstr@) == Ok::<Layout, FenError>(r.layout()),
            r.wf(),
            !r.redPieces.King.is_dead(),
            !r.blackPieces.King.is_dead(),
            0 <= r.plyNumber,
            is_canonical(fenstr@) ==> r.text() == fenstr@,
    {
        match Self::try_from_FEN(fenstr) {
            Ok(b) => b,
            Err(_) => vstd::pervasive::unreached(),
        }
    }

    /// Makes this position the one that `fenStr` describes. Where the text
    /// describes none, the position stays as it is and the reason is handed out.
    pub fn loadFEN(&mut self, fenStr: &str) -> (r: Result<(), FenError>)
        ensures
            match r {
                Ok(_) => parse_fen(fenStr@) == Ok::<Layout, FenError>(final(self).layout())
                    && final(self).wf(),
                Err(e) => parse_fen(fenStr@) == Err::<Layout, FenError>(e) && *final(self) == *old(
                    self,
                ),
            },
    {
        match Self::try_from_FEN(fenStr) {
            Ok(b) => {
                *self = b;
                Ok(())
            },
            Err(e) => Err(e),
        }
    }
}

} // verus!
