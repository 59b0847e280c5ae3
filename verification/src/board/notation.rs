//! Reading a position from its text.
use vstd::prelude::*;
use crate::board::decimal::{all_digits, decimal_value, digit_value, is_digit};
use crate::board::fen::{
    dead_slots, empty_cells, fill_rosters, first_free, free_slot, has_free, is_space, parse_tail,
    scan_board, skip_spaces, square_letter, token_end, FenError,
};
use crate::board::on_board;
use crate::board::packedmove::{lemma_pack_unpack, PackedCoord, DEAD_PIECE_BYTE};
use crate::board::piece::{
    is_piece_letter, is_upper, kind_from_letter, kind_of_letter, lemma_letters, letter_is_upper,
    letter_of_piece, slot_kind,
};
use crate::board::shape::slot_holds;
use crate::board::tile::{PieceIndex, Tile};
use crate::board::{BoardState, TileGrid};

verus! {

/// The letters on the squares of `grid`, square `(x, y)` at index `9 * y + x`.
pub open spec fn grid_cells(grid: TileGrid) -> Seq<char> {
    Seq::new(90, |n: int| grid[n / 9][n % 9].pieceIndex.cara)
}

/// Whether `c` is white space.
pub fn is_whitespace(c: char) -> (b: bool)
    ensures
        b == is_space(c),
{
    let n: u32 = c as u32;
    (0x09 <= n && n <= 0x0D) || n == 0x20 || n == 0x85 || n == 0xA0 || n == 0x1680 || (0x2000 <= n
        && n <= 0x200A) || n == 0x2028 || n == 0x2029 || n == 0x202F || n == 0x205F || n == 0x3000
}

/// The letter that `c` puts on a square, or `'\0'` where it puts none.
pub fn letter_for_square(c: char) -> (l: char)
    ensures
        l == square_letter(c),
        l == '\0' || is_piece_letter(l),
{
    match c {
        'b' => 'e',
        'B' => 'E',
        'n' => 'h',
        'N' => 'H',
        'p' | 'P' | 'a' | 'A' | 'e' | 'E' | 'h' | 'H' | 'c' | 'C' | 'r' | 'R' | 'k' | 'K' => c,
        _ => '\0',
    }
}

/// The characters of `s`.
pub fn chars_of(s: &str) -> (v: Vec<char>)
    ensures
        v@ == s@,
{
    let mut v: Vec<char> = Vec::new();
    for c in it: s.chars()
        invariant
            v@ == it.seq().take(it.index()),
    {
        v.push(c);
    }
    v
}

/// Reads the ranks at the start of `text`: gives the squares and the index
/// at which the ranks end.
pub fn read_ranks(text: &Vec<char>) -> (r: Result<(TileGrid, usize), FenError>)
    ensures
        match r {
            Ok((grid, i)) => scan_board(text@, 0, 0, 9, empty_cells()) == Ok::<
                (Seq<char>, int),
                FenError,
            >((grid_cells(grid), i as int)) && i <= text@.len() && forall|n: int|
                0 <= n < 90 ==> (#[trigger] grid_cells(grid)[n]) == '\0' || is_piece_letter(
                    grid_cells(grid)[n],
                ),
            Err(e) => scan_board(text@, 0, 0, 9, empty_cells()) == Err::<
                (Seq<char>, int),
                FenError,
            >(e),
        },
{
    let mut grid: TileGrid = [[Tile { pieceIndex: PieceIndex { cara: '\0' } };9];10];
    let mut x: usize = 0;
    let mut y: usize = 9;
    let mut i: usize = 0;
    proof {
        assert(grid_cells(grid) =~= empty_cells());
    }
    while i < text.len() && !is_whitespace(text[i])
        invariant
            i <= text@.len(),
            x <= 9,
            y <= 9,
            scan_board(text@, i as int, x as int, y as int, grid_cells(grid)) == scan_board(
                text@,
                0,
                0,
                9,
                empty_cells(),
            ),
            forall|n: int|
                0 <= n < 90 ==> (#[trigger] grid_cells(grid)[n]) == '\0' || is_piece_letter(
                    grid_cells(grid)[n],
                ),
        decreases text@.len() - i,
    {
        let c = text[i];
        if c == '/' {
            if x != 9 {
                return Err(FenError::RankWidth);
            }
            if y == 0 {
                return Err(FenError::RankCount);
            }
            y -= 1;
            x = 0;
        } else if '0' <= c && c <= '9' {
            let d: usize = (c as u32 - 48) as usize;
            if x + d > 9 {
                return Err(FenError::RankWidth);
            }
            x += d;
        } else {
            if x >= 9 {
                return Err(FenError::RankWidth);
            }
            let l = letter_for_square(c);
            if l != '\0' {
                let ghost before = grid_cells(grid);
                grid[y][x] = Tile { pieceIndex: PieceIndex { cara: l } };
                proof {
                    assert(grid_cells(grid) =~= before.update(9 * y + x, l)) by {
                        assert forall|n: int| 0 <= n < 90 implies #[trigger] grid_cells(grid)[n]
                            == before.update(9 * y + x, l)[n] by {
                            if n == 9 * y + x {
                                assert(n / 9 == y && n % 9 == x);
                            } else {
                                assert(n / 9 != y || n % 9 != x);
                            }
                        }
                    }
                }
            }
            x += 1;
        }
        i += 1;
    }
    if x != 9 {
        return Err(FenError::RankWidth);
    }
    if y != 0 {
        return Err(FenError::RankCount);
    }
    Ok((grid, i))
}

/// The index of the first character from `i` on that is no white space, or the length.
pub fn skip_whitespace(text: &Vec<char>, i: usize) -> (j: usize)
    requires
        i <= text@.len(),
    ensures
        j == skip_spaces(text@, i as int),
        i <= j <= text@.len(),
{
    let mut j = i;
    while j < text.len() && is_whitespace(text[j])
        invariant
            i <= j <= text@.len(),
            skip_spaces(text@, j as int) == skip_spaces(text@, i as int),
        decreases text@.len() - j,
    {
        j += 1;
    }
    j
}

/// The index of the first white space from `i` on, or the length.
pub fn skip_token(text: &Vec<char>, i: usize) -> (j: usize)
    requires
        i <= text@.len(),
    ensures
        j == token_end(text@, i as int),
        i <= j <= text@.len(),
        forall|k: int| i <= k < j ==> !is_space(#[trigger] text@[k]),
{
    let mut j = i;
    while j < text.len() && !is_whitespace(text[j])
        invariant
            i <= j <= text@.len(),
            token_end(text@, j as int) == token_end(text@, i as int),
            forall|k: int| i <= k < j ==> !is_space(#[trigger] text@[k]),
        decreases text@.len() - j,
    {
        j += 1;
    }
    j
}

/// The greatest move number that is read.
pub const MAX_NUMBER: u32 = 16384;

/// Reading one more digit cannot make a number smaller.
pub proof fn lemma_decimal_value_grows(s: Seq<char>, k: int)
    requires
        0 <= k <= s.len(),
    ensures
        decimal_value(s.take(k)) <= decimal_value(s),
    decreases s.len() - k,
{
    if k < s.len() {
        lemma_decimal_value_grows(s, k + 1);
        assert(s.take(k + 1).drop_last() =~= s.take(k));
        assert(decimal_value(s.take(k + 1)) >= decimal_value(s.take(k)) * 10) by {
            assert(decimal_value(s.take(k + 1)) == decimal_value(s.take(k)) * 10 + digit_value(
                s.take(k + 1).last(),
            ));
        }
    } else {
        assert(s.take(k) =~= s);
    }
}

/// Reads the move number in `text` from `from` to `to`: the number, or `None`
/// where the characters are not all digits or the number is not between 1 and 16384.
pub fn read_move_number(text: &Vec<char>, from: usize, to: usize) -> (r: Option<u32>)
    requires
        from <= to <= text@.len(),
    ensures
        match r {
            Some(n) => all_digits(text@.subrange(from as int, to as int)) && n == decimal_value(
                text@.subrange(from as int, to as int),
            ) && 1 <= n <= 16384,
            None => !(all_digits(text@.subrange(from as int, to as int)) && 1 <= decimal_value(
                text@.subrange(from as int, to as int),
            ) <= 16384),
        },
{
    let ghost token = text@.subrange(from as int, to as int);
    let mut value: u32 = 0;
    let mut k: usize = from;
    proof {
        assert(token.take(0) =~= Seq::<char>::empty());
    }
    while k < to
        invariant
            from <= k <= to,
            to <= text@.len(),
            token == text@.subrange(from as int, to as int),
            value <= 16384,
            value == decimal_value(token.take(k - from)),
            all_digits(token.take(k - from)),
        decreases to - k,
    {
        let c = text[k];
        let ghost head = token.take(k - from);
        let ghost more = token.take(k - from + 1);
        proof {
            assert(more.drop_last() =~= head);
            assert(more.last() == c);
            assert(token[k - from] == c);
        }
        if !('0' <= c && c <= '9') {
            proof {
                assert(!is_digit(token[k - from]));
            }
            return None;
        }
        let d: u32 = c as u32 - 48;
        if value * 10 + d > MAX_NUMBER {
            proof {
                lemma_decimal_value_grows(token, k - from + 1);
            }
            return None;
        }
        value = value * 10 + d;
        proof {
            assert forall|j: int| 0 <= j < more.len() implies is_digit(#[trigger] more[j]) by {
                if j < head.len() {
                    assert(more[j] == head[j]);
                }
            }
        }
        k += 1;
    }
    proof {
        assert(token.take(k - from) =~= token);
    }
    if value == 0 {
        return None;
    }
    Some(value)
}

/// Reads what follows the ranks in `text`, from index `i` on: whether Red is
/// to move, and the move number.
pub fn read_tail(text: &Vec<char>, i: usize) -> (r: Result<(bool, u32), FenError>)
    requires
        i <= text@.len(),
    ensures
        match r {
            Ok((red, n)) => parse_tail(text@, i as int) == Ok::<(bool, int), FenError>(
                (red, n as int),
            ) && 1 <= n <= 16384,
            Err(e) => parse_tail(text@, i as int) == Err::<(bool, int), FenError>(e),
        },
{
    let j = skip_whitespace(text, i);
    if j >= text.len() {
        return Err(FenError::MissingSideToMove);
    }
    let mark = text[j];
    let red = mark == 'w' || mark == 'W' || mark == 'r' || mark == 'R';
    let black = mark == 'b' || mark == 'B';
    if !red && !black {
        return Err(FenError::BadSideToMove);
    }
    let f1 = skip_whitespace(text, skip_token(text, j));
    let f2 = skip_whitespace(text, skip_token(text, f1));
    let f3 = skip_whitespace(text, skip_token(text, f2));
    let f4 = skip_whitespace(text, skip_token(text, f3));
    if f4 >= text.len() {
        return Ok((red, 1));
    }
    let end = skip_token(text, f4);
    match read_move_number(text, f4, end) {
        Some(n) => Ok((red, n)),
        None => Err(FenError::BadMoveNumber),
    }
}

/// The number under which the square `(x, y)` is read.
pub open spec fn reading_index(x: int, y: int) -> int {
    (9 - y) * 9 + x
}

impl BoardState {
    /// What holds while the rosters are entered, after the squares before
    /// number `n` have been read: each slot in use names a square that was read
    /// and that holds its piece, no two name the same square, and each piece on
    /// a square that was read has its slot.
    pub open spec fn entered_until(&self, n: int) -> bool {
        &&& self.entered_side(true, n)
        &&& self.entered_side(false, n)
        &&& forall|x: int, y: int|
            #![trigger self.occupied(x, y)]
            self.occupied(x, y) && reading_index(x, y) < n ==> self.listed(x, y)
    }

    /// The part of `entered_until` that speaks of the roster of the side `red`.
    pub open spec fn entered_side(&self, red: bool, n: int) -> bool {
        &&& forall|i: int|
            0 <= i < 16 ==> (#[trigger] self.roster(red).slot(i)).is_dead() || (self.roster(
                red,
            ).slot(i).on_board() && reading_index(
                self.roster(red).slot(i).x() as int,
                self.roster(red).slot(i).y() as int,
            ) < n && self.tile_char(
                self.roster(red).slot(i).x() as int,
                self.roster(red).slot(i).y() as int,
            ) == letter_of_piece(slot_kind(i), red))
        &&& self.roster_distinct(red)
    }

    /// Enters the pieces on the squares into the rosters, square by square
    /// from rank 9 down, each rank from file 0 up. Gives `false` where a side has
    /// more pieces of a kind than its roster has slots.
    pub fn enter_pieces(&mut self) -> (ok: bool)
        requires
            old(self).letters_valid(),
            forall|i: int| 0 <= i < 16 ==> old(self).redPieces.slot(i).is_dead(),
            forall|i: int| 0 <= i < 16 ==> old(self).blackPieces.slot(i).is_dead(),
        ensures
            final(self).squares == old(self).squares,
            final(self).isRedTurn == old(self).isRedTurn,
            final(self).plyNumber == old(self).plyNumber,
            match fill_rosters(old(self).cells(), 0, dead_slots(), dead_slots()) {
                Some((red, black)) => {
                    &&& ok
                    &&& final(self).redPieces.slots() == red
                    &&& final(self).blackPieces.slots() == black
                    &&& final(self).wf()
                },
                None => !ok,
            },
    {
        let ghost cells = old(self).cells();
        let dead = PackedCoord { data: DEAD_PIECE_BYTE };
        let mut n: usize = 0;
        proof {
            assert(self.redPieces.slots() =~= dead_slots());
            assert(self.blackPieces.slots() =~= dead_slots());
        }
        while n < 90
            invariant
                n <= 90,
                dead.data == 0xFF,
                self.squares == old(self).squares,
                self.isRedTurn == old(self).isRedTurn,
                self.plyNumber == old(self).plyNumber,
                cells == old(self).cells(),
                self.letters_valid(),
                self.entered_until(n as int),
                fill_rosters(cells, n as int, self.redPieces.slots(), self.blackPieces.slots())
                    == fill_rosters(cells, 0, dead_slots(), dead_slots()),
            decreases 90 - n,
        {
            let x: usize = n % 9;
            let y: usize = 9 - n / 9;
            let c = self.squares[y][x].pieceIndex.cara;
            let ghost before = *self;
            proof {
                assert(cells[9 * y + x] == old(self).tile_char(x as int, y as int)) by {
                    assert((9 * y + x) / 9 == y && (9 * y + x) % 9 == x);
                }
                assert(self.tile_char(x as int, y as int) == '\0' || is_piece_letter(
                    self.tile_char(x as int, y as int),
                ));
                assert(reading_index(x as int, y as int) == n);
                lemma_pack_unpack(x as int, y as int, PackedCoord::pack(x as int, y as int));
            }
            match kind_from_letter(c) {
                Some(kind) => {
                    let red = letter_is_upper(c);
                    let p = PackedCoord::new_from_usize(x, y);
                    let found = if red {
                        self.redPieces.find_slot(kind, &dead)
                    } else {
                        self.blackPieces.find_slot(kind, &dead)
                    };
                    let ghost slots = before.roster(red).slots();
                    match found {
                        Some(k) => {
                            proof {
                                let mine = before.roster(red);
                                assert(mine.is_first_slot(kind, dead, k as int));
                                assert forall|j: int|
                                    0 <= j < k && slot_kind(j) == kind implies !(#[trigger] slots[j]).is_dead() by {
                                    assert(mine.slot(j) != dead);
                                    assert(slots[j] == mine.slot(j));
                                    assert(dead.data == 0xFF);
                                }
                                assert(slots[k as int] == mine.slot(k as int));
                                assert(first_free(slots, kind, k as int));
                                assert forall|k2: int| first_free(slots, kind, k2) implies k2
                                    == k by {
                                    if k2 < k {
                                        assert(slots[k2] == before.roster(red).slot(k2));
                                    } else if k2 > k {
                                        assert(slots[k as int].is_dead());
                                    }
                                }
                                assert(free_slot(slots, kind) == k);
                            }
                            if red {
                                self.redPieces.set_slot(k, p);
                            } else {
                                self.blackPieces.set_slot(k, p);
                            }
                            proof {
                                assert(self.roster(red).slots() =~= slots.update(k as int, p));
                                assert forall|x2: int, y2: int| on_board(x2, y2) implies #[trigger] self.tile_char(x2, y2)
                                    == before.tile_char(x2, y2) by {}
                                lemma_letters(c, kind, red);
                                before.lemma_entered_one(*self, x as int, y as int, k as int);
                            }
                        },
                        None => {
                            proof {
                                let mine = before.roster(red);
                                assert forall|k2: int| !first_free(slots, kind, k2) by {
                                    if first_free(slots, kind, k2) {
                                        assert(slots[k2] == mine.slot(k2));
                                        assert(mine.slot(k2) != dead);
                                    }
                                }
                                assert(!has_free(slots, kind));
                                assert(kind_of_letter(cells[9 * y + x]) == Some(kind));
                                assert(fill_rosters(
                                    cells,
                                    n as int,
                                    self.redPieces.slots(),
                                    self.blackPieces.slots(),
                                ) is None);
                                assert(cells =~= old(self).cells());
                            }
                            return false;
                        },
                    }
                },
                None => {
                    proof {
                        assert(c == '\0');
                        before.lemma_entered_none(x as int, y as int);
                    }
                },
            }
            n += 1;
        }
        proof {
            self.lemma_entered_all();
            assert(cells =~= old(self).cells());
        }
        true
    }

    /// An empty square adds nothing to the rosters.
    pub proof fn lemma_entered_none(&self, x: int, y: int)
        requires
            on_board(x, y),
            self.entered_until(reading_index(x, y)),
            !self.occupied(x, y),
        ensures
            self.entered_until(reading_index(x, y) + 1),
    {
        let n = reading_index(x, y);
        assert forall|x2: int, y2: int|
            #![trigger self.occupied(x2, y2)]
            self.occupied(x2, y2) && reading_index(x2, y2) < n + 1 implies self.listed(x2, y2) by {
            if reading_index(x2, y2) == n {
                assert(x2 == x && y2 == y);
            }
        }
        assert(self.entered_side(true, n + 1));
        assert(self.entered_side(false, n + 1));
    }

    /// The piece on the square `(x, y)` has been entered into slot `k`.
    pub proof fn lemma_entered_one(&self, after: BoardState, x: int, y: int, k: int)
        requires
            on_board(x, y),
            self.letters_valid(),
            self.entered_until(reading_index(x, y)),
            self.occupied(x, y),
            0 <= k < 16,
            self.roster(is_upper(self.tile_char(x, y))).slot(k).is_dead(),
            slot_kind(k) == kind_of_letter(self.tile_char(x, y))->0,
            self.roster(is_upper(self.tile_char(x, y))).slot_written(
                after.roster(is_upper(self.tile_char(x, y))),
                k,
                PackedCoord::pack(x, y),
            ),
            after.roster(!is_upper(self.tile_char(x, y))) == self.roster(
                !is_upper(self.tile_char(x, y)),
            ),
            forall|x2: int, y2: int|
                on_board(x2, y2) ==> #[trigger] after.tile_char(x2, y2) == self.tile_char(x2, y2),
        ensures
            after.entered_until(reading_index(x, y) + 1),
    {
        let n = reading_index(x, y);
        let c = self.tile_char(x, y);
        let red = is_upper(c);
        let p = PackedCoord::pack(x, y);
        lemma_pack_unpack(x, y, p);
        lemma_letters(c, slot_kind(k), red);
        assert(is_piece_letter(c));
        let mine = after.roster(red);
        let theirs = after.roster(!red);
        assert(after.entered_side(red, n + 1)) by {
            assert(self.entered_side(red, n));
            assert forall|i: int| 0 <= i < 16 implies (#[trigger] after.roster(red).slot(
                i,
            )).is_dead() || (after.roster(red).slot(i).on_board() && reading_index(
                after.roster(red).slot(i).x() as int,
                after.roster(red).slot(i).y() as int,
            ) < n + 1 && after.tile_char(
                after.roster(red).slot(i).x() as int,
                after.roster(red).slot(i).y() as int,
            ) == letter_of_piece(slot_kind(i), red)) by {
                if i != k {
                    assert(after.roster(red).slot(i) == self.roster(red).slot(i));
                }
            }
            assert forall|i: int, j: int|
                0 <= i < 16 && 0 <= j < 16 && i != j && #[trigger] after.roster(red).slot(i)
                    == #[trigger] after.roster(red).slot(j) implies after.roster(red).slot(
                i,
            ).is_dead() by {
                let ci = self.roster(red).slot(i);
                let cj = self.roster(red).slot(j);
                lemma_pack_unpack(ci.x() as int, ci.y() as int, ci);
                lemma_pack_unpack(cj.x() as int, cj.y() as int, cj);
            }
        }
        let other = !red;
        assert(after.entered_side(other, n + 1)) by {
            assert(self.entered_side(other, n));
            assert(after.roster(other) == self.roster(other));
            assert forall|i: int| 0 <= i < 16 implies (#[trigger] after.roster(other).slot(
                i,
            )).is_dead() || (after.roster(other).slot(i).on_board() && reading_index(
                after.roster(other).slot(i).x() as int,
                after.roster(other).slot(i).y() as int,
            ) < n + 1 && after.tile_char(
                after.roster(other).slot(i).x() as int,
                after.roster(other).slot(i).y() as int,
            ) == letter_of_piece(slot_kind(i), other)) by {
                assert(after.roster(other).slot(i) == self.roster(other).slot(i));
            }
            assert(after.roster_distinct(other)) by {
                assert(self.roster_distinct(other));
            }
        }
        assert forall|x2: int, y2: int|
            #![trigger after.occupied(x2, y2)]
            after.occupied(x2, y2) && reading_index(x2, y2) < n + 1 implies after.listed(
            x2,
            y2,
        ) by {
            assert(after.tile_char(x2, y2) == self.tile_char(x2, y2));
            let p2 = PackedCoord::pack(x2, y2);
            lemma_pack_unpack(x2, y2, p2);
            if reading_index(x2, y2) == n {
                assert(x2 == x && y2 == y);
                assert(after.roster(red).slot(k) == p);
                assert(slot_holds(after.roster(red), p));
            } else {
                assert(self.occupied(x2, y2));
                assert(self.listed(x2, y2));
                let red2 = is_upper(self.tile_char(x2, y2));
                let i = choose|i: int| 0 <= i < 16 && #[trigger] self.roster(red2).slot(i) == p2;
                if red2 == red {
                    assert(i != k);
                    assert(after.roster(red).slot(i) == p2);
                } else {
                    assert(after.roster(other).slot(i) == p2);
                }
                assert(slot_holds(after.roster(red2), p2));
            }
        }
    }

    /// Once every square has been read the position is well formed.
    pub proof fn lemma_entered_all(&self)
        requires
            self.letters_valid(),
            self.entered_until(90),
        ensures
            self.wf(),
    {
        assert(self.entered_side(true, 90));
        assert(self.entered_side(false, 90));
        assert forall|x: int, y: int| #[trigger] self.occupied(x, y) implies self.listed(x, y) by {
            assert(reading_index(x, y) < 90);
        }
    }
}

} // verus!
