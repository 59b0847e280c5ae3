//! Reading the text of a position gives the position back.
use vstd::prelude::*;
use crate::board::decimal::{decimal, digit_char, digit_value, is_digit, lemma_decimal_reads_back};
use crate::board::fen::{
    dead_slots, empty_cells, fen_text, fill_rosters, first_free, free_slot, fullmove_of, has_free,
    is_black_mark, is_red_mark, is_space, next_field, parse_fen, parse_tail, rank_from, ranks_from,
    reading_square, scan_board, skip_spaces, square_letter, token_end, FenError,
};
use vstd::set_lib::{lemma_int_range, lemma_len_subset, set_int_range};
use crate::board::notation::reading_index;
use crate::board::on_board;
use crate::board::packedmove::{lemma_pack_unpack, PackedCoord};
use crate::board::piece::{
    is_piece_letter, is_upper, kind_of_letter, lemma_letters, letter_of_piece, slot_kind,
    PieceType,
};
use crate::board::BoardState;

verus! {

/// Whether the text `t` stands in `s` from index `i` on.
pub open spec fn stands_at(s: Seq<char>, i: int, t: Seq<char>) -> bool {
    &&& 0 <= i
    &&& i + t.len() <= s.len()
    &&& forall|k: int| 0 <= k < t.len() ==> s[i + k] == #[trigger] t[k]
}

/// Whether `cells` are ninety squares, each empty or with a piece letter.
pub open spec fn cells_valid(cells: Seq<char>) -> bool {
    &&& cells.len() == 90
    &&& forall|n: int| 0 <= n < 90 ==> (#[trigger] cells[n]) == '\0' || is_piece_letter(cells[n])
}

/// The squares of `cells` that have been read when the cursor stands on file
/// `x` of rank `y`; the others are empty.
pub open spec fn seen(cells: Seq<char>, y: int, x: int) -> Seq<char> {
    Seq::new(
        90,
        |n: int|
            if n / 9 > y || (n / 9 == y && n % 9 < x) {
                cells[n]
            } else {
                '\0'
            },
    )
}

/// Reading the text of the rest of a rank brings the cursor to the end of the rank
/// with the squares of the rank read.
pub proof fn lemma_scan_rank(s: Seq<char>, i: int, cells: Seq<char>, y: int, x: int, run: nat)
    requires
        cells_valid(cells),
        0 <= y <= 9,
        0 <= run <= x <= 9,
        stands_at(s, i, rank_from(cells, y, x, run)),
    ensures
        scan_board(s, i, x - run, y, seen(cells, y, x)) == scan_board(
            s,
            i + rank_from(cells, y, x, run).len(),
            9,
            y,
            seen(cells, y, 9),
        ),
    decreases 9 - x,
{
    let text = rank_from(cells, y, x, run);
    if x >= 9 {
        let acc = seen(cells, y, x);
        if run > 0 {
            assert(text[0] == digit_char(run));
            assert(s[i] == digit_char(run));
            assert(digit_value(s[i]) == run);
            assert(is_digit(s[i]) && !is_space(s[i]) && s[i] != '/');
            assert(scan_board(s, i, x - run, y, acc) == scan_board(s, i + 1, 9, y, acc));
        } else {
            assert(text.len() == 0);
        }
    } else {
        let c = cells[9 * y + x];
        assert(c == '\0' || is_piece_letter(c));
        assert((9 * y + x) / 9 == y && (9 * y + x) % 9 == x);
        if c == '\0' {
            assert(seen(cells, y, x) =~= seen(cells, y, x + 1));
            lemma_scan_rank(s, i, cells, y, x + 1, run + 1);
        } else {
            let rest = rank_from(cells, y, x + 1, 0);
            let head: int = if run > 0 { 2 } else { 1 };
            assert(text.len() == head + rest.len());
            assert(stands_at(s, i + head, rest)) by {
                assert forall|k: int| 0 <= k < rest.len() implies s[i + head + k] == #[trigger] rest[k] by {
                    assert(text[head + k] == rest[k]);
                }
            }
            assert(seen(cells, y, x).update(9 * y + x, c) =~= seen(cells, y, x + 1)) by {
                let left = seen(cells, y, x).update(9 * y + x, c);
                let right = seen(cells, y, x + 1);
                assert forall|n: int| 0 <= n < 90 implies #[trigger] left[n] == right[n] by {
                    if n == 9 * y + x {
                    } else {
                        assert(n / 9 != y || n % 9 != x);
                    }
                }
            }
            let acc = seen(cells, y, x);
            assert(square_letter(c) == c);
            assert(!is_digit(c) && !is_space(c) && c != '/');
            if run > 0 {
                assert(text[0] == digit_char(run) && text[1] == c);
                assert(s[i] == digit_char(run) && s[i + 1] == c);
                assert(digit_value(s[i]) == run);
                assert(is_digit(s[i]) && !is_space(s[i]) && s[i] != '/');
                assert(scan_board(s, i, x - run, y, acc) == scan_board(s, i + 1, x, y, acc));
                assert(scan_board(s, i + 1, x, y, acc) == scan_board(
                    s,
                    i + 2,
                    x + 1,
                    y,
                    acc.update(9 * y + x, c),
                ));
            } else {
                assert(text[0] == c);
                assert(s[i] == c);
                assert(scan_board(s, i, x, y, acc) == scan_board(
                    s,
                    i + 1,
                    x + 1,
                    y,
                    acc.update(9 * y + x, c),
                ));
            }
            lemma_scan_rank(s, i + head, cells, y, x + 1, 0);
        }
    }
}

/// Reading the text of the ranks from rank `y` down gives the squares.
pub proof fn lemma_scan_ranks(s: Seq<char>, i: int, cells: Seq<char>, y: int)
    requires
        cells_valid(cells),
        0 <= y <= 9,
        stands_at(s, i, ranks_from(cells, y)),
        i + ranks_from(cells, y).len() == s.len() || is_space(s[i + ranks_from(cells, y).len()]),
    ensures
        scan_board(s, i, 0, y, seen(cells, y, 0)) == Ok::<(Seq<char>, int), FenError>(
            (cells, i + ranks_from(cells, y).len()),
        ),
    decreases y,
{
    let text = ranks_from(cells, y);
    let first = rank_from(cells, y, 0, 0);
    assert(stands_at(s, i, first)) by {
        assert forall|k: int| 0 <= k < first.len() implies s[i + k] == #[trigger] first[k] by {
            assert(text[k] == first[k]);
        }
    }
    lemma_scan_rank(s, i, cells, y, 0, 0);
    if y == 0 {
        assert(seen(cells, 0, 9) =~= cells);
    } else {
        let rest = ranks_from(cells, y - 1);
        assert(text.len() == first.len() + 1 + rest.len());
        assert(text[first.len() as int] == '/');
        assert(s[i + first.len()] == '/');
        assert(stands_at(s, i + first.len() + 1, rest)) by {
            assert forall|k: int| 0 <= k < rest.len() implies s[i + first.len() + 1 + k]
                == #[trigger] rest[k] by {
                assert(text[first.len() + 1 + k] == rest[k]);
            }
        }
        assert(seen(cells, y, 9) =~= seen(cells, y - 1, 0)) by {
            let left = seen(cells, y, 9);
            let right = seen(cells, y - 1, 0);
            assert forall|n: int| 0 <= n < 90 implies #[trigger] left[n] == right[n] by {
                assert(n % 9 < 9);
            }
        }
        lemma_scan_ranks(s, i + first.len() + 1, cells, y - 1);
    }
}

/// What follows the ranks in the text of a position: the side to move, two
/// dashes, a zero, and the number `n` of the move.
pub open spec fn tail_text(red: bool, n: nat) -> Seq<char> {
    seq![' ', if red {
        'w'
    } else {
        'b'
    }, ' ', '-', ' ', '-', ' ', '0', ' '] + decimal(n)
}

/// A field without white space runs to the end of the text.
pub proof fn lemma_token_runs(s: Seq<char>, i: int)
    requires
        0 <= i <= s.len(),
        forall|k: int| i <= k < s.len() ==> !is_space(#[trigger] s[k]),
    ensures
        token_end(s, i) == s.len(),
    decreases s.len() - i,
{
    if i < s.len() {
        lemma_token_runs(s, i + 1);
    }
}

/// A field of one character between two blanks: the next field starts two places on.
pub proof fn lemma_short_field(s: Seq<char>, i: int)
    requires
        0 <= i,
        i + 2 < s.len(),
        !is_space(s[i]),
        is_space(s[i + 1]),
        !is_space(s[i + 2]),
    ensures
        next_field(s, i) == i + 2,
{
    assert(token_end(s, i + 1) == i + 1);
    assert(token_end(s, i) == i + 1);
    assert(skip_spaces(s, i + 2) == i + 2);
    assert(skip_spaces(s, i + 1) == i + 2);
}

/// Reading what follows the ranks gives the side to move and the number of the move.
pub proof fn lemma_read_tail(s: Seq<char>, i: int, red: bool, n: nat)
    requires
        1 <= n <= 16384,
        stands_at(s, i, tail_text(red, n)),
        i + tail_text(red, n).len() == s.len(),
    ensures
        parse_tail(s, i) == Ok::<(bool, int), FenError>((red, n as int)),
        is_space(s[i]),
{
    let tail = tail_text(red, n);
    let num = decimal(n);
    lemma_decimal_reads_back(n);
    assert(tail.len() == 9 + num.len());
    assert forall|k: int| 0 <= k < 9 implies s[i + k] == tail[k] by {}
    assert(tail[0] == ' ' && tail[2] == ' ' && tail[3] == '-' && tail[4] == ' ' && tail[5] == '-'
        && tail[6] == ' ' && tail[7] == '0' && tail[8] == ' ');
    assert(s[i] == ' ' && s[i + 2] == ' ' && s[i + 3] == '-' && s[i + 4] == ' ' && s[i + 5] == '-'
        && s[i + 6] == ' ' && s[i + 7] == '0' && s[i + 8] == ' ');
    let mark = s[i + 1];
    assert(mark == tail[1]);
    assert(is_red_mark(mark) == red && is_black_mark(mark) == !red);
    assert(!is_space(mark));
    assert(skip_spaces(s, i + 1) == i + 1);
    assert(skip_spaces(s, i) == i + 1);
    assert(tail[9] == num[0]);
    assert(s[i + 9] == num[0]);
    assert(is_digit(num[0]));
    lemma_short_field(s, i + 1);
    lemma_short_field(s, i + 3);
    lemma_short_field(s, i + 5);
    lemma_short_field(s, i + 7);
    let f = i + 9;
    assert(next_field(s, next_field(s, next_field(s, next_field(s, i + 1)))) == f);
    assert forall|k: int| f <= k < s.len() implies !is_space(#[trigger] s[k]) by {
        assert(tail[k - i] == num[k - f]);
        assert(is_digit(num[k - f]));
    }
    lemma_token_runs(s, f);
    let token = s.subrange(f, token_end(s, f));
    assert(token =~= num) by {
        assert forall|k: int| 0 <= k < num.len() implies token[k] == num[k] by {
            assert(tail[9 + k] == num[k]);
        }
    }
}

/// The first slot of the kind `kind`.
pub open spec fn kind_base(kind: PieceType) -> int {
    match kind {
        PieceType::Rook => 0,
        PieceType::Cannon => 2,
        PieceType::Horse => 4,
        PieceType::Elephant => 6,
        PieceType::Pawn => 8,
        PieceType::King => 13,
        PieceType::Advisor => 14,
    }
}

/// How many slots the kind `kind` has.
pub open spec fn kind_room(kind: PieceType) -> int {
    match kind {
        PieceType::Pawn => 5,
        PieceType::King => 1,
        _ => 2,
    }
}

/// What holds of the slots `slots` of the side `red` while the pieces of the
/// position `b` are entered, after the squares before number `n` have been
/// read: each slot in use names a square that was read and holds its piece in
/// `b`, no two name the same square, and the king has its slot once its square
/// was read.
pub open spec fn entered_slots(b: BoardState, slots: Seq<PackedCoord>, red: bool, n: int) -> bool {
    &&& slots.len() == 16
    &&& forall|j: int|
        0 <= j < 16 ==> (#[trigger] slots[j]).is_dead() || (slots[j].on_board() && reading_index(
            slots[j].x() as int,
            slots[j].y() as int,
        ) < n && b.tile_char(slots[j].x() as int, slots[j].y() as int) == letter_of_piece(
            slot_kind(j),
            red,
        ))
    &&& forall|j: int, k: int|
        0 <= j < 16 && 0 <= k < 16 && j != k && #[trigger] slots[j] == #[trigger] slots[k]
            ==> slots[j].is_dead()
    &&& (reading_index(b.roster(red).King.x() as int, b.roster(red).King.y() as int) < n
        ==> !slots[13].is_dead())
}

/// Where a slot of a kind is free, there is a first free slot of that kind.
pub proof fn lemma_first_free_exists(slots: Seq<PackedCoord>, kind: PieceType, j: int)
    requires
        0 <= j < 16,
        slot_kind(j) == kind,
        slots[j].is_dead(),
    ensures
        has_free(slots, kind),
        first_free(slots, kind, free_slot(slots, kind)),
    decreases j,
{
    if forall|i: int| 0 <= i < j && slot_kind(i) == kind ==> !(#[trigger] slots[i]).is_dead() {
        assert(first_free(slots, kind, j));
    } else {
        let i = choose|i: int| 0 <= i < j && slot_kind(i) == kind && (#[trigger] slots[i]).is_dead();
        lemma_first_free_exists(slots, kind, i);
    }
}

/// The slot of `b` that names the square `p`.
pub open spec fn home_slot(b: BoardState, red: bool, p: PackedCoord) -> int {
    choose|k: int| 0 <= k < 16 && #[trigger] b.roster(red).slot(k) == p
}

/// A piece of a well-formed position finds a free slot of its kind when its
/// square is read: the pieces of its kind that were entered before it, and
/// itself, each have a slot of their own in the position.
pub proof fn lemma_room(b: BoardState, slots: Seq<PackedCoord>, red: bool, x: int, y: int)
    requires
        b.wf(),
        on_board(x, y),
        entered_slots(b, slots, red, reading_index(x, y)),
        b.occupied(x, y),
        is_upper(b.tile_char(x, y)) == red,
    ensures
        has_free(slots, kind_of_letter(b.tile_char(x, y))->0),
        first_free(
            slots,
            kind_of_letter(b.tile_char(x, y))->0,
            free_slot(slots, kind_of_letter(b.tile_char(x, y))->0),
        ),
{
    let c = b.tile_char(x, y);
    let kind = kind_of_letter(c)->0;
    let lo = kind_base(kind);
    let room = kind_room(kind);
    let here = PackedCoord::pack(x, y);
    let n = reading_index(x, y);
    lemma_pack_unpack(x, y, here);
    let k_here = b.lemma_slot_of_square(x, y);
    lemma_letters(c, kind, red);
    if exists|j: int| 0 <= j < 16 && slot_kind(j) == kind && (#[trigger] slots[j]).is_dead() {
        let j = choose|j: int| 0 <= j < 16 && slot_kind(j) == kind && (#[trigger] slots[j]).is_dead();
        lemma_first_free_exists(slots, kind, j);
    } else {
        let squares = Seq::new(
            (room + 1) as nat,
            |t: int|
                if t < room {
                    slots[lo + t]
                } else {
                    here
                },
        );
        let homes = Seq::new((room + 1) as nat, |t: int| home_slot(b, red, squares[t]));
        assert forall|t: int| 0 <= t <= room implies lo <= #[trigger] homes[t] < lo + room
            && b.roster(red).slot(homes[t]) == squares[t] by {
            let p = squares[t];
            if t < room {
                assert(slot_kind(lo + t) == kind);
                assert(!slots[lo + t].is_dead());
                let px = p.x() as int;
                let py = p.y() as int;
                lemma_pack_unpack(px, py, p);
                assert(b.tile_char(px, py) == c);
                let k = b.lemma_slot_of_square(px, py);
                assert(b.roster(red).slot(k) == p);
            } else {
                assert(b.roster(red).slot(k_here) == p);
            }
            let h = homes[t];
            assert(0 <= h < 16 && b.roster(red).slot(h) == p);
            assert(b.roster_on_grid(red));
            lemma_letters(c, slot_kind(h), red);
            assert(slot_kind(h) == kind);
        }
        assert(homes.no_duplicates()) by {
            assert forall|t: int, u: int| 0 <= t < homes.len() && 0 <= u < homes.len() && t != u implies homes[t]
                != homes[u] by {
                if homes[t] == homes[u] {
                    assert(squares[t] == squares[u]);
                    if t < room && u < room {
                        assert(slots[lo + t] == slots[lo + u]);
                    } else if t < room {
                        assert(slots[lo + t] == here);
                    } else {
                        assert(slots[lo + u] == here);
                    }
                }
            }
        }
        homes.unique_seq_to_set();
        lemma_int_range(lo, lo + room);
        assert(homes.to_set().subset_of(set_int_range(lo, lo + room))) by {
            assert forall|h: int| homes.to_set().contains(h) implies set_int_range(
                lo,
                lo + room,
            ).contains(h) by {
                let t = choose|t: int| 0 <= t < homes.len() && homes[t] == h;
                assert(lo <= homes[t] < lo + room);
            }
        }
        lemma_len_subset(homes.to_set(), set_int_range(lo, lo + room));
        assert(false);
    }
}

/// Whether the pieces were entered and both kings are among them.
pub open spec fn kings_entered(filled: Option<(Seq<PackedCoord>, Seq<PackedCoord>)>) -> bool {
    match filled {
        Some((red, black)) => !red[13].is_dead() && !black[13].is_dead(),
        None => false,
    }
}

/// Entering the pieces of a well-formed position with both kings never runs
/// out of slots, and both kings are entered.
pub proof fn lemma_fill(b: BoardState, n: int, red: Seq<PackedCoord>, black: Seq<PackedCoord>)
    requires
        b.wf(),
        !b.redPieces.King.is_dead(),
        !b.blackPieces.King.is_dead(),
        0 <= n <= 90,
        entered_slots(b, red, true, n),
        entered_slots(b, black, false, n),
    ensures
        kings_entered(fill_rosters(b.cells(), n, red, black)),
    decreases 90 - n,
{
    let red_king = b.roster(true).King;
    let black_king = b.roster(false).King;
    assert(b.roster_on_grid(true) && b.roster_on_grid(false));
    assert(b.roster(true).slot(13) == red_king && b.roster(false).slot(13) == black_king);
    lemma_pack_unpack(red_king.x() as int, red_king.y() as int, red_king);
    lemma_pack_unpack(black_king.x() as int, black_king.y() as int, black_king);
    if n < 90 {
        let (x, y) = reading_square(n);
        assert(on_board(x, y) && reading_index(x, y) == n);
        b.lemma_cell(x, y);
        let c = b.tile_char(x, y);
        assert(b.letters_valid());
        assert(c == '\0' || is_piece_letter(c));
        let here = PackedCoord::pack(x, y);
        lemma_pack_unpack(x, y, here);
        if kind_of_letter(c) is None {
            lemma_fill(b, n + 1, red, black);
        } else {
            let kind = kind_of_letter(c)->0;
            let mine = is_upper(c);
            lemma_letters(c, kind, mine);
            let slots = if mine { red } else { black };
            let theirs = if mine { black } else { red };
            lemma_room(b, slots, mine, x, y);
            let k = free_slot(slots, kind);
            let filled = slots.update(k, here);
            assert(entered_slots(b, filled, mine, n + 1)) by {
                assert forall|j: int| 0 <= j < 16 implies (#[trigger] filled[j]).is_dead() || (
                filled[j].on_board() && reading_index(filled[j].x() as int, filled[j].y() as int)
                    < n + 1 && b.tile_char(filled[j].x() as int, filled[j].y() as int)
                    == letter_of_piece(slot_kind(j), mine)) by {
                    if j != k {
                        assert(filled[j] == slots[j]);
                    }
                }
                assert forall|j: int, i: int|
                    0 <= j < 16 && 0 <= i < 16 && j != i && #[trigger] filled[j]
                        == #[trigger] filled[i] implies filled[j].is_dead() by {
                    if j != k && i != k {
                        assert(filled[j] == slots[j] && filled[i] == slots[i]);
                    } else if j == k {
                        assert(filled[i] == slots[i]);
                    } else {
                        assert(filled[j] == slots[j]);
                    }
                }
                if k != 13 {
                    assert(filled[13] == slots[13]);
                }
            }
            assert(entered_slots(b, theirs, !mine, n + 1)) by {
                lemma_letters(c, PieceType::King, !mine);
            }
            if mine {
                lemma_fill(b, n + 1, filled, black);
            } else {
                lemma_fill(b, n + 1, red, filled);
            }
        }
    }
}

impl BoardState {
    /// The text of the ranks of the position, and how long it is.
    pub open spec fn ranks_text(&self) -> Seq<char> {
        ranks_from(self.cells(), 9)
    }

    /// The squares of a well-formed position are ninety valid squares.
    pub proof fn lemma_cells_valid(&self)
        requires
            self.letters_valid(),
        ensures
            cells_valid(self.cells()),
    {
        let cells = self.cells();
        assert forall|n: int| 0 <= n < 90 implies (#[trigger] cells[n]) == '\0' || is_piece_letter(
            cells[n],
        ) by {
            assert(cells[n] == self.tile_char(n % 9, n / 9));
        }
    }

    /// The text of a position is the text of its ranks and then what follows them.
    pub proof fn lemma_text_parts(&self)
        requires
            0 <= self.plyNumber,
        ensures
            stands_at(self.text(), 0, self.ranks_text()),
            stands_at(
                self.text(),
                self.ranks_text().len() as int,
                tail_text(self.isRedTurn, fullmove_of(self.plyNumber as int) as nat),
            ),
            self.text().len() == self.ranks_text().len() + tail_text(
                self.isRedTurn,
                fullmove_of(self.plyNumber as int) as nat,
            ).len(),
            1 <= fullmove_of(self.plyNumber as int) <= 16384,
    {
        let text = self.text();
        let ranks = self.ranks_text();
        let tail = tail_text(self.isRedTurn, fullmove_of(self.plyNumber as int) as nat);
        assert(text =~= ranks + tail);
        let i = ranks.len() as int;
        assert forall|k: int| 0 <= k < tail.len() implies text[i + k] == #[trigger] tail[k] by {}
        assert forall|k: int| 0 <= k < ranks.len() implies text[0 + k] == #[trigger] ranks[k] by {}
    }

    /// Reading the ranks in the text of a position gives its squares.
    pub proof fn lemma_reads_ranks(&self)
        requires
            self.letters_valid(),
            0 <= self.plyNumber,
        ensures
            scan_board(self.text(), 0, 0, 9, empty_cells()) == Ok::<(Seq<char>, int), FenError>(
                (self.cells(), self.ranks_text().len() as int),
            ),
    {
        self.lemma_cells_valid();
        self.lemma_text_parts();
        let text = self.text();
        let i = self.ranks_text().len() as int;
        let tail = tail_text(self.isRedTurn, fullmove_of(self.plyNumber as int) as nat);
        assert(tail[0] == ' ');
        assert(text[i + 0] == tail[0]);
        assert(is_space(text[i]));
        lemma_scan_ranks(text, 0, self.cells(), 9);
        assert(seen(self.cells(), 9, 0) =~= empty_cells());
    }

    /// Reading what follows the ranks in the text of a position gives its side
    /// to move and the number of its move.
    pub proof fn lemma_reads_tail(&self)
        requires
            0 <= self.plyNumber,
        ensures
            parse_tail(self.text(), self.ranks_text().len() as int) == Ok::<(bool, int), FenError>(
                (self.isRedTurn, fullmove_of(self.plyNumber as int)),
            ),
    {
        self.lemma_text_parts();
        lemma_read_tail(
            self.text(),
            self.ranks_text().len() as int,
            self.isRedTurn,
            fullmove_of(self.plyNumber as int) as nat,
        );
    }

    /// Entering the pieces of a well-formed position with both kings succeeds.
    pub proof fn lemma_enters_pieces(&self)
        requires
            self.wf(),
            !self.redPieces.King.is_dead(),
            !self.blackPieces.King.is_dead(),
        ensures
            kings_entered(fill_rosters(self.cells(), 0, dead_slots(), dead_slots())),
    {
        assert(self.roster_on_grid(true) && self.roster_on_grid(false));
        assert(self.roster(true).slot(13) == self.redPieces.King);
        assert(self.roster(false).slot(13) == self.blackPieces.King);
        assert(self.redPieces.King.on_board() && self.blackPieces.King.on_board());
        assert(entered_slots(*self, dead_slots(), true, 0));
        assert(entered_slots(*self, dead_slots(), false, 0));
        lemma_fill(*self, 0, dead_slots(), dead_slots());
    }

    /// Reading the text of a position and writing what was read gives the
    /// same text, for every well-formed position with both kings whose ply
    /// is not negative: the squares, the side to move and the number of the
    /// move are those of the position.
    pub proof fn lemma_text_round_trip(&self)
        requires
            self.wf(),
            !self.redPieces.King.is_dead(),
            !self.blackPieces.King.is_dead(),
            0 <= self.plyNumber,
        ensures
            parse_fen(self.text()) is Ok,
            parse_fen(self.text())->Ok_0.cells == self.cells(),
            parse_fen(self.text())->Ok_0.red_turn == self.isRedTurn,
            fullmove_of(parse_fen(self.text())->Ok_0.ply) == fullmove_of(self.plyNumber as int),
            fen_text(
                parse_fen(self.text())->Ok_0.cells,
                parse_fen(self.text())->Ok_0.red_turn,
                parse_fen(self.text())->Ok_0.ply,
            ) == self.text(),
    {
        self.lemma_reads_ranks();
        self.lemma_reads_tail();
        self.lemma_enters_pieces();
    }
}

} // verus!
