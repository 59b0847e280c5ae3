//! Texts in the form in which positions are written, and why reading and
//! writing such a text gives it back.
use vstd::prelude::*;
use crate::board::counting::{
    cell_read_as, fits_rosters, kind_fits, lemma_placed_step, lemma_rosters_take_a_game, placed,
};
use crate::board::decimal::{
    all_digits, decimal, decimal_value, digit_char, digit_value, is_digit,
    lemma_decimal_reads_back,
};
use crate::board::fen::{
    dead_slots, empty_cells, fen_text, fullmove_of, is_space, parse_fen, rank_from, ranks_from,
    scan_board, FenError, Layout,
};
use crate::board::piece::{is_piece_letter, lemma_letters, letter_of_piece, slot_kind};
use crate::board::roundtrip::{
    cells_valid, kind_room, lemma_read_tail, stands_at, tail_text,
};
use crate::board::BoardState;

verus! {

/// Whether `t` is a numeral as it is written: digits only, none of them a
/// leading zero, for a move number between 1 and 16384.
pub open spec fn canonical_number(t: Seq<char>) -> bool {
    &&& t.len() >= 1
    &&& all_digits(t)
    &&& t[0] != '0'
    &&& 1 <= decimal_value(t) <= 16384
}

/// Whether what stands in `s` from index `i` on is what follows the ranks
/// in a written position: a blank, `w` or `b`, ` - - 0 ` and the move number.
pub open spec fn canonical_tail(s: Seq<char>, i: int) -> bool {
    &&& 0 <= i
    &&& i + 10 <= s.len()
    &&& s[i] == ' '
    &&& (s[i + 1] == 'w' || s[i + 1] == 'b')
    &&& s[i + 2] == ' '
    &&& s[i + 3] == '-'
    &&& s[i + 4] == ' '
    &&& s[i + 5] == '-'
    &&& s[i + 6] == ' '
    &&& s[i + 7] == '0'
    &&& s[i + 8] == ' '
    &&& canonical_number(s.subrange(i + 9, s.len() as int))
}

/// Whether what stands in `s` from index `i` on is the rest of the ranks as
/// they are written, with the cursor on file `x` of rank `y`: piece letters
/// and digits from 1 to 9, never two digits in a row, each rank nine files
/// wide, the ranks separated by `/`, rank 0 last and followed by what follows
/// the ranks.
pub open spec fn canonical_ranks(s: Seq<char>, i: int, x: int, y: int, after_digit: bool) -> bool
    decreases s.len() - i,
{
    if i < 0 || i >= s.len() {
        false
    } else if s[i] == ' ' {
        x == 9 && y == 0 && canonical_tail(s, i)
    } else if s[i] == '/' {
        x == 9 && y > 0 && canonical_ranks(s, i + 1, 0, y - 1, false)
    } else if '1' <= s[i] && s[i] <= '9' {
        !after_digit && x + digit_value(s[i]) <= 9 && canonical_ranks(
            s,
            i + 1,
            x + digit_value(s[i]),
            y,
            true,
        )
    } else {
        is_piece_letter(s[i]) && x < 9 && canonical_ranks(s, i + 1, x + 1, y, false)
    }
}

/// The squares that a reading of ranks gives, or ninety empty squares where it fails.
pub open spec fn cells_read(r: Result<(Seq<char>, int), FenError>) -> Seq<char> {
    match r {
        Ok((cells, end)) => cells,
        Err(e) => empty_cells(),
    }
}

/// The index at which a reading of ranks ends, or -1 where it fails.
pub open spec fn end_read(r: Result<(Seq<char>, int), FenError>) -> int {
    match r {
        Ok((cells, end)) => end,
        Err(e) => -1,
    }
}

/// How many of the first `i` characters of `s` are the character `c`.
pub open spec fn count_in(s: Seq<char>, c: char, i: int) -> int
    decreases i,
{
    if i <= 0 {
        0
    } else {
        count_in(s, c, i - 1) + if s[i - 1] == c {
            1int
        } else {
            0int
        }
    }
}

/// Whether the text `s` holds no more letters of the kind of slot `j` than
/// the side `red` has slots for.
pub open spec fn letter_fits(s: Seq<char>, red: bool, j: int) -> bool {
    count_in(s, letter_of_piece(slot_kind(j), red), s.len() as int) <= kind_room(slot_kind(j))
}

/// Whether the letters of the text `s` are those of a game: of each side at
/// most two rooks, cannons, horses, elephants and advisors and five pawns,
/// and one king.
pub open spec fn letters_fit(s: Seq<char>) -> bool {
    &&& forall|j: int| 0 <= j < 16 ==> #[trigger] letter_fits(s, true, j)
    &&& forall|j: int| 0 <= j < 16 ==> #[trigger] letter_fits(s, false, j)
    &&& count_in(s, 'K', s.len() as int) >= 1
    &&& count_in(s, 'k', s.len() as int) >= 1
}

/// Whether `s` is a text in the form in which positions are written: the
/// ranks and what follows them are in that form, and the letters are those
/// of a game.
pub open spec fn is_canonical(s: Seq<char>) -> bool {
    &&& canonical_ranks(s, 0, 0, 9, false)
    &&& letters_fit(s)
}

/// A numeral without a leading zero is the numeral of its number.
pub proof fn lemma_numeral_is_written(t: Seq<char>)
    requires
        t.len() >= 1,
        all_digits(t),
        t[0] != '0',
    ensures
        decimal(decimal_value(t)) == t,
        decimal_value(t) >= 1,
    decreases t.len(),
{
    let n = decimal_value(t);
    let head = t.drop_last();
    let d = digit_value(t.last());
    assert(is_digit(t.last()));
    if t.len() == 1 {
        assert(head =~= Seq::<char>::empty());
        assert(decimal_value(head) == 0);
        assert(is_digit(t[0]));
        assert(decimal(n) =~= t);
    } else {
        assert(head[0] == t[0]);
        assert forall|i: int| 0 <= i < head.len() implies is_digit(#[trigger] head[i]) by {
            assert(head[i] == t[i]);
        }
        lemma_numeral_is_written(head);
        assert(n == decimal_value(head) * 10 + d);
        assert(n / 10 == decimal_value(head) && n % 10 == d);
        assert(decimal(n) =~= t);
    }
}

/// Whether the square number `n` lies before the cursor on file `x` of rank
/// `y`, in the order in which the squares are read.
pub open spec fn before_cursor(n: int, x: int, y: int) -> bool {
    n / 9 > y || (n / 9 == y && n % 9 < x)
}

/// A run of empty squares is written as one digit: writing the rank from
/// the start of the run is writing it from its end with the run counted.
pub proof fn lemma_run_is_counted(cells: Seq<char>, y: int, x: int, run: nat, d: int)
    requires
        0 <= d,
        forall|n: int| 9 * y + x <= n < 9 * y + x + d ==> #[trigger] cells[n] == '\0',
        x + d <= 9,
    ensures
        rank_from(cells, y, x, run) == rank_from(cells, y, x + d, (run + d) as nat),
    decreases d,
{
    if d > 0 {
        assert(cells[9 * y + x] == '\0');
        lemma_run_is_counted(cells, y, x + 1, run + 1, d - 1);
    }
}

/// What is written after the rank `y`: a `/` and the ranks below it, or
/// nothing after rank 0.
pub open spec fn ranks_below(cells: Seq<char>, y: int) -> Seq<char> {
    if y > 0 {
        seq!['/'] + ranks_from(cells, y - 1)
    } else {
        Seq::empty()
    }
}

/// Reading ranks that are written in form succeeds, leaves the squares read
/// before as they were, and gives squares whose writing is the text that was
/// read. `run` is the digit just read, where one was.
pub proof fn lemma_canonical_ranks(
    s: Seq<char>,
    i: int,
    x: int,
    y: int,
    after_digit: bool,
    run: nat,
    acc: Seq<char>,
)
    requires
        canonical_ranks(s, i, x, y, after_digit),
        acc.len() == 90,
        0 <= x <= 9,
        0 <= y <= 9,
        after_digit ==> i >= 1 && 1 <= run <= 9 && s[i - 1] == digit_char(run),
        !after_digit ==> run == 0,
        forall|n: int| 0 <= n < 90 && !before_cursor(n, x, y) ==> #[trigger] acc[n] == '\0',
        cells_valid(acc),
    ensures
        scan_board(s, i, x, y, acc) is Ok,
        cells_valid(cells_read(scan_board(s, i, x, y, acc))),
        i <= end_read(scan_board(s, i, x, y, acc)) < s.len(),
        canonical_tail(s, end_read(scan_board(s, i, x, y, acc))),
        cells_read(scan_board(s, i, x, y, acc)).len() == 90,
        forall|n: int|
            0 <= n < 90 && before_cursor(n, x, y) ==> #[trigger] cells_read(
                scan_board(s, i, x, y, acc),
            )[n] == acc[n],
        rank_from(cells_read(scan_board(s, i, x, y, acc)), y, x, run) + ranks_below(
            cells_read(scan_board(s, i, x, y, acc)),
            y,
        ) == s.subrange(
            if after_digit {
                i - 1
            } else {
                i
            },
            end_read(scan_board(s, i, x, y, acc)),
        ),
    decreases s.len() - i,
{
    let r = scan_board(s, i, x, y, acc);
    let c = s[i];
    let start = if after_digit { i - 1 } else { i };
    if c == ' ' {
        assert(is_space(c));
        assert(r == Ok::<(Seq<char>, int), FenError>((acc, i)));
        assert(rank_from(acc, 0, 9, run) + ranks_below(acc, 0) =~= s.subrange(start, i));
    } else if c == '/' {
        assert(!is_space(c));
        let below = scan_board(s, i + 1, 0, y - 1, acc);
        assert(r == below);
        assert forall|n: int| 0 <= n < 90 && !before_cursor(n, 0, y - 1) implies #[trigger] acc[n]
            == '\0' by {
            assert(!before_cursor(n, x, y));
        }
        lemma_canonical_ranks(s, i + 1, 0, y - 1, false, 0, acc);
        let fin = cells_read(r);
        let end = end_read(r);
        assert forall|n: int| 0 <= n < 90 && before_cursor(n, x, y) implies #[trigger] fin[n]
            == acc[n] by {
            assert(before_cursor(n, 0, y - 1));
        }
        assert(ranks_from(fin, y - 1) =~= rank_from(fin, y - 1, 0, 0) + ranks_below(fin, y - 1));
        assert(rank_from(fin, y, 9, run) + ranks_below(fin, y) =~= s.subrange(start, end)) by {
            assert(s.subrange(start, end) =~= s.subrange(start, i + 1) + s.subrange(i + 1, end));
            assert(rank_from(fin, y, 9, run) + seq!['/'] =~= s.subrange(start, i + 1));
        }
    } else if '1' <= c && c <= '9' {
        assert(!is_space(c) && is_digit(c));
        let d = digit_value(c);
        assert(c == digit_char(d));
        let next = scan_board(s, i + 1, x + d, y, acc);
        assert(r == next);
        assert forall|n: int| 0 <= n < 90 && !before_cursor(n, x + d, y) implies #[trigger] acc[n]
            == '\0' by {
            assert(!before_cursor(n, x, y));
        }
        lemma_canonical_ranks(s, i + 1, x + d, y, true, d, acc);
        let fin = cells_read(r);
        assert forall|n: int| 0 <= n < 90 && before_cursor(n, x, y) implies #[trigger] fin[n]
            == acc[n] by {
            assert(before_cursor(n, x + d, y));
        }
        assert forall|n: int| 9 * y + x <= n < 9 * y + x + d implies #[trigger] fin[n] == '\0' by {
            assert(n / 9 == y && n % 9 == n - 9 * y);
            assert(before_cursor(n, x + d, y));
            assert(!before_cursor(n, x, y));
            assert(acc[n] == '\0');
        }
        lemma_run_is_counted(fin, y, x, 0, d as int);
    } else {
        assert(!is_space(c) && !is_digit(c));
        assert(crate::board::fen::square_letter(c) == c);
        let filled = acc.update(9 * y + x, c);
        let next = scan_board(s, i + 1, x + 1, y, filled);
        assert(r == next);
        assert((9 * y + x) / 9 == y && (9 * y + x) % 9 == x);
        assert forall|n: int| 0 <= n < 90 && !before_cursor(n, x + 1, y) implies #[trigger] filled[n]
            == '\0' by {
            assert(!before_cursor(n, x, y));
        }
        lemma_canonical_ranks(s, i + 1, x + 1, y, false, 0, filled);
        let fin = cells_read(r);
        let end = end_read(r);
        assert forall|n: int| 0 <= n < 90 && before_cursor(n, x, y) implies #[trigger] fin[n]
            == acc[n] by {
            assert(before_cursor(n, x + 1, y));
            assert(filled[n] == acc[n]);
        }
        assert(before_cursor(9 * y + x, x + 1, y));
        assert(fin[9 * y + x] == filled[9 * y + x]);
        assert(fin[9 * y + x] == c);
        let rest = rank_from(fin, y, x + 1, 0);
        assert(rest + ranks_below(fin, y) == s.subrange(i + 1, end));
        assert(s.subrange(start, end) =~= s.subrange(start, i + 1) + s.subrange(i + 1, end));
        if after_digit {
            assert(rank_from(fin, y, x, run) =~= seq![digit_char(run), c] + rest);
            assert(seq![digit_char(run), c] =~= s.subrange(start, i + 1));
        } else {
            assert(rank_from(fin, y, x, run) =~= seq![c] + rest);
            assert(seq![c] =~= s.subrange(start, i + 1));
        }
        assert(rank_from(fin, y, x, run) + ranks_below(fin, y) =~= s.subrange(start, i + 1) + (rest
            + ranks_below(fin, y)));
    }
}

/// The count of a letter stays as it is over characters that are not the letter.
pub proof fn lemma_count_skips(s: Seq<char>, c: char, from: int, to: int)
    requires
        0 <= from <= to,
        forall|k: int| from <= k < to ==> #[trigger] s[k] != c,
    ensures
        count_in(s, c, to) == count_in(s, c, from),
    decreases to - from,
{
    if from < to {
        lemma_count_skips(s, c, from, to - 1);
        assert(s[to - 1] != c);
    }
}

/// The count of a letter stays as it is over squares that are empty.
pub proof fn lemma_placed_skips(cells: Seq<char>, c: char, from: int, d: int)
    requires
        cells.len() == 90,
        0 <= from,
        0 <= d,
        from + d <= 90,
        c != '\0',
        forall|m: int| from <= m < from + d ==> cells[#[trigger] cell_read_as(m)] == '\0',
    ensures
        placed(cells, c, from + d) == placed(cells, c, from),
    decreases d,
{
    if d > 0 {
        lemma_placed_skips(cells, c, from, d - 1);
        lemma_placed_step(cells, c, from + d - 1);
        assert(cells[cell_read_as(from + d - 1)] == '\0');
    }
}

/// The squares that are read from ranks in form hold a letter as often as
/// the text that was read does.
pub proof fn lemma_letters_counted(
    s: Seq<char>,
    i: int,
    x: int,
    y: int,
    after_digit: bool,
    run: nat,
    acc: Seq<char>,
    c: char,
)
    requires
        canonical_ranks(s, i, x, y, after_digit),
        0 <= x <= 9,
        0 <= y <= 9,
        after_digit ==> i >= 1 && 1 <= run <= 9 && s[i - 1] == digit_char(run),
        !after_digit ==> run == 0,
        forall|n: int| 0 <= n < 90 && !before_cursor(n, x, y) ==> #[trigger] acc[n] == '\0',
        cells_valid(acc),
        is_piece_letter(c),
    ensures
        placed(cells_read(scan_board(s, i, x, y, acc)), c, 90) - placed(
            cells_read(scan_board(s, i, x, y, acc)),
            c,
            (9 - y) * 9 + x,
        ) == count_in(s, c, end_read(scan_board(s, i, x, y, acc))) - count_in(s, c, i),
    decreases s.len() - i,
{
    let r = scan_board(s, i, x, y, acc);
    lemma_canonical_ranks(s, i, x, y, after_digit, run, acc);
    let fin = cells_read(r);
    let here = s[i];
    let m = (9 - y) * 9 + x;
    if here == ' ' {
        assert(is_space(here));
        assert(r == Ok::<(Seq<char>, int), FenError>((acc, i)));
    } else if here == '/' {
        assert(!is_space(here));
        assert(r == scan_board(s, i + 1, 0, y - 1, acc));
        assert forall|n: int| 0 <= n < 90 && !before_cursor(n, 0, y - 1) implies #[trigger] acc[n]
            == '\0' by {
            assert(!before_cursor(n, x, y));
        }
        lemma_letters_counted(s, i + 1, 0, y - 1, false, 0, acc, c);
    } else if '1' <= here && here <= '9' {
        assert(!is_space(here) && is_digit(here));
        let d = digit_value(here);
        assert(here == digit_char(d));
        assert(r == scan_board(s, i + 1, x + d, y, acc));
        assert forall|n: int| 0 <= n < 90 && !before_cursor(n, x + d, y) implies #[trigger] acc[n]
            == '\0' by {
            assert(!before_cursor(n, x, y));
        }
        lemma_letters_counted(s, i + 1, x + d, y, true, d, acc, c);
        lemma_canonical_ranks(s, i + 1, x + d, y, true, d, acc);
        assert forall|k: int| m <= k < m + d implies fin[#[trigger] cell_read_as(k)] == '\0' by {
            let n = cell_read_as(k);
            assert(k / 9 == 9 - y && k % 9 == x + (k - m));
            assert(n == 9 * y + x + (k - m));
            assert(n / 9 == y && n % 9 == x + (k - m));
            assert(before_cursor(n, x + d, y));
            assert(!before_cursor(n, x, y));
            assert(acc[n] == '\0');
        }
        lemma_placed_skips(fin, c, m, d as int);
    } else {
        assert(!is_space(here) && !is_digit(here));
        assert(crate::board::fen::square_letter(here) == here);
        let filled = acc.update(9 * y + x, here);
        assert(r == scan_board(s, i + 1, x + 1, y, filled));
        assert((9 * y + x) / 9 == y && (9 * y + x) % 9 == x);
        assert forall|n: int| 0 <= n < 90 && !before_cursor(n, x + 1, y) implies #[trigger] filled[n]
            == '\0' by {
            assert(!before_cursor(n, x, y));
        }
        assert(cells_valid(filled)) by {
            assert forall|n: int| 0 <= n < 90 implies (#[trigger] filled[n]) == '\0' || is_piece_letter(
                filled[n],
            ) by {
                if n != 9 * y + x {
                    assert(filled[n] == acc[n]);
                }
            }
        }
        lemma_letters_counted(s, i + 1, x + 1, y, false, 0, filled, c);
        lemma_canonical_ranks(s, i + 1, x + 1, y, false, 0, filled);
        assert(before_cursor(9 * y + x, x + 1, y));
        assert(fin[9 * y + x] == filled[9 * y + x]);
        assert(m / 9 == 9 - y && m % 9 == x);
        assert(cell_read_as(m) == 9 * y + x);
        lemma_placed_step(fin, c, m);
    }
}

/// The letters of a text whose ranks are in form are those of a game exactly
/// when the pieces on the squares that are read from it are.
pub proof fn lemma_letters_fit_squares(s: Seq<char>)
    requires
        canonical_ranks(s, 0, 0, 9, false),
    ensures
        letters_fit(s) <==> fits_rosters(cells_read(scan_board(s, 0, 0, 9, empty_cells()))),
{
    let r = scan_board(s, 0, 0, 9, empty_cells());
    lemma_canonical_ranks(s, 0, 0, 9, false, 0, empty_cells());
    let fin = cells_read(r);
    let end = end_read(r);
    assert forall|c: char| is_piece_letter(c) implies count_in(s, c, s.len() as int) == placed(
        fin,
        c,
        90,
    ) by {
        lemma_letters_counted(s, 0, 0, 9, false, 0, empty_cells(), c);
        let num = s.subrange(end + 9, s.len() as int);
        assert forall|k: int| end <= k < s.len() implies #[trigger] s[k] != c by {
            if k >= end + 9 {
                assert(num[k - (end + 9)] == s[k]);
                assert(is_digit(num[k - (end + 9)]));
            }
        }
        lemma_count_skips(s, c, end, s.len() as int);
    }
    assert forall|red: bool, j: int| 0 <= j < 16 implies letter_fits(s, red, j) == kind_fits(
        fin,
        red,
        j,
        90,
    ) by {
        lemma_letters('\0', slot_kind(j), red);
    }
    lemma_letters('\0', crate::board::piece::PieceType::King, true);
    lemma_letters('\0', crate::board::piece::PieceType::King, false);
    if letters_fit(s) {
        assert forall|j: int| 0 <= j < 16 implies #[trigger] kind_fits(fin, true, j, 90) by {
            assert(letter_fits(s, true, j));
        }
        assert forall|j: int| 0 <= j < 16 implies #[trigger] kind_fits(fin, false, j, 90) by {
            assert(letter_fits(s, false, j));
        }
    }
    if fits_rosters(fin) {
        assert forall|j: int| 0 <= j < 16 implies #[trigger] letter_fits(s, true, j) by {
            assert(kind_fits(fin, true, j, 90));
        }
        assert forall|j: int| 0 <= j < 16 implies #[trigger] letter_fits(s, false, j) by {
            assert(kind_fits(fin, false, j, 90));
        }
    }
}

/// What a text in form describes, once read: the squares, the side to move
/// and the ply.
pub open spec fn layout_read(s: Seq<char>) -> Layout {
    match parse_fen(s) {
        Ok(l) => l,
        Err(e) => Layout {
            cells: empty_cells(),
            red: dead_slots(),
            black: dead_slots(),
            red_turn: true,
            ply: 0,
        },
    }
}

/// Reading a text that is in the form in which positions are written, and
/// writing what was read, gives the same text.
pub proof fn lemma_canonical_round_trip(s: Seq<char>)
    requires
        is_canonical(s),
    ensures
        parse_fen(s) is Ok,
        fen_text(layout_read(s).cells, layout_read(s).red_turn, layout_read(s).ply) == s,
        0 <= layout_read(s).ply <= i16::MAX,
{
    let r = scan_board(s, 0, 0, 9, empty_cells());
    lemma_canonical_ranks(s, 0, 0, 9, false, 0, empty_cells());
    let fin = cells_read(r);
    let i = end_read(r);
    assert(r == Ok::<(Seq<char>, int), FenError>((fin, i)));
    lemma_letters_fit_squares(s);
    lemma_rosters_take_a_game(fin);
    let red = s[i + 1] == 'w';
    let num = s.subrange(i + 9, s.len() as int);
    let n = decimal_value(num);
    lemma_numeral_is_written(num);
    let tail = tail_text(red, n);
    assert(tail.len() == 9 + num.len());
    assert(stands_at(s, i, tail)) by {
        assert forall|k: int| 0 <= k < tail.len() implies s[i + k] == #[trigger] tail[k] by {
            if k >= 9 {
                assert(tail[k] == num[k - 9]);
                assert(num[k - 9] == s[i + 9 + (k - 9)]);
            }
        }
    }
    lemma_read_tail(s, i, red, n);
    let ply = 2 * (n - 1) + if red { 0int } else { 1int };
    assert(fullmove_of(ply) == n);
    assert(ranks_from(fin, 9) =~= rank_from(fin, 9, 0, 0) + ranks_below(fin, 9));
    assert(ranks_from(fin, 9) == s.subrange(0, i));
    assert(s.subrange(i, s.len() as int) =~= tail);
    assert(fen_text(fin, red, ply) =~= s.subrange(0, i) + s.subrange(i, s.len() as int));
    assert(s.subrange(0, i) + s.subrange(i, s.len() as int) =~= s);
}

impl BoardState {
    /// The position that a text in form describes is written as that text.
    pub proof fn lemma_written_as_read(&self, s: Seq<char>)
        requires
            is_canonical(s),
            parse_fen(s) == Ok::<Layout, FenError>(self.layout()),
        ensures
            self.text() == s,
    {
        lemma_canonical_round_trip(s);
    }
}

/// The text that is written for the rest of a rank is in form, where what
/// follows the rank is.
pub proof fn lemma_written_rank_in_form(s: Seq<char>, i: int, cells: Seq<char>, y: int, x: int, run: nat)
    requires
        cells_valid(cells),
        0 <= y <= 9,
        0 <= run <= x <= 9,
        stands_at(s, i, rank_from(cells, y, x, run)),
        canonical_ranks(s, i + rank_from(cells, y, x, run).len(), 9, y, false),
        s[i + rank_from(cells, y, x, run).len()] == '/' || s[i + rank_from(cells, y, x, run).len()]
            == ' ',
    ensures
        canonical_ranks(s, i, x - run, y, false),
    decreases 9 - x,
{
    let text = rank_from(cells, y, x, run);
    let end = i + text.len();
    assert(canonical_ranks(s, end, 9, y, true));
    if x >= 9 {
        if run > 0 {
            assert(text[0] == digit_char(run));
            assert(s[i] == digit_char(run));
            assert(digit_value(s[i]) == run);
        }
    } else {
        let c = cells[9 * y + x];
        assert(c == '\0' || is_piece_letter(c));
        if c == '\0' {
            lemma_written_rank_in_form(s, i, cells, y, x + 1, run + 1);
        } else {
            let rest = rank_from(cells, y, x + 1, 0);
            let head: int = if run > 0 { 2 } else { 1 };
            assert(text.len() == head + rest.len());
            assert(stands_at(s, i + head, rest)) by {
                assert forall|k: int| 0 <= k < rest.len() implies s[i + head + k] == #[trigger] rest[k] by {
                    assert(text[head + k] == rest[k]);
                }
            }
            lemma_written_rank_in_form(s, i + head, cells, y, x + 1, 0);
            if run > 0 {
                assert(text[0] == digit_char(run) && text[1] == c);
                assert(s[i] == digit_char(run) && s[i + 1] == c);
                assert(digit_value(s[i]) == run);
                assert(canonical_ranks(s, i + 1, x, y, true));
            } else {
                assert(text[0] == c);
                assert(s[i] == c);
            }
        }
    }
}

/// The text that is written for the ranks from rank `y` down is in form,
/// where what follows the ranks is.
pub proof fn lemma_written_ranks_in_form(s: Seq<char>, i: int, cells: Seq<char>, y: int)
    requires
        cells_valid(cells),
        0 <= y <= 9,
        stands_at(s, i, ranks_from(cells, y)),
        canonical_tail(s, i + ranks_from(cells, y).len()),
    ensures
        canonical_ranks(s, i, 0, y, false),
    decreases y,
{
    let text = ranks_from(cells, y);
    let first = rank_from(cells, y, 0, 0);
    assert(stands_at(s, i, first)) by {
        assert forall|k: int| 0 <= k < first.len() implies s[i + k] == #[trigger] first[k] by {
            assert(text[k] == first[k]);
        }
    }
    let j = i + first.len();
    if y == 0 {
        assert(s[j] == ' ');
        assert(canonical_ranks(s, j, 9, 0, false));
    } else {
        let rest = ranks_from(cells, y - 1);
        assert(text.len() == first.len() + 1 + rest.len());
        assert(text[first.len() as int] == '/');
        assert(s[j] == '/');
        assert(stands_at(s, j + 1, rest)) by {
            assert forall|k: int| 0 <= k < rest.len() implies s[j + 1 + k] == #[trigger] rest[k] by {
                assert(text[first.len() + 1 + k] == rest[k]);
            }
        }
        lemma_written_ranks_in_form(s, j + 1, cells, y - 1);
        assert(canonical_ranks(s, j, 9, y, false));
    }
    lemma_written_rank_in_form(s, i, cells, y, 0, 0);
}

impl BoardState {
    /// The text of a well-formed position with both kings whose ply is not
    /// negative is in the form in which positions are written. So the texts
    /// in form are the texts of such positions, and no others.
    pub proof fn lemma_text_is_canonical(&self)
        requires
            self.wf(),
            !self.redPieces.King.is_dead(),
            !self.blackPieces.King.is_dead(),
            0 <= self.plyNumber,
        ensures
            is_canonical(self.text()),
    {
        let s = self.text();
        let cells = self.cells();
        let n = fullmove_of(self.plyNumber as int) as nat;
        self.lemma_cells_valid();
        self.lemma_text_parts();
        self.lemma_reads_ranks();
        self.lemma_enters_pieces();
        let i = self.ranks_text().len() as int;
        let tail = tail_text(self.isRedTurn, n);
        let num = decimal(n);
        lemma_decimal_reads_back(n);
        assert(tail.len() == 9 + num.len());
        assert forall|k: int| 0 <= k < 9 implies s[i + k] == tail[k] by {}
        let written = s.subrange(i + 9, s.len() as int);
        assert(written =~= num) by {
            assert forall|k: int| 0 <= k < num.len() implies written[k] == num[k] by {
                assert(tail[9 + k] == num[k]);
            }
        }
        assert(canonical_tail(s, i));
        lemma_written_ranks_in_form(s, 0, cells, 9);
        lemma_letters_fit_squares(s);
        lemma_rosters_take_a_game(cells);
    }
}

} // verus!
