//! How many pieces of each kind a position holds, and why the rosters take
//! them exactly when no side has more of a kind than a game starts with.
use vstd::prelude::*;
use crate::board::fen::{
    dead_slots, fill_rosters, first_free, free_slot, has_free, reading_square,
};
use crate::board::packedmove::{lemma_pack_unpack, PackedCoord};
use crate::board::piece::{
    is_piece_letter, is_upper, kind_of_letter, lemma_letters, letter_of_piece, slot_kind,
    PieceType,
};
use crate::board::roundtrip::{cells_valid, kind_base, kind_room, kings_entered};

verus! {

/// The index in the squares of the square that is read as number `m`.
pub open spec fn cell_read_as(m: int) -> int {
    9 * (9 - m / 9) + m % 9
}

/// How many of the squares that are read before number `n` hold the letter `c`.
pub open spec fn placed(cells: Seq<char>, c: char, n: int) -> int
    decreases n,
{
    if n <= 0 {
        0
    } else {
        placed(cells, c, n - 1) + if cells[cell_read_as(n - 1)] == c {
            1int
        } else {
            0int
        }
    }
}

/// Whether the squares read before number `n` hold no more pieces of the
/// kind of slot `j` than the side `red` has slots for.
pub open spec fn kind_fits(cells: Seq<char>, red: bool, j: int, n: int) -> bool {
    placed(cells, letter_of_piece(slot_kind(j), red), n) <= kind_room(slot_kind(j))
}

/// Whether the pieces on the squares are those of a game: no side has more
/// of a kind than it starts with, and each side has its king.
pub open spec fn fits_rosters(cells: Seq<char>) -> bool {
    &&& forall|j: int| 0 <= j < 16 ==> #[trigger] kind_fits(cells, true, j, 90)
    &&& forall|j: int| 0 <= j < 16 ==> #[trigger] kind_fits(cells, false, j, 90)
    &&& placed(cells, 'K', 90) >= 1
    &&& placed(cells, 'k', 90) >= 1
}

/// What holds of the slots of the side `red` after the squares before number
/// `n` have been read: of each kind as many slots are in use as pieces of the
/// kind were read, the first slots of the kind, and no more were read than
/// the kind has slots.
pub open spec fn filled_to(cells: Seq<char>, slots: Seq<PackedCoord>, red: bool, n: int) -> bool {
    &&& slots.len() == 16
    &&& forall|j: int| 0 <= j < 16 ==> #[trigger] kind_fits(cells, red, j, n)
    &&& forall|j: int|
        0 <= j < 16 ==> ((#[trigger] slots[j]).is_dead() <==> j - kind_base(slot_kind(j))
            >= placed(cells, letter_of_piece(slot_kind(j), red), n))
}

/// A count is never negative.
pub proof fn lemma_placed_counts(cells: Seq<char>, c: char, n: int)
    ensures
        0 <= placed(cells, c, n),
    decreases n,
{
    if n > 0 {
        lemma_placed_counts(cells, c, n - 1);
    }
}

/// Reading more squares cannot make a count smaller.
pub proof fn lemma_placed_grows(cells: Seq<char>, c: char, n: int, more: int)
    requires
        n <= more,
    ensures
        placed(cells, c, n) <= placed(cells, c, more),
    decreases more - n,
{
    if n < more {
        lemma_placed_grows(cells, c, n, more - 1);
        lemma_placed_counts(cells, c, more - 1);
    }
}

/// The slots of a kind are those from its first slot on, as many as it has.
pub proof fn lemma_kind_range(j: int, kind: PieceType)
    requires
        0 <= j < 16,
    ensures
        slot_kind(j) == kind <==> kind_base(kind) <= j < kind_base(kind) + kind_room(kind),
        0 <= kind_base(kind),
        kind_base(kind) + kind_room(kind) <= 16,
        slot_kind(kind_base(kind)) == kind,
{
}

/// Where the slots are filled as the counts say, a kind has a free slot
/// exactly when fewer of its pieces were read than it has slots, and the free
/// slot is the one after those in use.
pub proof fn lemma_free_by_count(cells: Seq<char>, slots: Seq<PackedCoord>, red: bool, n: int, kind: PieceType)
    requires
        filled_to(cells, slots, red, n),
    ensures
        has_free(slots, kind) <==> placed(cells, letter_of_piece(kind, red), n) < kind_room(kind),
        has_free(slots, kind) ==> free_slot(slots, kind) == kind_base(kind) + placed(
            cells,
            letter_of_piece(kind, red),
            n,
        ),
{
    let lo = kind_base(kind);
    let room = kind_room(kind);
    let count = placed(cells, letter_of_piece(kind, red), n);
    lemma_placed_counts(cells, letter_of_piece(kind, red), n);
    lemma_kind_range(lo, kind);
    assert(kind_fits(cells, red, lo, n));
    if count < room {
        let k = lo + count;
        lemma_kind_range(k, kind);
        assert(first_free(slots, kind, k)) by {
            assert(slots[k].is_dead());
            assert forall|j: int| 0 <= j < k && slot_kind(j) == kind implies !(#[trigger] slots[j]).is_dead() by {
                lemma_kind_range(j, kind);
            }
        }
        assert forall|k2: int| first_free(slots, kind, k2) implies k2 == k by {
            lemma_kind_range(k2, kind);
            if k2 < k {
                assert(!slots[k2].is_dead());
            } else if k2 > k {
                assert(slots[k].is_dead());
            }
        }
    } else {
        assert forall|k2: int| !first_free(slots, kind, k2) by {
            if first_free(slots, kind, k2) {
                lemma_kind_range(k2, kind);
                assert(slots[k2].is_dead());
            }
        }
    }
}

/// Reading an empty square, or a square with another letter, leaves the
/// count of a letter as it is; reading the letter adds one.
pub proof fn lemma_placed_step(cells: Seq<char>, c: char, n: int)
    requires
        0 <= n < 90,
        cells.len() == 90,
    ensures
        placed(cells, c, n + 1) == placed(cells, c, n) + if cells[cell_read_as(n)] == c {
            1int
        } else {
            0int
        },
{
}

/// The slots stay filled as the counts say when a square is read on which
/// no piece of the side stands.
pub proof fn lemma_filled_without(cells: Seq<char>, slots: Seq<PackedCoord>, red: bool, n: int)
    requires
        0 <= n < 90,
        cells.len() == 90,
        filled_to(cells, slots, red, n),
        cells[cell_read_as(n)] == '\0' || (is_piece_letter(cells[cell_read_as(n)]) && is_upper(
            cells[cell_read_as(n)],
        ) != red),
    ensures
        filled_to(cells, slots, red, n + 1),
{
    assert forall|j: int| 0 <= j < 16 implies #[trigger] kind_fits(cells, red, j, n + 1) by {
        let l = letter_of_piece(slot_kind(j), red);
        lemma_letters(cells[cell_read_as(n)], slot_kind(j), red);
        lemma_placed_step(cells, l, n);
        assert(kind_fits(cells, red, j, n));
    }
    assert forall|j: int| 0 <= j < 16 implies ((#[trigger] slots[j]).is_dead() <==> j - kind_base(
        slot_kind(j),
    ) >= placed(cells, letter_of_piece(slot_kind(j), red), n + 1)) by {
        let l = letter_of_piece(slot_kind(j), red);
        lemma_letters(cells[cell_read_as(n)], slot_kind(j), red);
        lemma_placed_step(cells, l, n);
    }
}

/// The slots stay filled as the counts say when a piece of the side is read
/// and entered into the slot after those in use of its kind.
pub proof fn lemma_filled_with(
    cells: Seq<char>,
    slots: Seq<PackedCoord>,
    red: bool,
    n: int,
    p: PackedCoord,
)
    requires
        0 <= n < 90,
        cells.len() == 90,
        filled_to(cells, slots, red, n),
        is_piece_letter(cells[cell_read_as(n)]),
        is_upper(cells[cell_read_as(n)]) == red,
        !p.is_dead(),
        placed(cells, cells[cell_read_as(n)], n) < kind_room(
            kind_of_letter(cells[cell_read_as(n)])->0,
        ),
    ensures
        filled_to(
            cells,
            slots.update(
                kind_base(kind_of_letter(cells[cell_read_as(n)])->0) + placed(
                    cells,
                    cells[cell_read_as(n)],
                    n,
                ),
                p,
            ),
            red,
            n + 1,
        ),
{
    let c = cells[cell_read_as(n)];
    let kind = kind_of_letter(c)->0;
    let lo = kind_base(kind);
    let count = placed(cells, c, n);
    let k = lo + count;
    let after = slots.update(k, p);
    lemma_letters(c, kind, red);
    lemma_placed_counts(cells, c, n);
    lemma_kind_range(k, kind);
    assert forall|j: int| 0 <= j < 16 implies #[trigger] kind_fits(cells, red, j, n + 1) by {
        let l = letter_of_piece(slot_kind(j), red);
        lemma_letters(c, slot_kind(j), red);
        lemma_placed_step(cells, l, n);
        lemma_kind_range(j, kind);
        assert(kind_fits(cells, red, j, n));
    }
    assert forall|j: int| 0 <= j < 16 implies ((#[trigger] after[j]).is_dead() <==> j - kind_base(
        slot_kind(j),
    ) >= placed(cells, letter_of_piece(slot_kind(j), red), n + 1)) by {
        let l = letter_of_piece(slot_kind(j), red);
        lemma_letters(c, slot_kind(j), red);
        lemma_placed_step(cells, l, n);
        lemma_kind_range(j, kind);
        let probe = slots[j];
        assert(probe.is_dead() <==> j - kind_base(slot_kind(j)) >= placed(cells, l, n));
        if j != k {
            assert(after[j] == slots[j]);
        }
    }
}

/// The rosters take the pieces on the squares, both kings among them,
/// exactly when the pieces are those of a game.
pub proof fn lemma_fill_by_count(cells: Seq<char>, n: int, red: Seq<PackedCoord>, black: Seq<PackedCoord>)
    requires
        cells_valid(cells),
        0 <= n <= 90,
        filled_to(cells, red, true, n),
        filled_to(cells, black, false, n),
    ensures
        kings_entered(fill_rosters(cells, n, red, black)) <==> fits_rosters(cells),
    decreases 90 - n,
{
    if n >= 90 {
        let r13 = red[13];
        let b13 = black[13];
        assert(kind_fits(cells, true, 13, 90) && kind_fits(cells, false, 13, 90));
        lemma_placed_counts(cells, 'K', 90);
        lemma_placed_counts(cells, 'k', 90);
    } else {
        let (x, y) = reading_square(n);
        assert(9 * y + x == cell_read_as(n));
        assert(0 <= cell_read_as(n) < 90);
        let c = cells[cell_read_as(n)];
        assert(c == '\0' || is_piece_letter(c));
        if c == '\0' {
            lemma_filled_without(cells, red, true, n);
            lemma_filled_without(cells, black, false, n);
            lemma_fill_by_count(cells, n + 1, red, black);
        } else {
            let kind = kind_of_letter(c)->0;
            let mine = is_upper(c);
            let p = PackedCoord::pack(x, y);
            lemma_pack_unpack(x, y, p);
            lemma_letters(c, kind, mine);
            let slots = if mine { red } else { black };
            let other = if mine { black } else { red };
            lemma_free_by_count(cells, slots, mine, n, kind);
            lemma_filled_without(cells, other, !mine, n);
            let lo = kind_base(kind);
            lemma_kind_range(lo, kind);
            assert(kind_fits(cells, mine, lo, n));
            if has_free(slots, kind) {
                lemma_filled_with(cells, slots, mine, n, p);
                let after = slots.update(free_slot(slots, kind), p);
                if mine {
                    lemma_fill_by_count(cells, n + 1, after, black);
                } else {
                    lemma_fill_by_count(cells, n + 1, red, after);
                }
            } else {
                lemma_placed_step(cells, c, n);
                lemma_placed_grows(cells, c, n + 1, 90);
                assert(!kind_fits(cells, mine, lo, 90));
            }
        }
    }
}

/// The rosters take the pieces on the squares, both kings among them,
/// exactly when the pieces are those of a game.
pub proof fn lemma_rosters_take_a_game(cells: Seq<char>)
    requires
        cells_valid(cells),
    ensures
        kings_entered(fill_rosters(cells, 0, dead_slots(), dead_slots())) <==> fits_rosters(cells),
{
    assert forall|red: bool| filled_to(cells, dead_slots(), red, 0) by {
        assert forall|j: int| 0 <= j < 16 implies #[trigger] kind_fits(cells, red, j, 0) by {}
        assert forall|j: int| 0 <= j < 16 implies ((#[trigger] dead_slots()[j]).is_dead() <==> j
            - kind_base(slot_kind(j)) >= placed(cells, letter_of_piece(slot_kind(j), red), 0)) by {
            lemma_kind_range(j, slot_kind(j));
        }
    }
    lemma_fill_by_count(cells, 0, dead_slots(), dead_slots());
}

} // verus!
