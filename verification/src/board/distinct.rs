//! The generator gives no move twice.
use vstd::prelude::*;
use vstd::seq_lib::lemma_no_dup_in_concat;
use crate::board::on_board;
use crate::board::packedmove::{lemma_move_parts, lemma_pack_unpack, PackedCoord};
use crate::board::piece::{Piece, PieceSet, PieceType};
use crate::board::rules::{
    candidates, chosen, is_choice, lemma_chosen_members, lemma_chosen_push, pack_square, ray,
};
use crate::board::BoardState;

verus! {

/// A piece on the board is tried on no square twice.
pub proof fn lemma_candidates_distinct(piece: Piece)
    requires
        piece.loc.on_board(),
    ensures
        candidates(piece).no_duplicates(),
{
    let x = piece.loc.x() as int;
    let y = piece.loc.y() as int;
    let cands = candidates(piece);
    match piece.pieceType {
        PieceType::Cannon | PieceType::Rook => {
            let up = ray(x, y, 0);
            let left = ray(x, y, 1);
            let right = ray(x, y, 2);
            let down = ray(x, y, 3);
            assert(cands == up + left + right + down);
            assert(up.no_duplicates() && left.no_duplicates() && right.no_duplicates()
                && down.no_duplicates());
            lemma_no_dup_in_concat(up, left);
            lemma_no_dup_in_concat(up + left, right);
            lemma_no_dup_in_concat(up + left + right, down);
        },
        _ => {},
    }
}

/// Of squares that are tried once each, and accepted only on the board, none
/// is chosen twice.
pub proof fn lemma_chosen_distinct(cands: Seq<(int, int)>, ok: spec_fn((int, int)) -> bool, n: int)
    requires
        cands.no_duplicates(),
        forall|c: (int, int)| #[trigger] ok(c) ==> on_board(c.0, c.1),
        0 <= n <= cands.len(),
    ensures
        chosen(cands.take(n), ok).no_duplicates(),
    decreases n,
{
    if n == 0 {
        lemma_chosen_push(cands.take(0), ok, (0, 0));
        assert(cands.take(0) =~= Seq::<(int, int)>::empty());
    } else {
        lemma_chosen_distinct(cands, ok, n - 1);
        let before = cands.take(n - 1);
        let c = cands[n - 1];
        assert(cands.take(n) =~= before.push(c));
        lemma_chosen_push(before, ok, c);
        if ok(c) {
            let old_chosen = chosen(before, ok);
            let p = pack_square(c);
            lemma_chosen_members(before, ok);
            assert forall|i: int| 0 <= i < old_chosen.len() implies old_chosen[i] != p by {
                if old_chosen[i] == p {
                    assert(is_choice(before, ok, old_chosen[i]));
                    let c2 = choose|c2: (int, int)|
                        before.contains(c2) && ok(c2) && old_chosen[i] == #[trigger] pack_square(c2);
                    lemma_pack_unpack(c.0, c.1, p);
                    lemma_pack_unpack(c2.0, c2.1, p);
                    assert(c2 == c);
                    let j = choose|j: int| 0 <= j < before.len() && before[j] == c2;
                    assert(cands[j] == cands[n - 1]);
                }
            }
            assert(old_chosen.push(p).no_duplicates());
        }
    }
}

/// Whether one of `pieces` stands on `loc`.
pub open spec fn stands_among(pieces: Seq<Piece>, loc: PackedCoord) -> bool {
    exists|i: int| 0 <= i < pieces.len() && (#[trigger] pieces[i]).loc == loc
}

impl BoardState {
    /// No square is among the squares that a piece on the board can move to twice.
    pub proof fn lemma_piece_moves_distinct(&self, piece: Piece)
        requires
            piece.loc.on_board(),
        ensures
            self.piece_moves(piece).no_duplicates(),
            self.moves_of(piece).no_duplicates(),
            forall|i: int|
                0 <= i < self.moves_of(piece).len() ==> (#[trigger] self.moves_of(piece)[i]).start()
                    == piece.loc,
    {
        let cands = candidates(piece);
        lemma_candidates_distinct(piece);
        lemma_chosen_distinct(cands, self.reach(piece), cands.len() as int);
        assert(cands.take(cands.len() as int) =~= cands);
        let targets = self.piece_moves(piece);
        let made = self.moves_of(piece);
        assert forall|i: int| 0 <= i < made.len() implies (#[trigger] made[i]).start() == piece.loc
            && made[i].end() == targets[i] by {
            lemma_move_parts(made[i], piece.loc, targets[i]);
        }
        assert forall|i: int, j: int| 0 <= i < made.len() && 0 <= j < made.len() && i != j implies made[i]
            != made[j] by {
            assert(made[i].end() == targets[i] && made[j].end() == targets[j]);
        }
    }

    /// Pieces that stand on different squares of the board share no move.
    pub proof fn lemma_moves_of_all_distinct(&self, pieces: Seq<Piece>)
        requires
            forall|i: int| 0 <= i < pieces.len() ==> (#[trigger] pieces[i]).loc.on_board(),
            forall|i: int, j: int|
                0 <= i < pieces.len() && 0 <= j < pieces.len() && i != j ==> (#[trigger] pieces[i]).loc
                    != (#[trigger] pieces[j]).loc,
        ensures
            self.moves_of_all(pieces).no_duplicates(),
            forall|k: int|
                0 <= k < self.moves_of_all(pieces).len() ==> stands_among(
                    pieces,
                    (#[trigger] self.moves_of_all(pieces)[k]).start(),
                ),
        decreases pieces.len(),
    {
        if pieces.len() > 0 {
            let first = self.moves_of(pieces[0]);
            let others = pieces.drop_first();
            let rest = self.moves_of_all(others);
            let all = self.moves_of_all(pieces);
            self.lemma_piece_moves_distinct(pieces[0]);
            assert forall|i: int| 0 <= i < others.len() implies (#[trigger] others[i]).loc.on_board() by {
                assert(others[i] == pieces[i + 1]);
            }
            assert forall|i: int, j: int|
                0 <= i < others.len() && 0 <= j < others.len() && i != j implies (#[trigger] others[i]).loc
                != (#[trigger] others[j]).loc by {
                assert(others[i] == pieces[i + 1] && others[j] == pieces[j + 1]);
            }
            self.lemma_moves_of_all_distinct(others);
            assert forall|i: int, j: int| 0 <= i < first.len() && 0 <= j < rest.len() implies first[i]
                != rest[j] by {
                assert(stands_among(others, rest[j].start()));
                let k = choose|k: int|
                    0 <= k < others.len() && (#[trigger] others[k]).loc == rest[j].start();
                assert(others[k] == pieces[k + 1]);
                assert(first[i].start() == pieces[0].loc);
            }
            lemma_no_dup_in_concat(first, rest);
            assert forall|k: int| 0 <= k < all.len() implies stands_among(
                pieces,
                (#[trigger] all[k]).start(),
            ) by {
                if k < first.len() {
                    assert(all[k] == first[k]);
                    assert(pieces[0].loc == all[k].start());
                } else {
                    assert(all[k] == rest[k - first.len()]);
                    assert(stands_among(others, rest[k - first.len()].start()));
                    let i = choose|i: int|
                        0 <= i < others.len() && (#[trigger] others[i]).loc == rest[k
                            - first.len()].start();
                    assert(others[i] == pieces[i + 1]);
                    assert(pieces[i + 1].loc == all[k].start());
                }
            }
        }
    }
}

impl PieceSet {
    /// The pieces on the board from slot `i` on are those of the slots in
    /// use, in slot order.
    pub proof fn lemma_live_slots(&self, red: bool, i: int) -> (slots: Seq<int>)
        requires
            0 <= i <= 16,
        ensures
            slots.len() == self.live_from(red, i).len(),
            forall|j: int|
                0 <= j < slots.len() ==> i <= #[trigger] slots[j] < 16 && !self.slot(
                    slots[j],
                ).is_dead() && self.live_from(red, i)[j] == self.piece(red, slots[j]),
            forall|j: int, k: int| 0 <= j < k < slots.len() ==> slots[j] < slots[k],
        decreases 16 - i,
    {
        if i >= 16 {
            Seq::empty()
        } else {
            let rest = self.lemma_live_slots(red, i + 1);
            if self.slot(i).is_dead() {
                rest
            } else {
                let slots = seq![i] + rest;
                assert forall|j: int| 0 <= j < slots.len() implies i <= #[trigger] slots[j] < 16
                    && !self.slot(slots[j]).is_dead() && self.live_from(red, i)[j] == self.piece(
                    red,
                    slots[j],
                ) by {
                    if j > 0 {
                        assert(slots[j] == rest[j - 1]);
                    }
                }
                assert forall|j: int, k: int| 0 <= j < k < slots.len() implies slots[j] < slots[k] by {
                    assert(slots[k] == rest[k - 1]);
                    if j > 0 {
                        assert(slots[j] == rest[j - 1]);
                    }
                }
                slots
            }
        }
    }
}

impl BoardState {
    /// In a well-formed position the generator gives no move twice: the number
    /// of moves it gives is the number of different moves that the rules allow.
    pub proof fn lemma_moves_distinct(&self, red: bool)
        requires
            self.wf(),
        ensures
            self.moves_of_side(red).no_duplicates(),
    {
        let set = self.roster(red);
        let pieces = set.live(red);
        let slots = set.lemma_live_slots(red, 0);
        assert(self.roster_on_grid(red));
        assert(self.roster_distinct(red));
        assert forall|i: int| 0 <= i < pieces.len() implies (#[trigger] pieces[i]).loc.on_board() by {
            assert(pieces[i] == set.piece(red, slots[i]));
        }
        assert forall|i: int, j: int|
            0 <= i < pieces.len() && 0 <= j < pieces.len() && i != j implies (#[trigger] pieces[i]).loc
            != (#[trigger] pieces[j]).loc by {
            assert(pieces[i] == set.piece(red, slots[i]));
            assert(pieces[j] == set.piece(red, slots[j]));
            if i < j {
                assert(slots[i] < slots[j]);
            } else {
                assert(slots[j] < slots[i]);
            }
        }
        self.lemma_moves_of_all_distinct(pieces);
    }
}

} // verus!
