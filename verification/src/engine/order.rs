//! The order in which the moves of a position are searched.
use core::cmp::Ordering;
use vstd::prelude::*;
use vstd::relations::{sorted_by, total_ordering};
use vstd::seq_lib::{to_multiset_build, to_multiset_contains, to_multiset_insert};
use crate::board::packedmove::PackedMove;
use crate::board::piece::is_piece_letter;
use crate::board::BoardState;
use crate::engine::Engine;

verus! {

/// How much a piece is worth as a capture: more is better.
pub open spec fn capture_rank(cara: char) -> int {
    if cara == 'k' || cara == 'K' {
        999
    } else if cara == 'r' || cara == 'R' {
        6
    } else if cara == 'c' || cara == 'C' {
        5
    } else if cara == 'h' || cara == 'H' {
        4
    } else if cara == 'e' || cara == 'E' {
        3
    } else if cara == 'a' || cara == 'A' {
        2
    } else if cara == 'p' || cara == 'P' {
        1
    } else {
        0
    }
}

/// How early a quiet move of a piece is tried: less is earlier.
pub open spec fn move_rank(cara: char) -> int {
    if cara == 'k' || cara == 'K' {
        7
    } else if cara == 'r' || cara == 'R' {
        4
    } else if cara == 'c' || cara == 'C' {
        1
    } else if cara == 'h' || cara == 'H' {
        2
    } else if cara == 'e' || cara == 'E' {
        5
    } else if cara == 'a' || cara == 'A' {
        6
    } else if cara == 'p' || cara == 'P' {
        3
    } else {
        0
    }
}

/// How early a quiet move of a piece is tried while the king is attacked: less is earlier.
pub open spec fn check_move_rank(cara: char) -> int {
    if cara == 'k' || cara == 'K' {
        1
    } else if cara == 'r' || cara == 'R' {
        3
    } else if cara == 'c' || cara == 'C' {
        5
    } else if cara == 'h' || cara == 'H' {
        4
    } else if cara == 'e' || cara == 'E' {
        6
    } else if cara == 'a' || cara == 'A' {
        2
    } else if cara == 'p' || cara == 'P' {
        7
    } else {
        0
    }
}

impl BoardState {
    /// Whether `m` can be ranked: both its squares are on the board, a piece
    /// stands on the one it leaves, and the one it reaches is empty or holds a piece.
    pub open spec fn rankable(&self, m: PackedMove) -> bool {
        &&& m.on_board()
        &&& is_piece_letter(self.tile_char(m.start().x() as int, m.start().y() as int))
        &&& (self.tile_char(m.end().x() as int, m.end().y() as int) == '\0' || is_piece_letter(
            self.tile_char(m.end().x() as int, m.end().y() as int),
        ))
    }

    /// The rank of `m` among the moves of this position, less being earlier.
    /// Captures come before quiet moves. Among captures the one that takes
    /// the piece of greater worth comes first, and among those that take pieces
    /// of the same worth the one whose own piece is worth less. Moves that are
    /// level so far are ranked by the piece that moves.
    pub open spec fn move_order(&self, in_check: bool, m: PackedMove) -> int {
        let mover = self.tile_char(m.start().x() as int, m.start().y() as int);
        let taken = self.tile_char(m.end().x() as int, m.end().y() as int);
        let tier = if taken != '\0' {
            (1000 - capture_rank(taken)) * 1000 + capture_rank(mover)
        } else {
            2000000
        };
        tier * 8 + if in_check {
            check_move_rank(mover)
        } else {
            move_rank(mover)
        }
    }

    /// The place of `m` in the search: the move `pinned` comes first, then the
    /// others by their rank, and moves of the same rank by their two bytes.
    pub open spec fn search_key(&self, in_check: bool, pinned: PackedMove, m: PackedMove) -> int {
        (if m == pinned {
            0int
        } else {
            0x100_0000_0000int
        }) + self.move_order(in_check, m) * 0x1_0000 + m.data
    }

    /// The order of the search as a relation: whether `a` is searched no later than `b`.
    pub open spec fn searched_first(&self, in_check: bool, pinned: PackedMove) -> spec_fn(
        PackedMove,
        PackedMove,
    ) -> bool {
        |a: PackedMove, b: PackedMove|
            self.search_key(in_check, pinned, a) <= self.search_key(in_check, pinned, b)
    }

    /// The order of the search is a total order: no two moves share a place.
    pub proof fn lemma_search_order_total(&self, in_check: bool, pinned: PackedMove)
        ensures
            total_ordering(self.searched_first(in_check, pinned)),
    {
        let r = self.searched_first(in_check, pinned);
        assert forall|x: PackedMove, y: PackedMove| #[trigger] r(x, y) && #[trigger] r(y, x) implies x
            == y by {
            let kx = self.search_key(in_check, pinned, x);
            let ky = self.search_key(in_check, pinned, y);
            assert(kx == ky);
            let ox = self.move_order(in_check, x);
            let oy = self.move_order(in_check, y);
            assert(0 <= ox < 0x100_0000 && 0 <= oy < 0x100_0000);
            assert(x.data == y.data);
        }
        assert forall|x: PackedMove, y: PackedMove, z: PackedMove| #[trigger]
            r(x, y) && #[trigger] r(y, z) implies r(x, z) by {}
        assert forall|x: PackedMove, y: PackedMove| #[trigger] r(x, y) || #[trigger] r(y, x) by {}
        assert forall|x: PackedMove| #[trigger] r(x, x) by {}
    }
}

impl Engine {
    /// How much the piece `cara` is worth as a capture: more is better.
    pub fn capture_priority(cara: char) -> (r: i32)
        requires
            is_piece_letter(cara),
        ensures
            r == capture_rank(cara),
            1 <= r <= 999,
    {
        match cara {
            'k' | 'K' => 999,
            'r' | 'R' => 6,
            'c' | 'C' => 5,
            'h' | 'H' => 4,
            'e' | 'E' => 3,
            'a' | 'A' => 2,
            _ => 1,
        }
    }

    /// How early a quiet move of the piece `cara` is tried: less is earlier.
    pub fn move_priority(cara: char) -> (r: i32)
        requires
            is_piece_letter(cara),
        ensures
            r == move_rank(cara),
            1 <= r <= 7,
    {
        match cara {
            'k' | 'K' => 7,
            'r' | 'R' => 4,
            'c' | 'C' => 1,
            'h' | 'H' => 2,
            'e' | 'E' => 5,
            'a' | 'A' => 6,
            _ => 3,
        }
    }

    /// How early a quiet move of the piece `cara` is tried while the king is
    /// attacked: less is earlier.
    pub fn check_move_priority(cara: char) -> (r: i32)
        requires
            is_piece_letter(cara),
        ensures
            r == check_move_rank(cara),
            1 <= r <= 7,
    {
        match cara {
            'k' | 'K' => 1,
            'r' | 'R' => 3,
            'c' | 'C' => 5,
            'h' | 'H' => 4,
            'e' | 'E' => 6,
            'a' | 'A' => 2,
            _ => 7,
        }
    }

    /// Which of the moves `a` and `b` is to be searched first: `Less` where it is `a`.
    pub fn sort_moves(state: &BoardState, inCheck: bool, a: &PackedMove, b: &PackedMove) -> (r:
        Ordering)
        requires
            state.rankable(*a),
            state.rankable(*b),
        ensures
            (r == Ordering::Less) == (state.move_order(inCheck, *a) < state.move_order(inCheck, *b)),
            (r == Ordering::Equal) == (state.move_order(inCheck, *a) == state.move_order(
                inCheck,
                *b,
            )),
            (r == Ordering::Greater) == (state.move_order(inCheck, *a) > state.move_order(
                inCheck,
                *b,
            )),
    {
        let alphaPiece = PackedMove::indexStart(&state.squares, a).pieceIndex.asChar();
        let betaPiece = PackedMove::indexStart(&state.squares, b).pieceIndex.asChar();
        let betaCapturedPiece = PackedMove::indexEnd(&state.squares, b).pieceIndex.asChar();
        let alphaCapturedPiece = PackedMove::indexEnd(&state.squares, a).pieceIndex.asChar();
        if alphaCapturedPiece != '\0' && betaCapturedPiece != '\0' {
            let alphaVictim = Self::capture_priority(alphaCapturedPiece);
            let betaVictim = Self::capture_priority(betaCapturedPiece);
            if alphaVictim > betaVictim {
                return Ordering::Less;
            }
            if alphaVictim < betaVictim {
                return Ordering::Greater;
            }
            let alphaAttacker = Self::capture_priority(alphaPiece);
            let betaAttacker = Self::capture_priority(betaPiece);
            if alphaAttacker < betaAttacker {
                return Ordering::Less;
            }
            if alphaAttacker > betaAttacker {
                return Ordering::Greater;
            }
        } else if alphaCapturedPiece != '\0' {
            return Ordering::Less;
        } else if betaCapturedPiece != '\0' {
            return Ordering::Greater;
        }
        let first = if inCheck {
            Self::check_move_priority(alphaPiece)
        } else {
            Self::move_priority(alphaPiece)
        };
        let second = if inCheck {
            Self::check_move_priority(betaPiece)
        } else {
            Self::move_priority(betaPiece)
        };
        if first < second {
            Ordering::Less
        } else if first == second {
            Ordering::Equal
        } else {
            Ordering::Greater
        }
    }

    /// Whether `a` is searched no later than `b`, where `pinned` is searched first of all.
    pub fn comes_before(
        state: &BoardState,
        inCheck: bool,
        pinned: &PackedMove,
        a: &PackedMove,
        b: &PackedMove,
    ) -> (r: bool)
        requires
            state.rankable(*a),
            state.rankable(*b),
        ensures
            r == state.searched_first(inCheck, *pinned)(*a, *b),
    {
        if a.data == pinned.data {
            return true;
        }
        if b.data == pinned.data {
            return false;
        }
        match Self::sort_moves(state, inCheck, a, b) {
            Ordering::Less => true,
            Ordering::Greater => false,
            Ordering::Equal => a.data <= b.data,
        }
    }

    /// Puts `moves` into the order of the search.
    pub fn order_moves(state: &BoardState, inCheck: bool, pinned: &PackedMove, moves: Vec<PackedMove>) -> (r:
        Vec<PackedMove>)
        requires
            forall|i: int| 0 <= i < moves@.len() ==> state.rankable(#[trigger] moves@[i]),
        ensures
            sorted_by(r@, state.searched_first(inCheck, *pinned)),
            r@.to_multiset() == moves@.to_multiset(),
            r@.len() == moves@.len(),
            forall|i: int| 0 <= i < r@.len() ==> moves@.contains(#[trigger] r@[i]),
    {
        let ghost leq = state.searched_first(inCheck, *pinned);
        let mut out: Vec<PackedMove> = Vec::with_capacity(moves.len());
        let mut i: usize = 0;
        proof {
            assert(moves@.take(0) =~= Seq::<PackedMove>::empty());
            assert(out@ =~= moves@.take(0));
        }
        while i < moves.len()
            invariant
                i <= moves@.len(),
                leq == state.searched_first(inCheck, *pinned),
                out@.len() == i,
                sorted_by(out@, leq),
                out@.to_multiset() == moves@.take(i as int).to_multiset(),
                forall|k: int| 0 <= k < moves@.len() ==> state.rankable(#[trigger] moves@[k]),
                forall|k: int| 0 <= k < out@.len() ==> state.rankable(#[trigger] out@[k]),
            decreases moves@.len() - i,
        {
            let m = moves[i];
            let mut j: usize = out.len();
            while j > 0 && !Self::comes_before(state, inCheck, pinned, &out[j - 1], &m)
                invariant
                    j <= out@.len(),
                    leq == state.searched_first(inCheck, *pinned),
                    state.rankable(m),
                    sorted_by(out@, leq),
                    forall|k: int| 0 <= k < out@.len() ==> state.rankable(#[trigger] out@[k]),
                    forall|k: int| j <= k < out@.len() ==> leq(m, #[trigger] out@[k]),
                decreases j,
            {
                j -= 1;
            }
            let ghost before = out@;
            out.insert(j, m);
            proof {
                to_multiset_insert(before, j as int, m);
                to_multiset_build(moves@.take(i as int), m);
                assert(moves@.take(i + 1) =~= moves@.take(i as int).push(m));
                assert forall|a: int, b: int| 0 <= a < b < out@.len() implies #[trigger] leq(
                    out@[a],
                    out@[b],
                ) by {
                    if b < j {
                        assert(out@[a] == before[a] && out@[b] == before[b]);
                    } else if b == j {
                        assert(out@[a] == before[a]);
                        assert(leq(before[j - 1], m));
                        if a < j - 1 {
                            assert(leq(before[a], before[j - 1]));
                        }
                    } else if a < j {
                        assert(out@[a] == before[a] && out@[b] == before[b - 1]);
                    } else if a == j {
                        assert(out@[b] == before[b - 1]);
                    } else {
                        assert(out@[a] == before[a - 1] && out@[b] == before[b - 1]);
                    }
                }
                assert forall|k: int| 0 <= k < out@.len() implies state.rankable(
                    #[trigger] out@[k],
                ) by {
                    if k < j {
                        assert(out@[k] == before[k]);
                    } else if k > j {
                        assert(out@[k] == before[k - 1]);
                    }
                }
            }
            i += 1;
        }
        proof {
            assert(moves@.take(i as int) =~= moves@);
            assert forall|k: int| 0 <= k < out@.len() implies moves@.contains(#[trigger] out@[k]) by {
                to_multiset_contains(out@, out@[k]);
                to_multiset_contains(moves@, out@[k]);
                assert(out@.contains(out@[k]));
            }
        }
        out
    }
}

} // verus!
