//! Playing a move.
use vstd::prelude::*;
use crate::board::on_board;
use crate::board::packedmove::{lemma_pack_unpack, PackedCoord, PackedMove, DEAD_PIECE_BYTE};
use crate::board::piece::{
    is_piece_letter, is_upper, kind_from_letter, kind_of_letter, lemma_letters, letter_of_piece,
    slot_kind, PieceSet, PieceType,
};
use crate::board::shape::{find_first, is_first_hit, slot_holds};
use crate::board::BoardState;

verus! {

/// Whether no slot of `set` but slot `k` holds `p`.
pub open spec fn only_in_slot(set: PieceSet, p: PackedCoord, k: int) -> bool {
    forall|i: int| 0 <= i < 16 && i != k ==> #[trigger] set.slot(i) != p
}

impl PieceSet {
    /// Writes `to` into the first slot of kind `kind` that holds `from`.
    pub fn relocate(&mut self, kind: PieceType, from: &PackedCoord, to: &PackedCoord)
        requires
            exists|k: int| #[trigger] old(self).is_first_slot(kind, *from, k),
        ensures
            exists|k: int|
                #[trigger] old(self).is_first_slot(kind, *from, k) && old(self).slot_written(
                    *final(self),
                    k,
                    *to,
                ),
    {
        let ghost w = choose|k: int| #[trigger] old(self).is_first_slot(kind, *from, k);
        match kind {
            PieceType::Rook => {
                assert(self.Rooks[w] == *from);
                BoardState::setSpecificPiece(&mut self.Rooks, to, from);
                proof {
                    let before = old(self).Rooks@;
                    let k = choose|k: int|
                        #[trigger] is_first_hit(before, *from, k) && self.Rooks@ == before.update(
                            k,
                            *to,
                        );
                    assert forall|j: int| 0 <= j < w implies before[j] != *from by {
                        assert(slot_kind(j + 0) == kind);
                    }
                    assert(k == w);
                }
            },
            PieceType::Cannon => {
                assert(self.Cannons[w - 2] == *from);
                BoardState::setSpecificPiece(&mut self.Cannons, to, from);
                proof {
                    let before = old(self).Cannons@;
                    let k = choose|k: int|
                        #[trigger] is_first_hit(before, *from, k) && self.Cannons@ == before.update(
                            k,
                            *to,
                        );
                    assert forall|j: int| 0 <= j < w - 2 implies before[j] != *from by {
                        assert(slot_kind(j + 2) == kind);
                    }
                    assert(k == w - 2);
                }
            },
            PieceType::Horse => {
                assert(self.Horses[w - 4] == *from);
                BoardState::setSpecificPiece(&mut self.Horses, to, from);
                proof {
                    let before = old(self).Horses@;
                    let k = choose|k: int|
                        #[trigger] is_first_hit(before, *from, k) && self.Horses@ == before.update(
                            k,
                            *to,
                        );
                    assert forall|j: int| 0 <= j < w - 4 implies before[j] != *from by {
                        assert(slot_kind(j + 4) == kind);
                    }
                    assert(k == w - 4);
                }
            },
            PieceType::Elephant => {
                assert(self.Elephants[w - 6] == *from);
                BoardState::setSpecificPiece(&mut self.Elephants, to, from);
                proof {
                    let before = old(self).Elephants@;
                    let k = choose|k: int|
                        #[trigger] is_first_hit(before, *from, k) && self.Elephants@ == before.update(
                            k,
                            *to,
                        );
                    assert forall|j: int| 0 <= j < w - 6 implies before[j] != *from by {
                        assert(slot_kind(j + 6) == kind);
                    }
                    assert(k == w - 6);
                }
            },
            PieceType::Pawn => {
                assert(self.Pawns[w - 8] == *from);
                BoardState::setSpecificPiece(&mut self.Pawns, to, from);
                proof {
                    let before = old(self).Pawns@;
                    let k = choose|k: int|
                        #[trigger] is_first_hit(before, *from, k) && self.Pawns@ == before.update(
                            k,
                            *to,
                        );
                    assert forall|j: int| 0 <= j < w - 8 implies before[j] != *from by {
                        assert(slot_kind(j + 8) == kind);
                    }
                    assert(k == w - 8);
                }
            },
            PieceType::King => {
                self.King = *to;
            },
            PieceType::Advisor => {
                assert(self.Advisors[w - 14] == *from);
                BoardState::setSpecificPiece(&mut self.Advisors, to, from);
                proof {
                    let before = old(self).Advisors@;
                    let k = choose|k: int|
                        #[trigger] is_first_hit(before, *from, k) && self.Advisors@ == before.update(
                            k,
                            *to,
                        );
                    assert forall|j: int| 0 <= j < w - 14 implies before[j] != *from by {
                        assert(slot_kind(j + 14) == kind);
                    }
                    assert(k == w - 14);
                }
            },
        }
        proof {
            assert(old(self).slot_written(*self, w, *to));
        }
    }
}

impl BoardState {
    /// Writes `coord` into the first place of `arr` that holds `targetCoord`.
    pub fn setSpecificPiece<const N: usize>(
        arr: &mut [PackedCoord; N],
        coord: &PackedCoord,
        targetCoord: &PackedCoord,
    )
        requires
            exists|k: int| 0 <= k < N && #[trigger] old(arr)[k] == *targetCoord,
        ensures
            exists|k: int|
                #[trigger] is_first_hit(old(arr)@, *targetCoord, k) && final(arr)@ == old(
                    arr,
                )@.update(k, *coord),
    {
        match find_first(arr, targetCoord) {
            Some(k) => {
                arr[k] = *coord;
                proof {
                    assert(is_first_hit(old(arr)@, *targetCoord, k as int));
                    assert(arr@ =~= old(arr)@.update(k as int, *coord));
                }
            },
            None => {},
        }
    }

    /// In a well-formed position the piece on an occupied square has exactly
    /// one slot, of its own kind, in the roster of its side.
    pub proof fn lemma_slot_of_square(&self, x: int, y: int) -> (k: int)
        requires
            self.wf(),
            self.occupied(x, y),
        ensures
            self.roster(is_upper(self.tile_char(x, y))).is_first_slot(
                kind_of_letter(self.tile_char(x, y))->0,
                PackedCoord::pack(x, y),
                k,
            ),
            only_in_slot(self.roster(is_upper(self.tile_char(x, y))), PackedCoord::pack(x, y), k),
            only_in_slot(self.roster(!is_upper(self.tile_char(x, y))), PackedCoord::pack(x, y), -1),
            PackedCoord::pack(x, y).x() == x,
            PackedCoord::pack(x, y).y() == y,
            !PackedCoord::pack(x, y).is_dead(),
            is_piece_letter(self.tile_char(x, y)),
    {
        let c = self.tile_char(x, y);
        let red = is_upper(c);
        let p = PackedCoord::pack(x, y);
        lemma_pack_unpack(x, y, p);
        assert(self.listed(x, y));
        let k = choose|i: int| 0 <= i < 16 && #[trigger] self.roster(red).slot(i) == p;
        lemma_letters(c, slot_kind(k), red);
        let theirs = self.roster(!red);
        assert(self.roster_on_grid(!red));
        assert(self.roster_on_grid(red));
        assert(self.roster_distinct(red));
        assert forall|i: int| 0 <= i < 16 implies #[trigger] theirs.slot(i) != p by {
            lemma_letters(c, slot_kind(i), !red);
        }
        k
    }

    /// A move keeps a well-formed position well formed.
    pub proof fn lemma_move_keeps_wf(&self, m: PackedMove, after: BoardState)
        requires
            self.wf(),
            self.can_move(m),
            self.pieces_moved(m, after),
        ensures
            after.wf(),
    {
        let s = m.start();
        let e = m.end();
        let sx = s.x() as int;
        let sy = s.y() as int;
        let ex = e.x() as int;
        let ey = e.y() as int;
        let turn = self.isRedTurn;
        lemma_pack_unpack(sx, sy, s);
        lemma_pack_unpack(ex, ey, e);
        let ks = self.lemma_slot_of_square(sx, sy);
        assert(after.letters_valid()) by {
            assert forall|x: int, y: int| on_board(x, y) implies #[trigger] after.tile_char(x, y)
                == '\0' || is_piece_letter(after.tile_char(x, y)) by {
                assert(self.tile_char(x, y) == '\0' || is_piece_letter(self.tile_char(x, y)));
            }
        }
        assert forall|red: bool| after.roster_on_grid(red) by {
            assert forall|i: int| 0 <= i < 16 implies (#[trigger] after.roster(red).slot(i)).is_dead()
                || (after.roster(red).slot(i).on_board() && after.tile_char(
                after.roster(red).slot(i).x() as int,
                after.roster(red).slot(i).y() as int,
            ) == letter_of_piece(slot_kind(i), red)) by {
                let c = self.roster(red).slot(i);
                assert(self.roster_on_grid(red));
                lemma_pack_unpack(c.x() as int, c.y() as int, c);
                lemma_letters('\0', slot_kind(i), red);
                if red == turn {
                    assert(after.roster(turn).slot(i) == if c == s { e } else { c });
                } else {
                    assert(after.roster(!turn).slot(i) == if c == e {
                        PackedCoord { data: 0xFF }
                    } else {
                        c
                    });
                }
            }
        }
        assert forall|red: bool| after.roster_distinct(red) by {
            assert forall|i: int, j: int|
                0 <= i < 16 && 0 <= j < 16 && i != j && #[trigger] after.roster(red).slot(i)
                    == #[trigger] after.roster(red).slot(j) implies after.roster(red).slot(
                i,
            ).is_dead() by {
                let ci = self.roster(red).slot(i);
                let cj = self.roster(red).slot(j);
                assert(self.roster_distinct(red));
                assert(self.roster_on_grid(red));
                lemma_letters('\0', slot_kind(i), red);
                lemma_letters('\0', slot_kind(j), red);
                if red == turn {
                    assert(after.roster(turn).slot(i) == if ci == s { e } else { ci });
                    assert(after.roster(turn).slot(j) == if cj == s { e } else { cj });
                } else {
                    assert(after.roster(!turn).slot(i) == if ci == e {
                        PackedCoord { data: 0xFF }
                    } else {
                        ci
                    });
                    assert(after.roster(!turn).slot(j) == if cj == e {
                        PackedCoord { data: 0xFF }
                    } else {
                        cj
                    });
                }
            }
        }
        assert(after.grid_on_roster()) by {
            assert forall|x: int, y: int| #[trigger] after.occupied(x, y) implies after.listed(
                x,
                y,
            ) by {
                let p = PackedCoord::pack(x, y);
                lemma_pack_unpack(x, y, p);
                assert(after.tile_char(x, y) != '\0');
                if x == ex && y == ey {
                    let red = is_upper(self.tile_char(sx, sy));
                    assert(red == turn);
                    assert(after.roster(turn).slot(ks) == e);
                    assert(slot_holds(after.roster(red), p));
                } else {
                    assert(self.occupied(x, y));
                    let k = self.lemma_slot_of_square(x, y);
                    let red = is_upper(self.tile_char(x, y));
                    if red == turn {
                        assert(after.roster(turn).slot(k) == p);
                    } else {
                        assert(after.roster(!turn).slot(k) == p);
                    }
                    assert(slot_holds(after.roster(red), p));
                }
            }
        }
        assert(after.roster_on_grid(true) && after.roster_on_grid(false));
        assert(after.roster_distinct(true) && after.roster_distinct(false));
    }

    /// Only one position can come of playing a move.
    pub proof fn lemma_move_is_unique(&self, m: PackedMove, a: BoardState, b: BoardState)
        requires
            m.start().on_board(),
            m.end().on_board(),
            self.moves_to(m, a),
            self.moves_to(m, b),
        ensures
            a == b,
            self.after(m) == a,
    {
        Self::lemma_same_parts(a, b);
        let c = self.after(m);
        Self::lemma_same_parts(a, c);
    }

    /// Two positions with the same squares, rosters, turn and ply are equal.
    pub proof fn lemma_same_parts(a: BoardState, b: BoardState)
        requires
            forall|x: int, y: int| on_board(x, y) ==> a.tile_char(x, y) == b.tile_char(x, y),
            forall|i: int| 0 <= i < 16 ==> a.redPieces.slot(i) == b.redPieces.slot(i),
            forall|i: int| 0 <= i < 16 ==> a.blackPieces.slot(i) == b.blackPieces.slot(i),
            a.isRedTurn == b.isRedTurn,
            a.plyNumber == b.plyNumber,
        ensures
            a == b,
    {
        assert forall|y: int| 0 <= y < 10 implies a.squares[y] == b.squares[y] by {
            assert forall|x: int| 0 <= x < 9 implies a.squares[y][x] == b.squares[y][x] by {
                assert(on_board(x, y));
                assert(a.tile_char(x, y) == b.tile_char(x, y));
            }
            assert(a.squares[y] =~= b.squares[y]);
        }
        assert(a.squares =~= b.squares);
        Self::lemma_same_roster(a.redPieces, b.redPieces);
        Self::lemma_same_roster(a.blackPieces, b.blackPieces);
    }

    /// Two rosters with the same slots are equal.
    pub proof fn lemma_same_roster(a: PieceSet, b: PieceSet)
        requires
            forall|i: int| 0 <= i < 16 ==> a.slot(i) == b.slot(i),
        ensures
            a == b,
    {
        assert(a.slot(0) == b.slot(0) && a.slot(1) == b.slot(1));
        assert(a.Rooks =~= b.Rooks);
        assert(a.slot(2) == b.slot(2) && a.slot(3) == b.slot(3));
        assert(a.Cannons =~= b.Cannons);
        assert(a.slot(4) == b.slot(4) && a.slot(5) == b.slot(5));
        assert(a.Horses =~= b.Horses);
        assert(a.slot(6) == b.slot(6) && a.slot(7) == b.slot(7));
        assert(a.Elephants =~= b.Elephants);
        assert(a.slot(14) == b.slot(14) && a.slot(15) == b.slot(15));
        assert(a.Advisors =~= b.Advisors);
        assert(a.slot(13) == b.slot(13));
        assert forall|i: int| 0 <= i < 5 implies a.Pawns[i] == b.Pawns[i] by {
            assert(a.slot(i + 8) == b.slot(i + 8));
        }
        assert(a.Pawns =~= b.Pawns);
    }

    /// Moves the piece on the square that `newMove` leaves to the square that it
    /// reaches, in the squares and in the rosters; a piece that stood there
    /// leaves the board.
    pub fn updatePieceLoc(&mut self, newMove: PackedMove)
        requires
            old(self).wf(),
            old(self).can_move(newMove),
        ensures
            old(self).pieces_moved(newMove, *final(self)),
            final(self).isRedTurn == old(self).isRedTurn,
            final(self).plyNumber == old(self).plyNumber,
            final(self).wf(),
    {
        let moveStart = newMove.start();
        let moveEnd = newMove.end();
        let dead = PackedCoord { data: DEAD_PIECE_BYTE };
        let caraOfUpdatedPiece: char = PackedMove::indexStart(
            &self.squares,
            &newMove,
        ).pieceIndex.asChar();
        let caraOfTakenPiece: char = PackedMove::indexEnd(&self.squares, &newMove).pieceIndex.asChar();
        let ghost sx = moveStart.x() as int;
        let ghost sy = moveStart.y() as int;
        let ghost ex = moveEnd.x() as int;
        let ghost ey = moveEnd.y() as int;
        proof {
            lemma_pack_unpack(sx, sy, moveStart);
            lemma_pack_unpack(ex, ey, moveEnd);
        }
        let ghost ks = old(self).lemma_slot_of_square(sx, sy);
        if caraOfTakenPiece != '\0' {
            let ghost ke = old(self).lemma_slot_of_square(ex, ey);
            match kind_from_letter(caraOfTakenPiece) {
                Some(kind) => {
                    if self.isRedTurn {
                        self.blackPieces.relocate(kind, &moveEnd, &dead);
                    } else {
                        self.redPieces.relocate(kind, &moveEnd, &dead);
                    }
                },
                None => {},
            }
        }
        let ghost mid = *self;
        proof {
            assert(old(self).roster(!old(self).isRedTurn).relocated(
                mid.roster(!old(self).isRedTurn),
                moveEnd,
                dead,
            ));
            assert(mid.roster(old(self).isRedTurn) == old(self).roster(old(self).isRedTurn));
        }
        let picked = PackedMove::indexStartMut(&mut self.squares, &newMove).take();
        PackedMove::indexEndMut(&mut self.squares, &newMove).pieceIndex = picked;
        match kind_from_letter(caraOfUpdatedPiece) {
            Some(kind) => {
                if self.isRedTurn {
                    self.redPieces.relocate(kind, &moveStart, &moveEnd);
                } else {
                    self.blackPieces.relocate(kind, &moveStart, &moveEnd);
                }
            },
            None => {},
        }
        proof {
            let turn = old(self).isRedTurn;
            assert(old(self).roster(turn).relocated(self.roster(turn), moveStart, moveEnd));
            assert(self.roster(!turn) == mid.roster(!turn));
            assert forall|x: int, y: int| on_board(x, y) implies #[trigger] self.tile_char(x, y)
                == if x == ex && y == ey {
                old(self).tile_char(sx, sy)
            } else if x == sx && y == sy {
                '\0'
            } else {
                old(self).tile_char(x, y)
            } by {}
            old(self).lemma_move_keeps_wf(newMove, *self);
        }
    }

    /// Whether `newMove` can be played: it moves a piece of the side to move to
    /// a square that none of its own pieces holds, in a well-formed position
    /// whose ply can still grow.
    pub open spec fn can_branch(&self, newMove: PackedMove) -> bool {
        &&& self.wf()
        &&& self.can_move(newMove)
        &&& self.plyNumber < i16::MAX
    }

    /// The position after `newMove` has been played; this position stays as it is.
    pub fn branch(&self, newMove: PackedMove) -> (r: Self)
        requires
            self.can_branch(newMove),
        ensures
            self.moves_to(newMove, r),
            r == self.after(newMove),
            r.wf(),
    {
        let mut ret: Self = *self;
        ret.updatePieceLoc(newMove);
        let ghost mid = ret;
        ret.isRedTurn = !ret.isRedTurn;
        ret.plyNumber += 1;
        proof {
            assert forall|x: int, y: int| on_board(x, y) implies #[trigger] ret.tile_char(x, y)
                == mid.tile_char(x, y) by {}
            assert(self.pieces_moved(newMove, ret));
            self.lemma_move_keeps_wf(newMove, ret);
            assert(self.moves_to(newMove, ret));
            self.lemma_move_is_unique(newMove, ret, ret);
        }
        ret
    }
}

} // verus!
