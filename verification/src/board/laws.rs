//! What holds of the moves that the generator makes.
use vstd::prelude::*;
use crate::board::on_board;
use crate::board::packedmove::{lemma_pack_unpack, PackedCoord, PackedMove};
use crate::board::piece::{
    is_upper, kind_of_letter, lemma_letters, slot_kind, Piece, PieceSet, PieceType,
};
use crate::board::rules::{candidates, horse_leg, is_choice, lemma_chosen_members, pack_square, ray};
use crate::board::branch::only_in_slot;
use crate::board::BoardState;

verus! {

impl PieceSet {
    /// Each of the pieces from slot `i` on that are on the board is the piece
    /// of a slot.
    pub proof fn lemma_live_member(&self, red: bool, i: int, p: Piece) -> (k: int)
        requires
            0 <= i,
            self.live_from(red, i).contains(p),
        ensures
            i <= k < 16,
            !self.slot(k).is_dead(),
            p == self.piece(red, k),
        decreases 16 - i,
    {
        if i >= 16 {
            assert(false);
            0
        } else if self.slot(i).is_dead() {
            self.lemma_live_member(red, i + 1, p)
        } else {
            let rest = self.live_from(red, i + 1);
            let j = choose|j: int| 0 <= j < self.live_from(red, i).len() && self.live_from(red, i)[j] == p;
            if j == 0 {
                i
            } else {
                assert(rest[j - 1] == p);
                self.lemma_live_member(red, i + 1, p)
            }
        }
    }
}

impl BoardState {
    /// Whether the piece in slot `k` of the side `red` makes the move `m` to
    /// the square `(tx, ty)` by the rule of its kind.
    pub open spec fn made_by(&self, red: bool, m: PackedMove, k: int, tx: int, ty: int) -> bool {
        &&& 0 <= k < 16
        &&& !self.roster(red).slot(k).is_dead()
        &&& m == PackedMove::join(self.roster(red).slot(k), PackedCoord::pack(tx, ty))
        &&& self.reaches(self.roster(red).piece(red, k), tx, ty)
    }

    /// Each of the moves of the pieces `pieces` is a move of one of them.
    pub proof fn lemma_move_of_one(&self, pieces: Seq<Piece>, m: PackedMove) -> (j: int)
        requires
            self.moves_of_all(pieces).contains(m),
        ensures
            0 <= j < pieces.len(),
            self.moves_of(pieces[j]).contains(m),
        decreases pieces.len(),
    {
        if pieces.len() == 0 {
            assert(false);
            0
        } else {
            let first = self.moves_of(pieces[0]);
            let rest = self.moves_of_all(pieces.drop_first());
            let all = self.moves_of_all(pieces);
            let i = choose|i: int| 0 <= i < all.len() && all[i] == m;
            if i < first.len() {
                assert(first[i] == m);
                0
            } else {
                assert(rest[i - first.len()] == m);
                let j = self.lemma_move_of_one(pieces.drop_first(), m);
                j + 1
            }
        }
    }

    /// Each move of the side `red` is made by one of its pieces that are on
    /// the board, by the rule of its kind.
    pub proof fn lemma_move_source(&self, red: bool, m: PackedMove) -> (w: (int, int, int))
        requires
            self.moves_of_side(red).contains(m),
        ensures
            self.made_by(red, m, w.0, w.1, w.2),
    {
        let pieces = self.roster(red).live(red);
        let j = self.lemma_move_of_one(pieces, m);
        let piece = pieces[j];
        assert(pieces.contains(piece));
        let k = self.roster(red).lemma_live_member(red, 0, piece);
        let targets = self.piece_moves(piece);
        let made = self.moves_of(piece);
        let i = choose|i: int| 0 <= i < made.len() && made[i] == m;
        assert(m == PackedMove::join(piece.loc, targets[i]));
        lemma_chosen_members(candidates(piece), self.reach(piece));
        assert(is_choice(candidates(piece), self.reach(piece), targets[i]));
        let c = choose|c: (int, int)|
            candidates(piece).contains(c) && self.reach(piece)(c) && targets[i] == #[trigger] pack_square(c);
        (k, c.0, c.1)
    }

    /// What holds of every move that the generator makes for the side to move
    /// in a well-formed position: it leaves a square with a piece of that side
    /// for a square of the board that holds no piece of that side; a horse
    /// passes an empty square on its first step; and a cannon that captures has
    /// exactly one piece between itself and the piece it takes.
    pub proof fn lemma_generated_move(&self, m: PackedMove)
        requires
            self.wf(),
            self.all_moves().contains(m),
        ensures
            self.can_move(m),
            kind_of_letter(self.tile_char(m.start().x() as int, m.start().y() as int)) == Some(
                PieceType::Horse,
            ) ==> !self.occupied(
                horse_leg(
                    m.start().x() as int,
                    m.start().y() as int,
                    m.end().x() as int,
                    m.end().y() as int,
                ).0,
                horse_leg(
                    m.start().x() as int,
                    m.start().y() as int,
                    m.end().x() as int,
                    m.end().y() as int,
                ).1,
            ),
            kind_of_letter(self.tile_char(m.start().x() as int, m.start().y() as int)) == Some(
                PieceType::Cannon,
            ) && self.captures(m) ==> self.one_screen(
                m.start().x() as int,
                m.start().y() as int,
                m.end().x() as int,
                m.end().y() as int,
            ),
    {
        let red = self.isRedTurn;
        let (k, tx, ty) = self.lemma_move_source(red, m);
        let from = self.roster(red).slot(k);
        let to = PackedCoord::pack(tx, ty);
        lemma_pack_unpack(tx, ty, to);
        crate::board::packedmove::lemma_move_parts(m, from, to);
        assert(self.roster_on_grid(red));
        lemma_letters('\0', slot_kind(k), red);
    }

    /// Whether the position can be searched: it is well formed, and the pieces
    /// of both sides stand where they can be moved and valued.
    pub open spec fn ready(&self) -> bool {
        &&& self.wf()
        &&& self.side_placed(true)
        &&& self.side_placed(false)
        &&& self.side_valued(true)
        &&& self.side_valued(false)
    }

    /// A move that the generator makes leads from a position that can be
    /// searched to one that can be searched.
    pub proof fn lemma_ready_after(&self, m: PackedMove, after: BoardState)
        requires
            self.ready(),
            self.all_moves().contains(m),
            self.pieces_moved(m, after),
        ensures
            after.ready(),
            self.can_move(m),
    {
        let red = self.isRedTurn;
        let other = !red;
        self.lemma_generated_move(m);
        self.lemma_move_keeps_wf(m, after);
        let (k, tx, ty) = self.lemma_move_source(red, m);
        let from = self.roster(red).slot(k);
        let to = PackedCoord::pack(tx, ty);
        lemma_pack_unpack(tx, ty, to);
        crate::board::packedmove::lemma_move_parts(m, from, to);
        assert(self.roster_distinct(red));
        let mine = self.roster(red);
        let theirs = self.roster(other);
        let mine2 = after.roster(red);
        let theirs2 = after.roster(other);
        assert(mine.relocated(mine2, from, to));
        assert(theirs.relocated(theirs2, to, PackedCoord { data: 0xFF }));
        assert(self.side_placed(red) && self.side_placed(other));
        assert(self.side_valued(red) && self.side_valued(other));
        assert(after.side_placed(red)) by {
            assert forall|i: int| 0 <= i < 16 && !(#[trigger] after.roster(red).slot(i)).is_dead() implies Self::well_placed(
                after.roster(red).piece(red, i),
            ) by {
                assert(mine2.slot(i) == if mine.slot(i) == from { to } else { mine.slot(i) });
                if i != k {
                    assert(mine.slot(i) != from);
                }
            }
        }
        assert(after.side_valued(red)) by {
            assert forall|i: int| 0 <= i < 16 && !(#[trigger] after.roster(red).slot(i)).is_dead() implies {
                &&& after.roster(red).slot(i).on_board()
                &&& i >= 14 ==> if red {
                    after.roster(red).slot(i).y() <= 2
                } else {
                    7 <= after.roster(red).slot(i).y()
                }
            } by {
                assert(mine2.slot(i) == if mine.slot(i) == from { to } else { mine.slot(i) });
                if i != k {
                    assert(mine.slot(i) != from);
                }
            }
        }
        assert(after.side_placed(other)) by {
            assert forall|i: int| 0 <= i < 16 && !(#[trigger] after.roster(other).slot(i)).is_dead() implies Self::well_placed(
                after.roster(other).piece(other, i),
            ) by {
                assert(theirs2.slot(i) == if theirs.slot(i) == to {
                    PackedCoord { data: 0xFF }
                } else {
                    theirs.slot(i)
                });
            }
        }
        assert(after.side_valued(other)) by {
            assert forall|i: int| 0 <= i < 16 && !(#[trigger] after.roster(other).slot(i)).is_dead() implies {
                &&& after.roster(other).slot(i).on_board()
                &&& i >= 14 ==> if other {
                    after.roster(other).slot(i).y() <= 2
                } else {
                    7 <= after.roster(other).slot(i).y()
                }
            } by {
                assert(theirs2.slot(i) == if theirs.slot(i) == to {
                    PackedCoord { data: 0xFF }
                } else {
                    theirs.slot(i)
                });
            }
        }
    }
}

impl PieceSet {
    /// How many of the slots from `i` on hold `p`.
    pub open spec fn holders_from(&self, p: PackedCoord, i: int) -> int
        decreases 16 - i,
    {
        if i >= 16 {
            0
        } else if self.slot(i) == p {
            1 + self.holders_from(p, i + 1)
        } else {
            self.holders_from(p, i + 1)
        }
    }

    /// How many slots hold `p`, where at most slot `k` does.
    pub proof fn lemma_holders(&self, p: PackedCoord, k: int, i: int)
        requires
            0 <= i <= 16,
            only_in_slot(*self, p, k),
        ensures
            self.holders_from(p, i) == if i <= k < 16 && self.slot(k) == p {
                1int
            } else {
                0int
            },
        decreases 16 - i,
    {
        if i < 16 {
            self.lemma_holders(p, k, i + 1);
            if i != k {
                assert(self.slot(i) != p);
            }
        }
    }

    /// Moving the piece of a slot to another square of the board leaves the
    /// number of pieces on the board as it is; taking it off the board makes it one less.
    pub proof fn lemma_relocated_count(&self, after: PieceSet, red: bool, from: PackedCoord, to: PackedCoord, i: int)
        requires
            0 <= i <= 16,
            self.relocated(after, from, to),
            !from.is_dead(),
        ensures
            after.live_from(red, i).len() == self.live_from(red, i).len() - if to.is_dead() {
                self.holders_from(from, i)
            } else {
                0
            },
        decreases 16 - i,
    {
        if i < 16 {
            self.lemma_relocated_count(after, red, from, to, i + 1);
            assert(after.slot(i) == if self.slot(i) == from { to } else { self.slot(i) });
        }
    }
}

impl BoardState {
    /// How many pieces are on the board.
    pub open spec fn piece_count(&self) -> int {
        (self.redPieces.live(true).len() + self.blackPieces.live(false).len()) as int
    }

    /// Playing a move passes the turn to the other side and adds one to the
    /// ply; the number of pieces on the board stays as it is, or becomes one
    /// less where the move captures.
    pub proof fn lemma_branch_keeps_count(&self, m: PackedMove, after: BoardState)
        requires
            self.wf(),
            self.can_move(m),
            self.moves_to(m, after),
        ensures
            after.isRedTurn == !self.isRedTurn,
            after.plyNumber == self.plyNumber + 1,
            after.piece_count() == self.piece_count() - if self.captures(m) {
                1int
            } else {
                0int
            },
            after.roster(self.isRedTurn).live(self.isRedTurn).len() == self.roster(
                self.isRedTurn,
            ).live(self.isRedTurn).len(),
    {
        let red = self.isRedTurn;
        let other = !red;
        let s = m.start();
        let e = m.end();
        let dead = PackedCoord { data: 0xFF };
        lemma_pack_unpack(s.x() as int, s.y() as int, s);
        lemma_pack_unpack(e.x() as int, e.y() as int, e);
        let mine = self.roster(red);
        let theirs = self.roster(other);
        mine.lemma_relocated_count(after.roster(red), red, s, e, 0);
        theirs.lemma_relocated_count(after.roster(other), other, e, dead, 0);
        if self.captures(m) {
            let k = self.lemma_slot_of_square(e.x() as int, e.y() as int);
            assert(is_upper(self.tile_char(e.x() as int, e.y() as int)) == other);
            theirs.lemma_holders(e, k, 0);
        } else {
            assert(self.roster_on_grid(other));
            assert forall|i: int| 0 <= i < 16 implies #[trigger] theirs.slot(i) != e by {
                lemma_letters('\0', slot_kind(i), other);
            }
            theirs.lemma_holders(e, -1, 0);
        }
    }
}

impl PieceSet {
    /// Each piece of a slot that is on the board is among the pieces on the board.
    pub proof fn lemma_live_listed(&self, red: bool, i: int, k: int)
        requires
            0 <= i <= k < 16,
            !self.slot(k).is_dead(),
        ensures
            self.live_from(red, i).contains(self.piece(red, k)),
        decreases k - i,
    {
        let all = self.live_from(red, i);
        if i == k {
            assert(all[0] == self.piece(red, k));
        } else {
            self.lemma_live_listed(red, i + 1, k);
            let rest = self.live_from(red, i + 1);
            let j = choose|j: int| 0 <= j < rest.len() && rest[j] == self.piece(red, k);
            if self.slot(i).is_dead() {
                assert(all[j] == self.piece(red, k));
            } else {
                assert(all[j + 1] == self.piece(red, k));
            }
        }
    }
}

impl BoardState {
    /// Every square that the rule of a piece allows is among the squares that
    /// the piece is tried on.
    pub proof fn lemma_candidates_cover(&self, piece: Piece, tx: int, ty: int)
        requires
            piece.loc.on_board(),
            self.reaches(piece, tx, ty),
        ensures
            candidates(piece).contains((tx, ty)),
    {
        let x = piece.loc.x() as int;
        let y = piece.loc.y() as int;
        let cands = candidates(piece);
        match piece.pieceType {
            PieceType::Pawn => {
                assert(cands[0] == (tx, ty) || cands[1] == (tx, ty) || cands[2] == (tx, ty));
            },
            PieceType::Advisor => {
                assert(cands[0] == (tx, ty) || cands[1] == (tx, ty) || cands[2] == (tx, ty)
                    || cands[3] == (tx, ty));
            },
            PieceType::Elephant => {
                assert(cands[0] == (tx, ty) || cands[1] == (tx, ty) || cands[2] == (tx, ty)
                    || cands[3] == (tx, ty));
            },
            PieceType::King => {
                assert(cands[0] == (tx, ty) || cands[1] == (tx, ty) || cands[2] == (tx, ty)
                    || cands[3] == (tx, ty));
            },
            PieceType::Horse => {
                assert(cands[0] == (tx, ty) || cands[1] == (tx, ty) || cands[2] == (tx, ty)
                    || cands[3] == (tx, ty) || cands[4] == (tx, ty) || cands[5] == (tx, ty)
                    || cands[6] == (tx, ty) || cands[7] == (tx, ty));
            },
            PieceType::Cannon | PieceType::Rook => {
                let up = ray(x, y, 0);
                let left = ray(x, y, 1);
                let right = ray(x, y, 2);
                let down = ray(x, y, 3);
                assert(cands == up + left + right + down);
                if tx == x && ty > y {
                    assert(cands[ty - y - 1] == (tx, ty));
                } else if ty == y && tx < x {
                    assert(cands[up.len() + (x - tx - 1)] == (tx, ty));
                } else if ty == y && tx > x {
                    assert(cands[up.len() + left.len() + (tx - x - 1)] == (tx, ty));
                } else {
                    assert(cands[up.len() + left.len() + right.len() + (y - ty - 1)] == (tx, ty));
                }
            },
        }
    }

    /// The squares that the generator gives for a piece on the board are the
    /// squares that the rule of its kind allows, and no others.
    pub proof fn lemma_piece_moves_exact(&self, piece: Piece, tx: int, ty: int)
        requires
            piece.loc.on_board(),
            0 <= tx < 16,
            0 <= ty < 16,
        ensures
            self.piece_moves(piece).contains(PackedCoord::pack(tx, ty)) <==> self.reaches(
                piece,
                tx,
                ty,
            ),
    {
        let cands = candidates(piece);
        let ok = self.reach(piece);
        let target = PackedCoord::pack(tx, ty);
        lemma_chosen_members(cands, ok);
        lemma_pack_unpack(tx, ty, target);
        if self.reaches(piece, tx, ty) {
            self.lemma_candidates_cover(piece, tx, ty);
            assert(ok((tx, ty)));
            assert(pack_square((tx, ty)) == target);
        }
        if self.piece_moves(piece).contains(target) {
            let moves = self.piece_moves(piece);
            let i = choose|i: int| 0 <= i < moves.len() && moves[i] == target;
            assert(is_choice(cands, ok, moves[i]));
            let c = choose|c: (int, int)| cands.contains(c) && ok(c) && target == #[trigger] pack_square(c);
            assert(self.reaches(piece, c.0, c.1));
            lemma_pack_unpack(c.0, c.1, target);
        }
    }

    /// Each move of one of the pieces `pieces` is among the moves of them all.
    pub proof fn lemma_move_listed(&self, pieces: Seq<Piece>, j: int, m: PackedMove)
        requires
            0 <= j < pieces.len(),
            self.moves_of(pieces[j]).contains(m),
        ensures
            self.moves_of_all(pieces).contains(m),
        decreases pieces.len(),
    {
        let first = self.moves_of(pieces[0]);
        let rest = self.moves_of_all(pieces.drop_first());
        let all = self.moves_of_all(pieces);
        if j == 0 {
            let i = choose|i: int| 0 <= i < first.len() && first[i] == m;
            assert(all[i] == m);
        } else {
            assert(pieces.drop_first()[j - 1] == pieces[j]);
            self.lemma_move_listed(pieces.drop_first(), j - 1, m);
            let i = choose|i: int| 0 <= i < rest.len() && rest[i] == m;
            assert(all[first.len() + i] == m);
        }
    }

    /// The moves that the generator gives for a side whose pieces stand on
    /// the board are the moves that its pieces can make by the rules of their
    /// kinds, and no others.
    pub proof fn lemma_moves_exact(&self, red: bool, m: PackedMove)
        requires
            forall|i: int|
                0 <= i < 16 ==> (#[trigger] self.roster(red).slot(i)).is_dead() || self.roster(
                    red,
                ).slot(i).on_board(),
        ensures
            self.moves_of_side(red).contains(m) <==> exists|k: int, tx: int, ty: int| #[trigger]
                self.made_by(red, m, k, tx, ty),
    {
        if self.moves_of_side(red).contains(m) {
            let w = self.lemma_move_source(red, m);
            assert(self.made_by(red, m, w.0, w.1, w.2));
        }
        if exists|k: int, tx: int, ty: int| #[trigger] self.made_by(red, m, k, tx, ty) {
            let (k, tx, ty) = choose|k: int, tx: int, ty: int| #[trigger]
                self.made_by(red, m, k, tx, ty);
            let set = self.roster(red);
            let piece = set.piece(red, k);
            let pieces = set.live(red);
            assert(set.slot(k).on_board());
            set.lemma_live_listed(red, 0, k);
            let j = choose|j: int| 0 <= j < pieces.len() && pieces[j] == piece;
            self.lemma_piece_moves_exact(piece, tx, ty);
            let targets = self.piece_moves(piece);
            let i = choose|i: int| 0 <= i < targets.len() && targets[i] == PackedCoord::pack(tx, ty);
            assert(self.moves_of(piece)[i] == m);
            self.lemma_move_listed(pieces, j, m);
        }
    }
}

} // verus!
