//! How each kind of piece moves, stated over squares.
use vstd::prelude::*;
use crate::board::{on_board, BLACK_RIVER, RED_RIVER};
use crate::board::packedmove::{PackedCoord, PackedMove};
use crate::board::piece::{Piece, PieceType};
use crate::board::BoardState;

verus! {

/// Whether `(x, y)` lies in one of the two palaces.
pub open spec fn is_palace(x: int, y: int) -> bool {
    3 <= x <= 5 && ((0 <= y <= 2) || (7 <= y <= 9))
}

/// Whether `(x, y)` lies in the palace of the side `red`.
pub open spec fn in_own_palace(x: int, y: int, red: bool) -> bool {
    3 <= x <= 5 && if red {
        0 <= y <= 2
    } else {
        7 <= y <= 9
    }
}

/// Whether `(x, y)` is one of the fourteen squares on which an elephant can stand.
pub open spec fn is_elephant_square(x: int, y: int) -> bool {
    ||| ((x == 2 || x == 6) && (y == 0 || y == 4 || y == 5 || y == 9))
    ||| ((x == 0 || x == 4 || x == 8) && (y == 2 || y == 7))
}

/// Whether the ranks `y1` and `y2` lie on the same side of the river.
pub open spec fn same_bank(y1: int, y2: int) -> bool {
    (y1 <= RED_RIVER) == (y2 <= RED_RIVER)
}

/// Whether `(i, j)` lies strictly between `(x, y)` and `(tx, ty)` on a file or a rank.
pub open spec fn between(x: int, y: int, tx: int, ty: int, i: int, j: int) -> bool {
    ||| (i == x && x == tx && ((y < j && j < ty) || (ty < j && j < y)))
    ||| (j == y && y == ty && ((x < i && i < tx) || (tx < i && i < x)))
}

/// Whether `(tx, ty)` is another square on the file or the rank of `(x, y)`.
pub open spec fn in_line(x: int, y: int, tx: int, ty: int) -> bool {
    (tx == x && ty != y) || (ty == y && tx != x)
}

/// Whether a pawn of the side `red` on `(x, y)` steps to `(tx, ty)`: one
/// square forward, or one square sideways once it stands beyond the river.
pub open spec fn pawn_step(red: bool, x: int, y: int, tx: int, ty: int) -> bool {
    if red {
        (tx == x && ty == y + 1) || (ty == y && y >= BLACK_RIVER && (tx == x - 1 || tx == x + 1))
    } else {
        (tx == x && ty == y - 1) || (ty == y && y <= RED_RIVER && (tx == x - 1 || tx == x + 1))
    }
}

/// Whether `(tx, ty)` is one diagonal step of `d` squares away from `(x, y)`.
pub open spec fn diagonal_step(d: int, x: int, y: int, tx: int, ty: int) -> bool {
    (tx == x - d || tx == x + d) && (ty == y - d || ty == y + d)
}

/// Whether `(tx, ty)` is a horse's jump away from `(x, y)`.
pub open spec fn horse_jump(x: int, y: int, tx: int, ty: int) -> bool {
    ||| ((tx == x - 1 || tx == x + 1) && (ty == y - 2 || ty == y + 2))
    ||| ((tx == x - 2 || tx == x + 2) && (ty == y - 1 || ty == y + 1))
}

/// The square next to `(x, y)` that a horse passes on its way to `(tx, ty)`.
pub open spec fn horse_leg(x: int, y: int, tx: int, ty: int) -> (int, int) {
    if ty == y + 2 {
        (x, y + 1)
    } else if ty == y - 2 {
        (x, y - 1)
    } else if tx == x + 2 {
        (x + 1, y)
    } else {
        (x - 1, y)
    }
}

/// Whether `(tx, ty)` is one step along a file or a rank away from `(x, y)`.
pub open spec fn straight_step(x: int, y: int, tx: int, ty: int) -> bool {
    (tx == x && (ty == y - 1 || ty == y + 1)) || (ty == y && (tx == x - 1 || tx == x + 1))
}

/// How many squares the ray from `(x, y)` in the direction `dir` holds. The
/// directions are 0 towards rank 9, 1 towards file 0, 2 towards file 8, and 3
/// towards rank 0.
pub open spec fn ray_len(x: int, y: int, dir: int) -> int {
    if dir == 0 {
        9 - y
    } else if dir == 1 {
        x
    } else if dir == 2 {
        8 - x
    } else {
        y
    }
}

/// The square `k` steps from `(x, y)` in the direction `dir`.
pub open spec fn ray_step(x: int, y: int, dir: int, k: int) -> (int, int) {
    if dir == 0 {
        (x, y + k)
    } else if dir == 1 {
        (x - k, y)
    } else if dir == 2 {
        (x + k, y)
    } else {
        (x, y - k)
    }
}

/// The squares of the ray from `(x, y)` in the direction `dir`, nearest first.
pub open spec fn ray(x: int, y: int, dir: int) -> Seq<(int, int)> {
    Seq::new(
        if ray_len(x, y, dir) >= 0 {
            ray_len(x, y, dir) as nat
        } else {
            0
        },
        |k: int| ray_step(x, y, dir, k + 1),
    )
}

/// The squares of the rays from `(x, y)` in the directions before `dir`.
pub open spec fn rays_before(x: int, y: int, dir: int) -> Seq<(int, int)>
    decreases dir,
{
    if dir <= 0 {
        Seq::empty()
    } else {
        rays_before(x, y, dir - 1) + ray(x, y, dir - 1)
    }
}

/// The squares that a piece is tried on, in the order in which they are tried.
pub open spec fn candidates(piece: Piece) -> Seq<(int, int)> {
    let x = piece.loc.x() as int;
    let y = piece.loc.y() as int;
    match piece.pieceType {
        PieceType::Pawn => if piece.isRed {
            seq![(x, y + 1), (x - 1, y), (x + 1, y)]
        } else {
            seq![(x, y - 1), (x - 1, y), (x + 1, y)]
        },
        PieceType::Advisor => seq![(x - 1, y + 1), (x + 1, y + 1), (x - 1, y - 1), (x + 1, y - 1)],
        PieceType::Elephant => seq![(x - 2, y + 2), (x + 2, y + 2), (x - 2, y - 2), (x + 2, y - 2)],
        PieceType::Horse => seq![
            (x - 1, y + 2),
            (x + 1, y + 2),
            (x - 2, y + 1),
            (x - 2, y - 1),
            (x - 1, y - 2),
            (x + 1, y - 2),
            (x + 2, y + 1),
            (x + 2, y - 1),
        ],
        PieceType::King => seq![(x, y + 1), (x, y - 1), (x - 1, y), (x + 1, y)],
        PieceType::Cannon | PieceType::Rook => ray(x, y, 0) + ray(x, y, 1) + ray(x, y, 2) + ray(
            x,
            y,
            3,
        ),
    }
}

/// The packed form of a square.
pub open spec fn pack_square(c: (int, int)) -> PackedCoord {
    PackedCoord::pack(c.0, c.1)
}

/// The squares of `cands` that `ok` accepts, packed, in the order of `cands`.
pub open spec fn chosen(cands: Seq<(int, int)>, ok: spec_fn((int, int)) -> bool) -> Seq<
    PackedCoord,
> {
    cands.filter(ok).map_values(|c: (int, int)| pack_square(c))
}

/// Trying one more square adds it to the chosen ones exactly when it is accepted.
pub proof fn lemma_chosen_push(cands: Seq<(int, int)>, ok: spec_fn((int, int)) -> bool, c: (int, int))
    ensures
        chosen(cands.push(c), ok) == if ok(c) {
            chosen(cands, ok).push(pack_square(c))
        } else {
            chosen(cands, ok)
        },
        chosen(Seq::empty(), ok) == Seq::<PackedCoord>::empty(),
{
    cands.lemma_filter_push(c, ok);
    if ok(c) {
        assert(chosen(cands.push(c), ok) =~= chosen(cands, ok).push(pack_square(c)));
    }
    assert(chosen(Seq::empty(), ok) =~= Seq::<PackedCoord>::empty());
}

/// Whether `p` is the packed form of a square of `cands` that `ok` accepts.
pub open spec fn is_choice(cands: Seq<(int, int)>, ok: spec_fn((int, int)) -> bool, p: PackedCoord) -> bool {
    exists|c: (int, int)| cands.contains(c) && ok(c) && p == #[trigger] pack_square(c)
}

/// Every chosen square is the packed form of a candidate that was accepted, and
/// every accepted candidate is chosen.
pub proof fn lemma_chosen_members(cands: Seq<(int, int)>, ok: spec_fn((int, int)) -> bool)
    ensures
        forall|i: int|
            0 <= i < chosen(cands, ok).len() ==> is_choice(cands, ok, #[trigger] chosen(cands, ok)[i]),
        forall|c: (int, int)|
            cands.contains(c) && ok(c) ==> chosen(cands, ok).contains(#[trigger] pack_square(c)),
        chosen(cands, ok).len() <= cands.len(),
{
    let f = cands.filter(ok);
    let r = chosen(cands, ok);
    cands.lemma_filter_len(ok);
    assert forall|i: int| 0 <= i < r.len() implies is_choice(cands, ok, #[trigger] r[i]) by {
        cands.lemma_filter_pred(ok, i);
        assert(f.contains(f[i]));
        cands.lemma_filter_contains_rev(ok, f[i]);
        assert(r[i] == pack_square(f[i]));
        assert(cands.contains(f[i]) && ok(f[i]) && r[i] == pack_square(f[i]));
    }
    assert forall|c: (int, int)| cands.contains(c) && ok(c) implies r.contains(
        #[trigger] pack_square(c),
    ) by {
        let i = choose|i: int| 0 <= i < cands.len() && cands[i] == c;
        cands.lemma_filter_contains(ok, i);
        let j = choose|j: int| 0 <= j < f.len() && f[j] == c;
        assert(r[j] == pack_square(c));
    }
}

impl BoardState {
    /// Whether no piece stands strictly between `(x, y)` and `(tx, ty)`.
    pub open spec fn path_clear(&self, x: int, y: int, tx: int, ty: int) -> bool {
        forall|i: int, j: int| between(x, y, tx, ty, i, j) ==> !#[trigger] self.occupied(i, j)
    }

    /// Whether exactly one piece stands strictly between `(x, y)` and `(tx, ty)`.
    pub open spec fn one_screen(&self, x: int, y: int, tx: int, ty: int) -> bool {
        exists|i: int, j: int| #[trigger]
            self.screen_at(x, y, tx, ty, i, j)
    }

    /// Whether the piece on `(i, j)` is the only one strictly between `(x, y)` and `(tx, ty)`.
    pub open spec fn screen_at(&self, x: int, y: int, tx: int, ty: int, i: int, j: int) -> bool {
        &&& between(x, y, tx, ty, i, j)
        &&& self.occupied(i, j)
        &&& forall|i2: int, j2: int|
            between(x, y, tx, ty, i2, j2) && (i2 != i || j2 != j) ==> !#[trigger] self.occupied(
                i2,
                j2,
            )
    }

    /// Whether a king of the side `red` on `(tx, ty)` would face the other
    /// side's king: both on one file with no piece between them.
    pub open spec fn faces_enemy_king(&self, tx: int, ty: int, red: bool) -> bool {
        let k = self.roster(!red).King;
        k.x() == tx && self.path_clear(tx, ty, k.x() as int, k.y() as int)
    }

    /// How what stands between `(x, y)` and a square on one of its rays changes
    /// when the square lies one step further out.
    pub proof fn lemma_ray_extend(&self, x: int, y: int, dir: int, k: int)
        requires
            0 <= dir < 4,
            k >= 1,
        ensures
            self.path_clear(x, y, ray_step(x, y, dir, 1).0, ray_step(x, y, dir, 1).1),
            !self.one_screen(x, y, ray_step(x, y, dir, 1).0, ray_step(x, y, dir, 1).1),
            self.path_clear(x, y, ray_step(x, y, dir, k + 1).0, ray_step(x, y, dir, k + 1).1) <==> (
            self.path_clear(x, y, ray_step(x, y, dir, k).0, ray_step(x, y, dir, k).1)
                && !self.occupied(ray_step(x, y, dir, k).0, ray_step(x, y, dir, k).1)),
            self.one_screen(x, y, ray_step(x, y, dir, k + 1).0, ray_step(x, y, dir, k + 1).1) <==> (
            (self.one_screen(x, y, ray_step(x, y, dir, k).0, ray_step(x, y, dir, k).1)
                && !self.occupied(ray_step(x, y, dir, k).0, ray_step(x, y, dir, k).1)) || (
            self.path_clear(x, y, ray_step(x, y, dir, k).0, ray_step(x, y, dir, k).1)
                && self.occupied(ray_step(x, y, dir, k).0, ray_step(x, y, dir, k).1))),
    {
        let (ax, ay) = ray_step(x, y, dir, 1);
        let (cx, cy) = ray_step(x, y, dir, k);
        let (nx, ny) = ray_step(x, y, dir, k + 1);
        assert forall|i: int, j: int| between(x, y, nx, ny, i, j) <==> (between(x, y, cx, cy, i, j)
            || (i == cx && j == cy)) by {}
        assert forall|i: int, j: int| !between(x, y, ax, ay, i, j) by {}
        if self.one_screen(x, y, ax, ay) {
            let (i, j) = choose|i: int, j: int| #[trigger] self.screen_at(x, y, ax, ay, i, j);
            assert(between(x, y, ax, ay, i, j));
        }
        if self.path_clear(x, y, nx, ny) {
            assert(between(x, y, nx, ny, cx, cy));
            assert forall|i: int, j: int| between(x, y, cx, cy, i, j) implies !#[trigger] self.occupied(i, j) by {
                assert(between(x, y, nx, ny, i, j));
            }
        }
        if self.one_screen(x, y, nx, ny) {
            let (i, j) = choose|i: int, j: int| #[trigger] self.screen_at(x, y, nx, ny, i, j);
            if i == cx && j == cy {
                assert forall|i2: int, j2: int| between(x, y, cx, cy, i2, j2) implies !#[trigger] self.occupied(i2, j2) by {
                    assert(between(x, y, nx, ny, i2, j2));
                }
            } else {
                assert(between(x, y, nx, ny, cx, cy));
                assert(between(x, y, cx, cy, i, j));
                assert forall|i2: int, j2: int|
                    between(x, y, cx, cy, i2, j2) && (i2 != i || j2 != j) implies !#[trigger] self.occupied(i2, j2) by {
                    assert(between(x, y, nx, ny, i2, j2));
                }
                assert(self.screen_at(x, y, cx, cy, i, j));
            }
        }
        if self.one_screen(x, y, cx, cy) && !self.occupied(cx, cy) {
            let (i, j) = choose|i: int, j: int| #[trigger] self.screen_at(x, y, cx, cy, i, j);
            assert(between(x, y, nx, ny, i, j));
            assert(self.screen_at(x, y, nx, ny, i, j));
        }
        if self.path_clear(x, y, cx, cy) && self.occupied(cx, cy) {
            assert(between(x, y, nx, ny, cx, cy));
            assert(self.screen_at(x, y, nx, ny, cx, cy));
        }
    }

    /// Whether `piece` can move to `(tx, ty)` by the rules of its kind. The
    /// square must be on the board and free of the piece's own side; whether the
    /// move leaves the own king attacked is not considered.
    pub open spec fn reaches(&self, piece: Piece, tx: int, ty: int) -> bool {
        let x = piece.loc.x() as int;
        let y = piece.loc.y() as int;
        let red = piece.isRed;
        &&& on_board(tx, ty)
        &&& !self.same_colour(tx, ty, red)
        &&& match piece.pieceType {
            PieceType::Pawn => pawn_step(red, x, y, tx, ty),
            PieceType::Advisor => diagonal_step(1, x, y, tx, ty) && in_own_palace(tx, ty, red),
            PieceType::Elephant => diagonal_step(2, x, y, tx, ty) && same_bank(y, ty),
            PieceType::Horse => horse_jump(x, y, tx, ty) && !self.occupied(
                horse_leg(x, y, tx, ty).0,
                horse_leg(x, y, tx, ty).1,
            ),
            PieceType::Cannon => in_line(x, y, tx, ty) && if self.occupied(tx, ty) {
                self.one_screen(x, y, tx, ty)
            } else {
                self.path_clear(x, y, tx, ty)
            },
            PieceType::Rook => in_line(x, y, tx, ty) && self.path_clear(x, y, tx, ty),
            PieceType::King => straight_step(x, y, tx, ty) && in_own_palace(tx, ty, red) && (ty
                == y ==> !self.faces_enemy_king(tx, ty, red)),
        }
    }

    /// The rule of `piece` as a predicate on squares.
    pub open spec fn reach(&self, piece: Piece) -> spec_fn((int, int)) -> bool {
        |c: (int, int)| self.reaches(piece, c.0, c.1)
    }

    /// The squares that `piece` can move to, in the order in which its
    /// candidates are tried.
    pub open spec fn piece_moves(&self, piece: Piece) -> Seq<PackedCoord> {
        chosen(candidates(piece), self.reach(piece))
    }

    /// The moves of `piece`.
    pub open spec fn moves_of(&self, piece: Piece) -> Seq<PackedMove> {
        self.piece_moves(piece).map_values(|t: PackedCoord| PackedMove::join(piece.loc, t))
    }

    /// The moves of the pieces `pieces`, piece after piece.
    pub open spec fn moves_of_all(&self, pieces: Seq<Piece>) -> Seq<PackedMove>
        decreases pieces.len(),
    {
        if pieces.len() == 0 {
            Seq::empty()
        } else {
            self.moves_of(pieces[0]) + self.moves_of_all(pieces.drop_first())
        }
    }

    /// The moves of the side `red`.
    pub open spec fn moves_of_side(&self, red: bool) -> Seq<PackedMove> {
        self.moves_of_all(self.roster(red).live(red))
    }

    /// The moves of the side whose turn it is.
    pub open spec fn all_moves(&self) -> Seq<PackedMove> {
        self.moves_of_side(self.isRedTurn)
    }
}

} // verus!
