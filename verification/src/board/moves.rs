//! The move generator.
use vstd::prelude::*;
use crate::board::on_board;
use crate::board::packedmove::{PackedCoord, PackedMove};
use crate::board::piece::{Piece, PieceType};
use crate::board::rayiterator::is_ray;
use crate::board::rules::{
    between, candidates, chosen, is_elephant_square, lemma_chosen_members, lemma_chosen_push,
    pack_square, ray, ray_step, rays_before,
};

use crate::board::{BoardState, Coord, BLACK_RIVER, RED_RIVER};

verus! {

/// Whether one of `moves` reaches the square `target`.
pub open spec fn some_move_ends_on(moves: Seq<PackedMove>, target: PackedCoord) -> bool {
    exists|i: int| 0 <= i < moves.len() && (#[trigger] moves[i]).end() == target
}

impl BoardState {
    /// Whether `tried` squares have been tried for `piece` and the accepted
    /// ones appended to `base`, giving `now`.
    pub open spec fn tried_so_far(
        &self,
        piece: Piece,
        base: Seq<PackedCoord>,
        tried: Seq<(int, int)>,
        now: Seq<PackedCoord>,
    ) -> bool {
        now == base + chosen(tried, self.reach(piece))
    }

    /// One more square has been tried: `now` holds it exactly when the rule accepts it.
    proof fn lemma_tried_one(
        &self,
        piece: Piece,
        base: Seq<PackedCoord>,
        tried: Seq<(int, int)>,
        before: Seq<PackedCoord>,
        c: (int, int),
        now: Seq<PackedCoord>,
    )
        requires
            self.tried_so_far(piece, base, tried, before),
            now == if self.reaches(piece, c.0, c.1) {
                before.push(pack_square(c))
            } else {
                before
            },
        ensures
            self.tried_so_far(piece, base, tried.push(c), now),
    {
        lemma_chosen_push(tried, self.reach(piece), c);
        assert(now =~= base + chosen(tried.push(c), self.reach(piece)));
    }

    /// Nothing has been tried yet.
    proof fn lemma_tried_none(&self, piece: Piece, base: Seq<PackedCoord>)
        ensures
            self.tried_so_far(piece, base, Seq::empty(), base),
    {
        lemma_chosen_push(Seq::empty(), self.reach(piece), (0, 0));
        assert(base =~= base + Seq::<PackedCoord>::empty());
    }

    /// Tries the square `(x + dx, y + dy)` for `piece`, where `fits` says
    /// whether the rule of its kind lets the piece go there.
    fn try_offset(
        &self,
        piece: &Piece,
        dx: i8,
        dy: i8,
        fits: bool,
        moveArr: &mut Vec<PackedCoord>,
        Ghost(base): Ghost<Seq<PackedCoord>>,
        Ghost(tried): Ghost<Seq<(int, int)>>,
    )
        requires
            -2 <= dx <= 2,
            -2 <= dy <= 2,
            self.tried_so_far(*piece, base, tried, old(moveArr)@),
            fits ==> on_board(piece.loc.x() + dx, piece.loc.y() + dy),
            fits && !self.same_colour(piece.loc.x() + dx, piece.loc.y() + dy, piece.isRed)
                <==> self.reaches(*piece, piece.loc.x() + dx, piece.loc.y() + dy),
        ensures
            self.tried_so_far(
                *piece,
                base,
                tried.push((piece.loc.x() + dx, piece.loc.y() + dy)),
                final(moveArr)@,
            ),
    {
        if fits {
            let tx: usize = (piece.loc.x() as i8 + dx) as usize;
            let ty: usize = (piece.loc.y() as i8 + dy) as usize;
            self.TryMove(tx, ty, piece.isRed, moveArr);
        }
        proof {
            self.lemma_tried_one(
                *piece,
                base,
                tried,
                old(moveArr)@,
                (piece.loc.x() + dx, piece.loc.y() + dy),
                moveArr@,
            );
        }
    }

    /// Whether `(x + dx, y + dy)` is a square of the board.
    fn offset_on_board(x: usize, y: usize, dx: i8, dy: i8) -> (b: bool)
        requires
            x < 16,
            y < 16,
            -2 <= dx <= 2,
            -2 <= dy <= 2,
        ensures
            b == on_board(x + dx, y + dy),
    {
        let tx: i8 = x as i8 + dx;
        let ty: i8 = y as i8 + dy;
        0 <= tx && tx < 9 && 0 <= ty && ty < 10
    }

    /// Whether a piece stands on `(x + dx, y + dy)`.
    fn offset_occupied(&self, x: usize, y: usize, dx: i8, dy: i8) -> (b: bool)
        requires
            x < 16,
            y < 16,
            -2 <= dx <= 2,
            -2 <= dy <= 2,
        ensures
            b == self.occupied(x + dx, y + dy),
    {
        if Self::offset_on_board(x, y, dx, dy) {
            let tx: usize = (x as i8 + dx) as usize;
            let ty: usize = (y as i8 + dy) as usize;
            self.squares[ty][tx].hasPiece()
        } else {
            false
        }
    }

    fn pawn_moves(&self, piece: &Piece, moveArr: Vec<PackedCoord>) -> (r: Vec<PackedCoord>)
        requires
            piece.pieceType == PieceType::Pawn,
        ensures
            r@ == moveArr@ + self.piece_moves(*piece),
    {
        let mut moveArr = moveArr;
        let ghost base = moveArr@;
        let x = piece.loc.x();
        let y = piece.loc.y();
        let forward: i8 = if piece.isRed { 1 } else { -1 };
        let crossed = if piece.isRed { y >= BLACK_RIVER } else { y <= RED_RIVER };
        proof {
            self.lemma_tried_none(*piece, base);
        }
        let ghost t0 = Seq::<(int, int)>::empty();
        let f0 = Self::offset_on_board(x, y, 0, forward);
        self.try_offset(piece, 0, forward, f0, &mut moveArr, Ghost(base), Ghost(t0));
        let ghost t1 = t0.push((x + 0, y + forward));
        let f1 = crossed && Self::offset_on_board(x, y, -1, 0);
        self.try_offset(piece, -1, 0, f1, &mut moveArr, Ghost(base), Ghost(t1));
        let ghost t2 = t1.push((x + -1, y + 0));
        let f2 = crossed && Self::offset_on_board(x, y, 1, 0);
        self.try_offset(piece, 1, 0, f2, &mut moveArr, Ghost(base), Ghost(t2));
        let ghost t3 = t2.push((x + 1, y + 0));
        proof {
            assert(t3 =~= candidates(*piece));
        }
        moveArr
    }

    fn advisor_moves(&self, piece: &Piece, moveArr: Vec<PackedCoord>) -> (r: Vec<PackedCoord>)
        requires
            piece.pieceType == PieceType::Advisor,
        ensures
            r@ == moveArr@ + self.piece_moves(*piece),
    {
        let mut moveArr = moveArr;
        let ghost base = moveArr@;
        let x = piece.loc.x();
        let y = piece.loc.y();
        proof {
            self.lemma_tried_none(*piece, base);
        }
        let ghost t0 = Seq::<(int, int)>::empty();
        let f0 = Self::offset_in_palace(x, y, -1, 1, piece.isRed);
        self.try_offset(piece, -1, 1, f0, &mut moveArr, Ghost(base), Ghost(t0));
        let ghost t1 = t0.push((x + -1, y + 1));
        let f1 = Self::offset_in_palace(x, y, 1, 1, piece.isRed);
        self.try_offset(piece, 1, 1, f1, &mut moveArr, Ghost(base), Ghost(t1));
        let ghost t2 = t1.push((x + 1, y + 1));
        let f2 = Self::offset_in_palace(x, y, -1, -1, piece.isRed);
        self.try_offset(piece, -1, -1, f2, &mut moveArr, Ghost(base), Ghost(t2));
        let ghost t3 = t2.push((x + -1, y + -1));
        let f3 = Self::offset_in_palace(x, y, 1, -1, piece.isRed);
        self.try_offset(piece, 1, -1, f3, &mut moveArr, Ghost(base), Ghost(t3));
        let ghost t4 = t3.push((x + 1, y + -1));
        proof {
            assert(t4 =~= candidates(*piece));
        }
        moveArr
    }

    /// Whether `(x + dx, y + dy)` lies in the palace of the side `red`.
    fn offset_in_palace(x: usize, y: usize, dx: i8, dy: i8, red: bool) -> (b: bool)
        requires
            x < 16,
            y < 16,
            -2 <= dx <= 2,
            -2 <= dy <= 2,
        ensures
            b == crate::board::rules::in_own_palace(x + dx, y + dy, red),
    {
        let tx: i8 = x as i8 + dx;
        let ty: i8 = y as i8 + dy;
        0 <= tx && 0 <= ty && Self::IsPalace(tx as usize, ty as usize) && (ty <= 2) == red
    }

    fn elephant_moves(&self, piece: &Piece, moveArr: Vec<PackedCoord>) -> (r: Vec<PackedCoord>)
        requires
            piece.pieceType == PieceType::Elephant,
        ensures
            r@ == moveArr@ + self.piece_moves(*piece),
    {
        let mut moveArr = moveArr;
        let ghost base = moveArr@;
        let x = piece.loc.x();
        let y = piece.loc.y();
        let up = y <= 2 || (5 <= y && y <= 7);
        let down = (2 <= y && y <= 4) || 7 <= y;
        proof {
            self.lemma_tried_none(*piece, base);
        }
        let ghost t0 = Seq::<(int, int)>::empty();
        let f0 = up && Self::offset_on_board(x, y, -2, 2);
        self.try_offset(piece, -2, 2, f0, &mut moveArr, Ghost(base), Ghost(t0));
        let ghost t1 = t0.push((x + -2, y + 2));
        let f1 = up && Self::offset_on_board(x, y, 2, 2);
        self.try_offset(piece, 2, 2, f1, &mut moveArr, Ghost(base), Ghost(t1));
        let ghost t2 = t1.push((x + 2, y + 2));
        let f2 = down && Self::offset_on_board(x, y, -2, -2);
        self.try_offset(piece, -2, -2, f2, &mut moveArr, Ghost(base), Ghost(t2));
        let ghost t3 = t2.push((x + -2, y + -2));
        let f3 = down && Self::offset_on_board(x, y, 2, -2);
        self.try_offset(piece, 2, -2, f3, &mut moveArr, Ghost(base), Ghost(t3));
        let ghost t4 = t3.push((x + 2, y + -2));
        proof {
            assert(t4 =~= candidates(*piece));
        }
        moveArr
    }

    fn horse_moves(&self, piece: &Piece, moveArr: Vec<PackedCoord>) -> (r: Vec<PackedCoord>)
        requires
            piece.pieceType == PieceType::Horse,
        ensures
            r@ == moveArr@ + self.piece_moves(*piece),
    {
        let mut moveArr = moveArr;
        let ghost base = moveArr@;
        let x = piece.loc.x();
        let y = piece.loc.y();
        let up = !self.offset_occupied(x, y, 0, 1);
        let left = !self.offset_occupied(x, y, -1, 0);
        let down = !self.offset_occupied(x, y, 0, -1);
        let right = !self.offset_occupied(x, y, 1, 0);
        proof {
            self.lemma_tried_none(*piece, base);
        }
        let ghost t0 = Seq::<(int, int)>::empty();
        let f0 = up && Self::offset_on_board(x, y, -1, 2);
        self.try_offset(piece, -1, 2, f0, &mut moveArr, Ghost(base), Ghost(t0));
        let ghost t1 = t0.push((x + -1, y + 2));
        let f1 = up && Self::offset_on_board(x, y, 1, 2);
        self.try_offset(piece, 1, 2, f1, &mut moveArr, Ghost(base), Ghost(t1));
        let ghost t2 = t1.push((x + 1, y + 2));
        let f2 = left && Self::offset_on_board(x, y, -2, 1);
        self.try_offset(piece, -2, 1, f2, &mut moveArr, Ghost(base), Ghost(t2));
        let ghost t3 = t2.push((x + -2, y + 1));
        let f3 = left && Self::offset_on_board(x, y, -2, -1);
        self.try_offset(piece, -2, -1, f3, &mut moveArr, Ghost(base), Ghost(t3));
        let ghost t4 = t3.push((x + -2, y + -1));
        let f4 = down && Self::offset_on_board(x, y, -1, -2);
        self.try_offset(piece, -1, -2, f4, &mut moveArr, Ghost(base), Ghost(t4));
        let ghost t5 = t4.push((x + -1, y + -2));
        let f5 = down && Self::offset_on_board(x, y, 1, -2);
        self.try_offset(piece, 1, -2, f5, &mut moveArr, Ghost(base), Ghost(t5));
        let ghost t6 = t5.push((x + 1, y + -2));
        let f6 = right && Self::offset_on_board(x, y, 2, 1);
        self.try_offset(piece, 2, 1, f6, &mut moveArr, Ghost(base), Ghost(t6));
        let ghost t7 = t6.push((x + 2, y + 1));
        let f7 = right && Self::offset_on_board(x, y, 2, -1);
        self.try_offset(piece, 2, -1, f7, &mut moveArr, Ghost(base), Ghost(t7));
        let ghost t8 = t7.push((x + 2, y + -1));
        proof {
            assert(t8 =~= candidates(*piece));
        }
        moveArr
    }

    /// Whether a king of the side `isRed` on `(x, y)` would face the other
    /// side's king with no piece between them.
    pub fn shyKing(&self, x: usize, y: usize, isRed: bool) -> (b: bool)
        requires
            x < 9,
            y < 10,
        ensures
            b == self.faces_enemy_king(x as int, y as int, isRed),
    {
        let enemyKingCoords: Coord = if isRed {
            self.blackPieces.King.makeCoord()
        } else {
            self.redPieces.King.makeCoord()
        };
        let (kx, ky) = enemyKingCoords;
        if x != kx {
            return false;
        }
        let lo: usize = if y < ky { y } else { ky };
        let hi: usize = if y < ky { ky } else { y };
        let mut march_y: usize = lo + 1;
        while march_y < hi
            invariant
                x < 9,
                kx == x,
                lo < march_y,
                march_y <= hi + 1,
                kx == self.roster(!isRed).King.x(),
                ky == self.roster(!isRed).King.y(),
                hi < 16,
                lo == if y < ky { y } else { ky },
                hi == if y < ky { ky } else { y },
                forall|j: int| lo < j < march_y ==> !#[trigger] self.occupied(x as int, j),
            decreases hi - march_y,
        {
            if march_y < 10 && self.squares[march_y][x].hasPiece() {
                proof {
                    assert(self.occupied(x as int, march_y as int));
                    assert(between(x as int, y as int, kx as int, ky as int, x as int, march_y as int));
                }
                return false;
            }
            march_y += 1;
        }
        true
    }

    fn king_moves(&self, piece: &Piece, moveArr: Vec<PackedCoord>) -> (r: Vec<PackedCoord>)
        requires
            piece.pieceType == PieceType::King,
        ensures
            r@ == moveArr@ + self.piece_moves(*piece),
    {
        let mut moveArr = moveArr;
        let ghost base = moveArr@;
        let x = piece.loc.x();
        let y = piece.loc.y();
        proof {
            self.lemma_tried_none(*piece, base);
        }
        let ghost t0 = Seq::<(int, int)>::empty();
        let f0 = Self::offset_in_palace(x, y, 0, 1, piece.isRed);
        self.try_offset(piece, 0, 1, f0, &mut moveArr, Ghost(base), Ghost(t0));
        let ghost t1 = t0.push((x + 0, y + 1));
        let f1 = Self::offset_in_palace(x, y, 0, -1, piece.isRed);
        self.try_offset(piece, 0, -1, f1, &mut moveArr, Ghost(base), Ghost(t1));
        let ghost t2 = t1.push((x + 0, y + -1));
        let f2 = Self::offset_in_palace(x, y, -1, 0, piece.isRed) && !self.shyKing(
            x - 1,
            y,
            piece.isRed,
        );
        self.try_offset(piece, -1, 0, f2, &mut moveArr, Ghost(base), Ghost(t2));
        let ghost t3 = t2.push((x + -1, y + 0));
        let f3 = Self::offset_in_palace(x, y, 1, 0, piece.isRed) && !self.shyKing(
            x + 1,
            y,
            piece.isRed,
        );
        self.try_offset(piece, 1, 0, f3, &mut moveArr, Ghost(base), Ghost(t3));
        let ghost t4 = t3.push((x + 1, y + 0));
        proof {
            assert(t4 =~= candidates(*piece));
        }
        moveArr
    }

    /// Tries the squares of the four rays for a rook or a cannon.
    fn slide_moves(&self, piece: &Piece, moveArr: Vec<PackedCoord>) -> (r: Vec<PackedCoord>)
        requires
            piece.pieceType == PieceType::Rook || piece.pieceType == PieceType::Cannon,
            piece.loc.on_board(),
        ensures
            r@ == moveArr@ + self.piece_moves(*piece),
    {
        let mut moveArr = moveArr;
        let ghost base = moveArr@;
        let x = piece.loc.x();
        let y = piece.loc.y();
        let cannon = match piece.pieceType {
            PieceType::Cannon => true,
            _ => false,
        };
        let mut rays = self.GetRaysFrom(x, y);
        let ghost mut tried = Seq::<(int, int)>::empty();
        proof {
            self.lemma_tried_none(*piece, base);
        }
        let mut dir: usize = 0;
        while dir < 4
            invariant
                dir <= 4,
                rays.cardinal == dir,
                rays.x == x,
                rays.y == y,
                *rays.tileRef == self.squares,
                x == piece.loc.x(),
                y == piece.loc.y(),
                x < 9,
                y < 10,
                cannon == (piece.pieceType == PieceType::Cannon),
                piece.pieceType == PieceType::Rook || piece.pieceType == PieceType::Cannon,
                tried == rays_before(x as int, y as int, dir as int),
                self.tried_so_far(*piece, base, tried, moveArr@),
            decreases 4 - dir,
        {
            let squares = match rays.next() {
                Some(v) => v,
                None => Vec::new(),
            };
            let mut screens: u8 = 0;
            let mut k: usize = 0;
            proof {
                self.lemma_ray_extend(x as int, y as int, dir as int, 1);
                assert(ray(x as int, y as int, dir as int).take(0) =~= Seq::<(int, int)>::empty());
                assert(tried =~= tried + Seq::<(int, int)>::empty());
            }
            while k < squares.len()
                invariant
                    dir < 4,
                    x == piece.loc.x(),
                    y == piece.loc.y(),
                    x < 9,
                    y < 10,
                    cannon == (piece.pieceType == PieceType::Cannon),
                    piece.pieceType == PieceType::Rook || piece.pieceType == PieceType::Cannon,
                    is_ray(squares@, self.squares, x as int, y as int, dir as int),
                    k <= squares.len(),
                    screens <= 2,
                    (screens == 0) == self.path_clear(
                        x as int,
                        y as int,
                        ray_step(x as int, y as int, dir as int, k + 1).0,
                        ray_step(x as int, y as int, dir as int, k + 1).1,
                    ),
                    (screens == 1) == self.one_screen(
                        x as int,
                        y as int,
                        ray_step(x as int, y as int, dir as int, k + 1).0,
                        ray_step(x as int, y as int, dir as int, k + 1).1,
                    ),
                    tried == rays_before(x as int, y as int, dir as int) + ray(
                        x as int,
                        y as int,
                        dir as int,
                    ).take(k as int),
                    self.tried_so_far(*piece, base, tried, moveArr@),
                decreases squares.len() - k,
            {
                let (pos, tile) = squares[k];
                let (tx, ty) = pos;
                let full = tile.hasPiece();
                let ghost before = moveArr@;
                proof {
                    assert((tx as int, ty as int) == ray_step(x as int, y as int, dir as int, k + 1));
                    assert(self.occupied(tx as int, ty as int) == full);
                    self.lemma_ray_extend(x as int, y as int, dir as int, k + 1);
                }
                let fits = if cannon {
                    if full {
                        screens == 1
                    } else {
                        screens == 0
                    }
                } else {
                    screens == 0
                };
                if fits {
                    self.TryMove(tx, ty, piece.isRed, &mut moveArr);
                }
                if full && screens < 2 {
                    screens += 1;
                }
                proof {
                    self.lemma_tried_one(*piece, base, tried, before, (tx as int, ty as int), moveArr@);
                    let whole = ray(x as int, y as int, dir as int);
                    assert(whole.take(k + 1) =~= whole.take(k as int).push((tx as int, ty as int)));
                    assert(tried.push((tx as int, ty as int)) =~= rays_before(
                        x as int,
                        y as int,
                        dir as int,
                    ) + whole.take(k + 1));
                    tried = tried.push((tx as int, ty as int));
                }
                k += 1;
            }
            proof {
                let whole = ray(x as int, y as int, dir as int);
                assert(whole.take(k as int) =~= whole);
            }
            dir += 1;
        }
        proof {
            let xi = x as int;
            let yi = y as int;
            assert(rays_before(xi, yi, 0) =~= Seq::<(int, int)>::empty());
            assert(rays_before(xi, yi, 1) =~= ray(xi, yi, 0));
            assert(rays_before(xi, yi, 2) =~= ray(xi, yi, 0) + ray(xi, yi, 1));
            assert(rays_before(xi, yi, 3) =~= ray(xi, yi, 0) + ray(xi, yi, 1) + ray(xi, yi, 2));
            assert(rays_before(xi, yi, 4) =~= ray(xi, yi, 0) + ray(xi, yi, 1) + ray(xi, yi, 2) + ray(
                xi,
                yi,
                3,
            ));
            assert(tried == candidates(*piece));
        }
        moveArr
    }

    /// Whether `piece` stands where the move generator can work on it: on the
    /// board, and an elephant on one of the squares that elephants can reach.
    pub open spec fn well_placed(piece: Piece) -> bool {
        &&& piece.loc.on_board()
        &&& piece.pieceType == PieceType::Elephant ==> is_elephant_square(
            piece.loc.x() as int,
            piece.loc.y() as int,
        )
    }

    /// Appends to `moveArr` the squares that `piece` can move to on this board.
    pub fn getPieceMoves(&self, piece: &Piece, moveArr: Vec<PackedCoord>) -> (r: Vec<PackedCoord>)
        requires
            Self::well_placed(*piece),
        ensures
            r@ == moveArr@ + self.piece_moves(*piece),
            r@.len() <= moveArr@.len() + 17,
    {
        proof {
            Self::lemma_candidates_len(*piece);
            lemma_chosen_members(candidates(*piece), self.reach(*piece));
        }
        match piece.pieceType {
            PieceType::Pawn => self.pawn_moves(piece, moveArr),
            PieceType::Advisor => self.advisor_moves(piece, moveArr),
            PieceType::Elephant => self.elephant_moves(piece, moveArr),
            PieceType::Horse => self.horse_moves(piece, moveArr),
            PieceType::Cannon => self.slide_moves(piece, moveArr),
            PieceType::Rook => self.slide_moves(piece, moveArr),
            PieceType::King => self.king_moves(piece, moveArr),
        }
    }

    /// A piece on the board is tried on at most seventeen squares.
    pub proof fn lemma_candidates_len(piece: Piece)
        requires
            piece.loc.on_board(),
        ensures
            candidates(piece).len() <= 17,
    {
    }

    /// Whether the pieces of the side `red` stand where the move generator can
    /// work on them.
    pub open spec fn side_placed(&self, red: bool) -> bool {
        forall|i: int|
            0 <= i < 16 && !(#[trigger] self.roster(red).slot(i)).is_dead() ==> Self::well_placed(
                self.roster(red).piece(red, i),
            )
    }

    /// The moves of the side `red`.
    fn side_moves(&self, red: bool) -> (r: Vec<PackedMove>)
        requires
            self.side_placed(red),
        ensures
            r@ == self.moves_of_side(red),
            r@.len() <= 272,
    {
        let mut ret: Vec<PackedMove> = Vec::with_capacity(48);
        let mut coords: Vec<PackedCoord> = Vec::with_capacity(16);
        let mut it = self.IteratePieces(red);
        proof {
            assert(ret@ + self.moves_of_all(it.remaining()) =~= self.moves_of_side(red));
        }
        loop
            invariant
                it.isRed == red,
                *it.setRef == self.roster(red),
                self.side_placed(red),
                coords@.len() == 0,
                ret@ + self.moves_of_all(it.remaining()) == self.moves_of_side(red),
                it.index <= 16,
                ret@.len() <= 17 * it.index,
            ensures
                ret@ == self.moves_of_side(red),
                ret@.len() <= 272,
            decreases it.remaining().len(),
        {
            let ghost rem = it.remaining();
            let ghost done = ret@;
            match it.next() {
                Some(piece) => {
                    assert(self.roster(red).slot(it.index - 1) == piece.loc);
                    coords = self.getPieceMoves(&piece, coords);
                    let mut i: usize = 0;
                    while i < coords.len()
                        invariant
                            i <= coords.len(),
                            coords@ == self.piece_moves(piece),
                            ret@ == done + self.moves_of(piece).take(i as int),
                        decreases coords.len() - i,
                    {
                        ret.push(PackedMove::new_from_packed(piece.loc, coords[i]));
                        proof {
                            let all = self.moves_of(piece);
                            assert(all.take(i + 1) =~= all.take(i as int).push(all[i as int]));
                        }
                        i += 1;
                    }
                    coords.clear();
                    proof {
                        let all = self.moves_of(piece);
                        assert(all.take(i as int) =~= all);
                        assert(self.moves_of_all(rem) == all + self.moves_of_all(rem.drop_first()));
                        assert(ret@ + self.moves_of_all(it.remaining()) =~= done + self.moves_of_all(
                            rem,
                        ));
                    }
                },
                None => {
                    proof {
                        assert(ret@ =~= ret@ + self.moves_of_all(rem));
                    }
                    break;
                },
            }
        }
        ret
    }

    /// The moves of the side whose turn it is. A move that leaves the own king
    /// attacked is among them.
    pub fn getAllMoves(&self) -> (r: Vec<PackedMove>)
        requires
            self.side_placed(self.isRedTurn),
        ensures
            r@ == self.all_moves(),
            r@.len() <= 272,
    {
        self.side_moves(self.isRedTurn)
    }

    /// The number of moves of the side whose turn it is.
    pub fn countMoves(&self) -> (n: i32)
        requires
            self.side_placed(self.isRedTurn),
        ensures
            n == self.all_moves().len(),
    {
        self.getAllMoves().len() as i32
    }

    /// Whether a move of the other side reaches the king of the side whose turn it is.
    pub open spec fn in_check(&self) -> bool {
        some_move_ends_on(self.moves_of_side(!self.isRedTurn), self.roster(self.isRedTurn).King)
    }

    /// Whether the king of the side whose turn it is stands on a square that a
    /// piece of the other side can move to.
    pub fn isInCheck(&self) -> (b: bool)
        requires
            self.side_placed(!self.isRedTurn),
        ensures
            b == self.in_check(),
    {
        let kingPosition = if self.isRedTurn {
            self.redPieces.King
        } else {
            self.blackPieces.King
        };
        let moves = self.side_moves(!self.isRedTurn);
        let mut i: usize = 0;
        while i < moves.len()
            invariant
                i <= moves.len(),
                moves@ == self.moves_of_side(!self.isRedTurn),
                kingPosition == self.roster(self.isRedTurn).King,
                forall|j: int| 0 <= j < i ==> (#[trigger] moves@[j]).end() != kingPosition,
            decreases moves.len() - i,
        {
            if moves[i].end() == kingPosition {
                proof {
                    let theirs = self.moves_of_side(!self.isRedTurn);
                    assert(theirs[i as int].end() == self.roster(self.isRedTurn).King);
                }
                return true;
            }
            i += 1;
        }
        false
    }

    pub open spec fn spec_hasKing(&self) -> bool {
        !self.roster(self.isRedTurn).King.is_dead()
    }

    /// Whether the king of the side whose turn it is stands on the board.
    #[verifier::when_used_as_spec(spec_hasKing)]
    pub fn hasKing(&self) -> (b: bool)
        ensures
            b == !self.roster(self.isRedTurn).King.is_dead(),
    {
        if self.isRedTurn {
            return self.redPieces.King.data != 0xFF;
        }
        self.blackPieces.King.data != 0xFF
    }
}

} // verus!
