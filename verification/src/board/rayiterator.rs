//! The four rays of squares that leave a square along its file and its rank.
use vstd::prelude::*;
use crate::board::rules::{ray_len, ray_step};
use crate::board::tile::Tile;
use crate::board::{Coord, TileGrid};

verus! {

/// Hands out the rays from `(x, y)` one by one: towards rank 9, towards file 0,
/// towards file 8, towards rank 0.
pub struct RayIterator<'a> {
    pub cardinal: usize,
    pub tileRef: &'a TileGrid,
    pub x: usize,
    pub y: usize,
}

/// Whether `squares` are the squares of the ray from `(x, y)` in the direction
/// `dir`, nearest first, each with its tile in `grid`.
pub open spec fn is_ray(squares: Seq<(Coord, &Tile)>, grid: TileGrid, x: int, y: int, dir: int) -> bool {
    &&& squares.len() == ray_len(x, y, dir)
    &&& forall|k: int|
        0 <= k < squares.len() ==> {
            &&& ((#[trigger] squares[k]).0.0 as int, squares[k].0.1 as int) == ray_step(
                x,
                y,
                dir,
                k + 1,
            )
            &&& *squares[k].1 == grid[squares[k].0.1 as int][squares[k].0.0 as int]
        }
}

impl<'a> RayIterator<'a> {
    pub fn new(set: &'a TileGrid, _x: usize, _y: usize) -> (r: Self)
        ensures
            r.cardinal == 0,
            r.tileRef == set,
            r.x == _x,
            r.y == _y,
    {
        Self { cardinal: 0, tileRef: set, x: _x, y: _y }
    }

    /// Hands out the next ray, or `None` after the fourth.
    pub fn next(&mut self) -> (r: Option<Vec<(Coord, &'a Tile)>>)
        requires
            old(self).x < 9,
            old(self).y < 10,
        ensures
            final(self).tileRef == old(self).tileRef,
            final(self).x == old(self).x,
            final(self).y == old(self).y,
            old(self).cardinal >= 4 ==> r is None && final(self).cardinal == old(self).cardinal,
            old(self).cardinal < 4 ==> r is Some && final(self).cardinal == old(self).cardinal + 1
                && is_ray(
                r->0@,
                *old(self).tileRef,
                old(self).x as int,
                old(self).y as int,
                old(self).cardinal as int,
            ),
    {
        if self.cardinal >= 4 {
            return None;
        }
        let mut ret: Vec<(Coord, &'a Tile)> = Vec::with_capacity(9);
        let x = self.x;
        let y = self.y;
        let dir = self.cardinal;
        let grid: &'a TileGrid = self.tileRef;
        let n: usize = if dir == 0 {
            9 - y
        } else if dir == 1 {
            x
        } else if dir == 2 {
            8 - x
        } else {
            y
        };
        let mut k: usize = 0;
        while k < n
            invariant
                x < 9,
                y < 10,
                dir < 4,
                k <= n,
                n == ray_len(x as int, y as int, dir as int),
                ret.len() == k,
                forall|i: int|
                    0 <= i < k ==> {
                        &&& ((#[trigger] ret@[i]).0.0 as int, ret@[i].0.1 as int) == ray_step(
                            x as int,
                            y as int,
                            dir as int,
                            i + 1,
                        )
                        &&& *ret@[i].1 == grid[ret@[i].0.1 as int][ret@[i].0.0 as int]
                    },
            decreases n - k,
        {
            let cx: usize = if dir == 1 {
                x - (k + 1)
            } else if dir == 2 {
                x + (k + 1)
            } else {
                x
            };
            let cy: usize = if dir == 0 {
                y + (k + 1)
            } else if dir == 3 {
                y - (k + 1)
            } else {
                y
            };
            ret.push(((cx, cy), &grid[cy][cx]));
            k += 1;
        }
        self.cardinal += 1;
        Some(ret)
    }
}

} // verus!
