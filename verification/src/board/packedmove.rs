//! Squares packed into one byte and moves packed into two.
use vstd::prelude::*;
use crate::board::decimal::{decimal, push_decimal};
use crate::board::notation::chars_of;
use crate::board::tile::Tile;
use crate::board::{grid_written, Coord, TileGrid};

verus! {

/// The byte of a piece that is no longer on the board.
pub const DEAD_PIECE_BYTE: u8 = 0xFF;

/// A square in one byte: the high four bits hold `x`, the low four bits `y`.
#[derive(Clone, Copy, PartialEq, Eq, Hash, Debug, Structural)]
pub struct PackedCoord {
    pub data: u8,
}

/// The packed coordinate of a piece that is no longer on the board.
pub fn DEAD_PIECE_PACKEDCOORD() -> (r: PackedCoord)
    ensures
        r.data == DEAD_PIECE_BYTE,
        r == PackedCoord::pack(15, 15),
{
    PackedCoord { data: DEAD_PIECE_BYTE }
}

impl PackedCoord {
    /// The byte that holds `x` and `y`, each taken modulo 16.
    pub open spec fn pack(x: int, y: int) -> PackedCoord {
        PackedCoord { data: ((x % 16) * 16 + y % 16) as u8 }
    }

    pub open spec fn spec_x(&self) -> usize {
        (self.data / 16) as usize
    }

    pub open spec fn spec_y(&self) -> usize {
        (self.data % 16) as usize
    }

    /// Whether this is the coordinate of a piece that has left the board.
    pub open spec fn is_dead(&self) -> bool {
        self.data == DEAD_PIECE_BYTE
    }

    /// Whether the coordinate names one of the ninety squares.
    pub open spec fn on_board(&self) -> bool {
        self.spec_x() < 9 && self.spec_y() < 10
    }

    /// The coordinate of a captured piece.
    pub fn dead() -> (r: Self)
        ensures
            r.data == 0xFF,
            r.is_dead(),
    {
        PackedCoord { data: DEAD_PIECE_BYTE }
    }

    /// Packs `coord`; only the low four bits of each part are kept.
    pub fn new_from_Coord(coord: Coord) -> (r: Self)
        ensures
            r == Self::pack(coord.0 as int, coord.1 as int),
            r.x() == coord.0 % 16,
            r.y() == coord.1 % 16,
    {
        Self::new_from_usize(coord.0, coord.1)
    }

    /// Packs `(x, y)`; only the low four bits of each part are kept.
    pub fn new_from_usize(x: usize, y: usize) -> (r: Self)
        ensures
            r == Self::pack(x as int, y as int),
            r.x() == x % 16,
            r.y() == y % 16,
    {
        let hi: u8 = (x % 16) as u8;
        let lo: u8 = (y % 16) as u8;
        Self { data: hi * 16 + lo }
    }

    /// The file.
    #[verifier::when_used_as_spec(spec_x)]
    pub fn x(&self) -> (r: usize)
        ensures
            r == self.spec_x(),
            r < 16,
    {
        (self.data / 16) as usize
    }

    /// The rank.
    #[verifier::when_used_as_spec(spec_y)]
    pub fn y(&self) -> (r: usize)
        ensures
            r == self.spec_y(),
            r < 16,
    {
        (self.data % 16) as usize
    }

    /// Unpacks the coordinate.
    pub fn makeCoord(&self) -> (r: Coord)
        ensures
            r.0 == self.x(),
            r.1 == self.y(),
            r.0 < 16,
            r.1 < 16,
            Self::pack(r.0 as int, r.1 as int) == *self,
    {
        ((self.data / 16) as usize, (self.data % 16) as usize)
    }
}

/// Packing and unpacking are inverse to each other on `[0, 15] x [0, 15]`.
pub proof fn lemma_pack_unpack(x: int, y: int, c: PackedCoord)
    ensures
        0 <= x < 16 && 0 <= y < 16 ==> PackedCoord::pack(x, y).x() == x && PackedCoord::pack(
            x,
            y,
        ).y() == y,
        PackedCoord::pack(c.x() as int, c.y() as int) == c,
        forall|x2: int, y2: int|
            0 <= x < 16 && 0 <= y < 16 && 0 <= x2 < 16 && 0 <= y2 < 16 && PackedCoord::pack(x, y)
                == PackedCoord::pack(x2, y2) ==> x == x2 && y == y2,
        PackedCoord::pack(15, 15).is_dead(),
        0 <= x < 16 && 0 <= y < 16 && PackedCoord::pack(x, y).is_dead() ==> x == 15 && y == 15,
{
}

/// A move in two bytes: the high byte is the square it leaves, the low byte the
/// square it reaches.
#[derive(Clone, Copy, PartialEq, Eq, Hash, Debug, Structural)]
pub struct PackedMove {
    pub data: u16,
}

/// The letter that stands for `v` in a move's text.
pub open spec fn letter_of(v: int) -> char
    recommends
        0 <= v < 10,
{
    (97 + v) as char
}

impl PackedMove {
    /// The move from `start` to `end`.
    pub open spec fn join(start: PackedCoord, end: PackedCoord) -> PackedMove {
        PackedMove { data: (start.data * 256 + end.data) as u16 }
    }

    pub open spec fn spec_start(&self) -> PackedCoord {
        PackedCoord { data: (self.data / 256) as u8 }
    }

    pub open spec fn spec_end(&self) -> PackedCoord {
        PackedCoord { data: (self.data % 256) as u8 }
    }

    pub open spec fn spec_killsPiece(&self) -> bool {
        self.data % 256 == 255
    }

    /// Whether both squares of the move are on the board.
    pub open spec fn on_board(&self) -> bool {
        self.spec_start().on_board() && self.spec_end().on_board()
    }

    /// The text of the move: for each of its two squares the letter of `y`
    /// (`a` for 0) and then the number `x + 1`.
    pub open spec fn text(&self) -> Seq<char> {
        seq![letter_of(self.spec_start().y() as int)] + decimal((self.spec_start().x() + 1) as nat)
            + seq![letter_of(self.spec_end().y() as int)] + decimal(
            (self.spec_end().x() + 1) as nat,
        )
    }

    /// The move that stands for "no move": from `(0, 0)` to `(0, 0)`.
    pub fn new() -> (r: Self)
        ensures
            r.data == 0,
    {
        PackedMove { data: 0 }
    }

    /// The move from `movePair.0` to `movePair.1`, which must differ; only the
    /// low four bits of each part are kept.
    pub fn new_from_Coords(movePair: (Coord, Coord)) -> (r: Self)
        requires
            movePair.0 != movePair.1,
        ensures
            r.start() == PackedCoord::pack(movePair.0.0 as int, movePair.0.1 as int),
            r.end() == PackedCoord::pack(movePair.1.0 as int, movePair.1.1 as int),
            r == Self::join(r.start(), r.end()),
    {
        let s = PackedCoord::new_from_Coord(movePair.0);
        let e = PackedCoord::new_from_Coord(movePair.1);
        Self::new_from_packed(s, e)
    }

    /// The move from `start` to `end`.
    pub fn new_from_packed(start: PackedCoord, end: PackedCoord) -> (r: Self)
        ensures
            r == Self::join(start, end),
            r.start() == start,
            r.end() == end,
    {
        let hi: u16 = start.data as u16;
        let lo: u16 = end.data as u16;
        PackedMove { data: hi * 256 + lo }
    }

    /// The letter for `x_val`: `a` for 0 up to `j` for 9.
    pub fn getLetter(x_val: u16) -> (c: char)
        requires
            x_val < 10,
        ensures
            c == letter_of(x_val as int),
    {
        (97u8 + x_val as u8) as char
    }

    /// The tile on the square that the move leaves.
    pub fn indexStart<'a>(arr: &'a TileGrid, ind: &PackedMove) -> (t: &'a Tile)
        requires
            ind.start().on_board(),
        ensures
            *t == arr[ind.start().y() as int][ind.start().x() as int],
    {
        let s = ind.start();
        &arr[s.y()][s.x()]
    }

    /// The tile on the square that the move leaves, to be written.
    pub fn indexStartMut<'a>(arr: &'a mut TileGrid, ind: &PackedMove) -> (t: &'a mut Tile)
        requires
            ind.start().on_board(),
        ensures
            *t == old(arr)[ind.start().y() as int][ind.start().x() as int],
            grid_written(*old(arr), *final(arr), ind.start().x() as int, ind.start().y() as int, *final(t)),
    {
        let s = ind.start();
        &mut arr[s.y()][s.x()]
    }

    /// The tile on the square that the move reaches.
    pub fn indexEnd<'a>(arr: &'a TileGrid, ind: &PackedMove) -> (t: &'a Tile)
        requires
            ind.end().on_board(),
        ensures
            *t == arr[ind.end().y() as int][ind.end().x() as int],
    {
        let e = ind.end();
        &arr[e.y()][e.x()]
    }

    /// The tile on the square that the move reaches, to be written.
    pub fn indexEndMut<'a>(arr: &'a mut TileGrid, ind: &PackedMove) -> (t: &'a mut Tile)
        requires
            ind.end().on_board(),
        ensures
            *t == old(arr)[ind.end().y() as int][ind.end().x() as int],
            grid_written(*old(arr), *final(arr), ind.end().x() as int, ind.end().y() as int, *final(t)),
    {
        let e = ind.end();
        &mut arr[e.y()][e.x()]
    }

    /// The square that the move leaves.
    #[verifier::when_used_as_spec(spec_start)]
    pub fn start(&self) -> (r: PackedCoord)
        ensures
            r == self.spec_start(),
    {
        PackedCoord { data: (self.data / 256) as u8 }
    }

    /// The square that the move reaches.
    #[verifier::when_used_as_spec(spec_end)]
    pub fn end(&self) -> (r: PackedCoord)
        ensures
            r == self.spec_end(),
    {
        PackedCoord { data: (self.data % 256) as u8 }
    }

    /// Whether the move takes its piece off the board.
    #[verifier::when_used_as_spec(spec_killsPiece)]
    pub fn killsPiece(&self) -> (b: bool)
        ensures
            b == self.spec_killsPiece(),
            b == self.end().is_dead(),
    {
        self.data % 256 == 255
    }

    /// The text of the move.
    pub fn to_string(&self) -> (s: String)
        requires
            self.start().y() < 10,
            self.end().y() < 10,
        ensures
            s@ == self.text(),
    {
        let mut out = String::new();
        let s = self.start();
        let e = self.end();
        out.push(Self::getLetter(s.y() as u16));
        push_decimal(&mut out, (s.x() + 1) as u32);
        out.push(Self::getLetter(e.y() as u16));
        push_decimal(&mut out, (e.x() + 1) as u32);
        proof {
            assert(out@ =~= self.text());
        }
        out
    }
}

/// A move is made of its two squares, and two moves with the same squares are
/// the same move.
pub proof fn lemma_move_parts(m: PackedMove, s: PackedCoord, e: PackedCoord)
    ensures
        PackedMove::join(m.start(), m.end()) == m,
        PackedMove::join(s, e).start() == s,
        PackedMove::join(s, e).end() == e,
{
}

/// The square that a letter and a digit name in a move's text: the letter
/// gives `y` (`a` for 0 up to `j` for 9), the digit gives `x + 1`.
pub open spec fn square_of_text(letter: char, digit: char) -> Option<PackedCoord> {
    if 'a' <= letter && letter <= 'j' && '1' <= digit && digit <= '9' {
        Some(PackedCoord::pack(digit as int - 49, letter as int - 97))
    } else {
        None
    }
}

/// The move that the text `s` names, where it names one: four characters,
/// a letter and a digit for each of the two squares.
pub open spec fn move_of_text(s: Seq<char>) -> Option<PackedMove> {
    if s.len() != 4 {
        None
    } else {
        match (square_of_text(s[0], s[1]), square_of_text(s[2], s[3])) {
            (Some(start), Some(end)) => Some(PackedMove::join(start, end)),
            _ => None,
        }
    }
}

/// The square that a letter and a digit name.
fn square_from_text(letter: char, digit: char) -> (r: Option<PackedCoord>)
    ensures
        r == square_of_text(letter, digit),
{
    if 'a' <= letter && letter <= 'j' && '1' <= digit && digit <= '9' {
        let x: usize = (digit as u32 - 49) as usize;
        let y: usize = (letter as u32 - 97) as usize;
        Some(PackedCoord::new_from_usize(x, y))
    } else {
        None
    }
}

impl PackedMove {
    /// The move that `text` names, or `None` where it names none.
    pub fn new_from_text(text: &str) -> (r: Option<Self>)
        ensures
            r == move_of_text(text@),
    {
        let chars = chars_of(text);
        if chars.len() != 4 {
            return None;
        }
        match (square_from_text(chars[0], chars[1]), square_from_text(chars[2], chars[3])) {
            (Some(start), Some(end)) => Some(Self::new_from_packed(start, end)),
            _ => None,
        }
    }

    /// The text of a move between two squares of the board names that move.
    pub proof fn lemma_text_names_move(&self)
        requires
            self.on_board(),
        ensures
            move_of_text(self.text()) == Some(*self),
    {
        let s = self.start();
        let e = self.end();
        let t = self.text();
        assert(decimal((s.x() + 1) as nat) =~= seq![crate::board::decimal::digit_char(
            (s.x() + 1) as nat,
        )]);
        assert(decimal((e.x() + 1) as nat) =~= seq![crate::board::decimal::digit_char(
            (e.x() + 1) as nat,
        )]);
        assert(t.len() == 4);
        assert(t[0] == letter_of(s.y() as int));
        assert(t[1] == crate::board::decimal::digit_char((s.x() + 1) as nat));
        assert(t[2] == letter_of(e.y() as int));
        assert(t[3] == crate::board::decimal::digit_char((e.x() + 1) as nat));
        lemma_pack_unpack(s.x() as int, s.y() as int, s);
        lemma_pack_unpack(e.x() as int, e.y() as int, e);
        lemma_move_parts(*self, s, e);
    }
}

} // verus!
