//! Pieces, their letters, and the roster of one side.
use vstd::prelude::*;
use crate::board::packedmove::{PackedCoord, DEAD_PIECE_BYTE};

verus! {

/// The seven kinds of piece.
#[derive(Clone, Copy, PartialEq, Eq, Hash, Debug, Structural)]
pub enum PieceType {
    Pawn,
    Advisor,
    Elephant,
    Horse,
    Cannon,
    Rook,
    King,
}

/// A piece: its kind, its side, and where it stands.
#[derive(Clone, Copy, PartialEq, Eq, Hash, Debug, Structural)]
pub struct Piece {
    pub pieceType: PieceType,
    pub isRed: bool,
    pub loc: PackedCoord,
}

/// The kind that the letter `c` writes, in either case; `n` also writes a horse.
pub open spec fn kind_of_letter(c: char) -> Option<PieceType> {
    if c == 'p' || c == 'P' {
        Some(PieceType::Pawn)
    } else if c == 'a' || c == 'A' {
        Some(PieceType::Advisor)
    } else if c == 'e' || c == 'E' {
        Some(PieceType::Elephant)
    } else if c == 'h' || c == 'H' || c == 'n' || c == 'N' {
        Some(PieceType::Horse)
    } else if c == 'c' || c == 'C' {
        Some(PieceType::Cannon)
    } else if c == 'r' || c == 'R' {
        Some(PieceType::Rook)
    } else if c == 'k' || c == 'K' {
        Some(PieceType::King)
    } else {
        None
    }
}

/// Whether `c` is an upper-case ASCII letter, which is how Red's pieces are written.
pub open spec fn is_upper(c: char) -> bool {
    'A' <= c && c <= 'Z'
}

/// The letter of a piece of kind `kind`: lower case for Black, upper case for Red.
pub open spec fn letter_of_piece(kind: PieceType, red: bool) -> char {
    match kind {
        PieceType::Pawn => if red { 'P' } else { 'p' },
        PieceType::Advisor => if red { 'A' } else { 'a' },
        PieceType::Elephant => if red { 'E' } else { 'e' },
        PieceType::Horse => if red { 'H' } else { 'h' },
        PieceType::Cannon => if red { 'C' } else { 'c' },
        PieceType::Rook => if red { 'R' } else { 'r' },
        PieceType::King => if red { 'K' } else { 'k' },
    }
}

/// Whether `c` is one of the fourteen letters that can stand on a square.
pub open spec fn is_piece_letter(c: char) -> bool {
    kind_of_letter(c) is Some && c != 'n' && c != 'N'
}

/// A piece letter is the letter of its kind and side, and the other way round.
pub proof fn lemma_letters(c: char, kind: PieceType, red: bool)
    ensures
        is_piece_letter(c) ==> letter_of_piece(kind_of_letter(c)->0, is_upper(c)) == c,
        is_piece_letter(letter_of_piece(kind, red)),
        kind_of_letter(letter_of_piece(kind, red)) == Some(kind),
        is_upper(letter_of_piece(kind, red)) == red,
{
}

/// The kind of the letter `c`, or `None` where `c` writes no piece.
pub fn kind_from_letter(c: char) -> (r: Option<PieceType>)
    ensures
        r == kind_of_letter(c),
{
    match c {
        'p' | 'P' => Some(PieceType::Pawn),
        'a' | 'A' => Some(PieceType::Advisor),
        'e' | 'E' => Some(PieceType::Elephant),
        'h' | 'H' | 'n' | 'N' => Some(PieceType::Horse),
        'c' | 'C' => Some(PieceType::Cannon),
        'r' | 'R' => Some(PieceType::Rook),
        'k' | 'K' => Some(PieceType::King),
        _ => None,
    }
}

/// Whether `c` is an upper-case ASCII letter.
pub fn letter_is_upper(c: char) -> (b: bool)
    ensures
        b == is_upper(c),
{
    'A' <= c && c <= 'Z'
}

impl Piece {
    /// The piece that the letter `cara` writes, standing on `newLocation`.
    pub fn new(cara: char, newLocation: PackedCoord) -> (r: Self)
        requires
            kind_of_letter(cara) is Some,
        ensures
            r.pieceType == kind_of_letter(cara)->0,
            r.isRed == is_upper(cara),
            r.loc == newLocation,
    {
        let red = letter_is_upper(cara);
        match kind_from_letter(cara) {
            Some(kind) => Piece { pieceType: kind, isRed: red, loc: newLocation },
            None => Piece { pieceType: PieceType::Pawn, isRed: red, loc: newLocation },
        }
    }

    pub open spec fn spec_getChar(&self) -> char {
        letter_of_piece(self.pieceType, self.isRed)
    }

    /// The letter of the piece.
    #[verifier::when_used_as_spec(spec_getChar)]
    pub fn getChar(&self) -> (c: char)
        ensures
            c == letter_of_piece(self.pieceType, self.isRed),
    {
        match self.pieceType {
            PieceType::Pawn => if self.isRed { 'P' } else { 'p' },
            PieceType::Advisor => if self.isRed { 'A' } else { 'a' },
            PieceType::Elephant => if self.isRed { 'E' } else { 'e' },
            PieceType::Horse => if self.isRed { 'H' } else { 'h' },
            PieceType::Cannon => if self.isRed { 'C' } else { 'c' },
            PieceType::Rook => if self.isRed { 'R' } else { 'r' },
            PieceType::King => if self.isRed { 'K' } else { 'k' },
        }
    }

    /// The letter of the piece, as a string.
    pub fn to_string(&self) -> (s: String)
        ensures
            s@ == seq![letter_of_piece(self.pieceType, self.isRed)],
    {
        let mut out = String::new();
        out.push(self.getChar());
        proof {
            assert(out@ =~= seq![letter_of_piece(self.pieceType, self.isRed)]);
        }
        out
    }
}

/// Where the pieces of one side stand. A captured piece keeps its slot, which
/// then holds the dead coordinate.
#[derive(Clone, Copy, PartialEq, Eq, Hash, Debug)]
pub struct PieceSet {
    pub King: PackedCoord,
    pub Rooks: [PackedCoord; 2],
    pub Cannons: [PackedCoord; 2],
    pub Horses: [PackedCoord; 2],
    pub Elephants: [PackedCoord; 2],
    pub Advisors: [PackedCoord; 2],
    pub Pawns: [PackedCoord; 5],
}

/// The kind of the piece in slot `i` of a roster, in the order in which the
/// roster is walked: rooks, cannons, horses, elephants, pawns, king, advisors.
pub open spec fn slot_kind(i: int) -> PieceType {
    if i < 2 {
        PieceType::Rook
    } else if i < 4 {
        PieceType::Cannon
    } else if i < 6 {
        PieceType::Horse
    } else if i < 8 {
        PieceType::Elephant
    } else if i < 13 {
        PieceType::Pawn
    } else if i == 13 {
        PieceType::King
    } else {
        PieceType::Advisor
    }
}

impl PieceSet {
    /// The coordinate in slot `i`, for `i` from 0 to 15.
    pub open spec fn slot(&self, i: int) -> PackedCoord {
        if i == 0 {
            self.Rooks[0]
        } else if i == 1 {
            self.Rooks[1]
        } else if i == 2 {
            self.Cannons[0]
        } else if i == 3 {
            self.Cannons[1]
        } else if i == 4 {
            self.Horses[0]
        } else if i == 5 {
            self.Horses[1]
        } else if i == 6 {
            self.Elephants[0]
        } else if i == 7 {
            self.Elephants[1]
        } else if 8 <= i < 13 {
            self.Pawns[i - 8]
        } else if i == 13 {
            self.King
        } else if i == 14 {
            self.Advisors[0]
        } else {
            self.Advisors[1]
        }
    }

    /// The piece in slot `i`, for a roster of the side `red`.
    pub open spec fn piece(&self, red: bool, i: int) -> Piece {
        Piece { pieceType: slot_kind(i), isRed: red, loc: self.slot(i) }
    }

    /// The pieces on the board in the slots from `i` on, in slot order.
    pub open spec fn live_from(&self, red: bool, i: int) -> Seq<Piece>
        decreases 16 - i,
    {
        if i >= 16 {
            Seq::empty()
        } else if self.slot(i).is_dead() {
            self.live_from(red, i + 1)
        } else {
            seq![self.piece(red, i)] + self.live_from(red, i + 1)
        }
    }

    /// The pieces of the roster that are on the board, in slot order.
    pub open spec fn live(&self, red: bool) -> Seq<Piece> {
        self.live_from(red, 0)
    }

    /// At most sixteen pieces are on the board, one for each slot.
    pub proof fn lemma_live_len(&self, red: bool, i: int)
        requires
            0 <= i,
        ensures
            self.live_from(red, i).len() <= 16,
            i <= 16 ==> self.live_from(red, i).len() <= 16 - i,
        decreases 16 - i,
    {
        if i < 16 {
            self.lemma_live_len(red, i + 1);
        }
    }

    /// The coordinate in slot `i`.
    pub fn slot_at(&self, i: usize) -> (r: PackedCoord)
        requires
            i < 16,
        ensures
            r == self.slot(i as int),
    {
        if i < 2 {
            self.Rooks[i]
        } else if i < 4 {
            self.Cannons[i - 2]
        } else if i < 6 {
            self.Horses[i - 4]
        } else if i < 8 {
            self.Elephants[i - 6]
        } else if i < 13 {
            self.Pawns[i - 8]
        } else if i == 13 {
            self.King
        } else {
            self.Advisors[i - 14]
        }
    }
}

/// The kind of the piece in slot `i`.
pub fn kind_of_slot(i: usize) -> (k: PieceType)
    ensures
        k == slot_kind(i as int),
{
    if i < 2 {
        PieceType::Rook
    } else if i < 4 {
        PieceType::Cannon
    } else if i < 6 {
        PieceType::Horse
    } else if i < 8 {
        PieceType::Elephant
    } else if i < 13 {
        PieceType::Pawn
    } else if i == 13 {
        PieceType::King
    } else {
        PieceType::Advisor
    }
}

impl Default for PieceSet {
    /// A roster with every piece off the board.
    fn default() -> (r: Self)
        ensures
            forall|i: int| 0 <= i < 16 ==> r.slot(i).is_dead(),
    {
        let d = PackedCoord { data: DEAD_PIECE_BYTE };
        Self {
            King: d,
            Rooks: [d, d],
            Cannons: [d, d],
            Horses: [d, d],
            Elephants: [d, d],
            Advisors: [d, d],
            Pawns: [d, d, d, d, d],
        }
    }
}

/// Walks the pieces of a roster that are on the board, in slot order.
pub struct PieceSetIterator<'a> {
    pub index: usize,
    pub isRed: bool,
    pub setRef: &'a PieceSet,
}

impl<'a> PieceSetIterator<'a> {
    pub fn new(set: &'a PieceSet, is_red: bool) -> (r: Self)
        ensures
            r.index == 0,
            r.isRed == is_red,
            r.setRef == set,
            r.remaining() == set.live(is_red),
    {
        Self { index: 0, isRed: is_red, setRef: set }
    }

    /// The pieces that are still to come.
    pub open spec fn remaining(&self) -> Seq<Piece> {
        self.setRef.live_from(self.isRed, self.index as int)
    }

    /// Hands out the next piece that is on the board, or `None` when there is none left.
    pub fn next(&mut self) -> (r: Option<Piece>)
        ensures
            final(self).isRed == old(self).isRed,
            final(self).setRef == old(self).setRef,
            final(self).index <= 16 || final(self).index == old(self).index,
            old(self).index <= final(self).index,
            old(self).remaining().len() == 0 ==> r is None && final(self).remaining().len() == 0,
            old(self).remaining().len() > 0 ==> {
                &&& r == Some(old(self).remaining()[0])
                &&& final(self).remaining() == old(self).remaining().drop_first()
                &&& old(self).index < final(self).index <= 16
                &&& r->0 == old(self).setRef.piece(old(self).isRed, final(self).index - 1)
                &&& !r->0.loc.is_dead()
            },
    {
        while self.index < 16
            invariant
                self.isRed == old(self).isRed,
                self.setRef == old(self).setRef,
                old(self).index <= self.index,
                self.index <= 16 || self.index == old(self).index,
                self.remaining() == old(self).remaining(),
            decreases 16 - self.index,
        {
            let loc = self.setRef.slot_at(self.index);
            let kind = kind_of_slot(self.index);
            self.index += 1;
            if loc.data != DEAD_PIECE_BYTE {
                proof {
                    assert(old(self).remaining().drop_first() =~= self.remaining());
                }
                return Some(Piece { pieceType: kind, isRed: self.isRed, loc: loc });
            }
        }
        None
    }

    /// The number of pieces that are still to come.
    pub fn count(self) -> (n: usize)
        ensures
            n == self.remaining().len(),
    {
        let mut it = self;
        let mut n: usize = 0;
        proof {
            self.setRef.lemma_live_len(self.isRed, self.index as int);
        }
        loop
            invariant
                n + it.remaining().len() == self.remaining().len(),
                self.remaining().len() <= 16,
            ensures
                n == self.remaining().len(),
            decreases it.remaining().len(),
        {
            match it.next() {
                Some(_) => {
                    n += 1;
                },
                None => {
                    break;
                },
            }
        }
        n
    }
}

} // verus!
