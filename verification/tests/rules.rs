use liyu::board::packedmove::{PackedCoord, PackedMove};
use liyu::board::piece::{Piece, PieceType};
use liyu::board::BoardState;

fn targets(board: &BoardState, kind: PieceType, red: bool, x: usize, y: usize) -> Vec<(usize, usize)> {
    let piece = Piece { pieceType: kind, isRed: red, loc: PackedCoord::new_from_usize(x, y) };
    let mut found: Vec<(usize, usize)> = Vec::new();
    for coord in board.getPieceMoves(&piece, Vec::new()) {
        found.push(coord.makeCoord());
    }
    found
}

fn has_move(board: &BoardState, from: (usize, usize), to: (usize, usize)) -> bool {
    board.getAllMoves().contains(&PackedMove::new_from_Coords((from, to)))
}

#[test]
pub fn pawn_steps_forward_before_the_river() {
    let board = BoardState::new();
    assert_eq!(targets(&board, PieceType::Pawn, true, 0, 3), vec![(0, 4)]);
    assert_eq!(targets(&board, PieceType::Pawn, false, 4, 6), vec![(4, 5)]);
}

#[test]
pub fn pawn_steps_sideways_beyond_the_river() {
    let board = BoardState::new_from_FEN("4k4/9/9/9/4P4/p8/9/9/9/4K4 w - - 0 1");
    assert_eq!(targets(&board, PieceType::Pawn, true, 4, 5), vec![(4, 6), (3, 5), (5, 5)]);
    assert_eq!(targets(&board, PieceType::Pawn, false, 0, 4), vec![(0, 3), (1, 4)]);
    let at_river = BoardState::new_from_FEN("4k4/9/9/9/9/4P4/9/9/9/4K4 w - - 0 1");
    assert_eq!(targets(&at_river, PieceType::Pawn, true, 4, 4), vec![(4, 5)]);
    let last_rank = BoardState::new_from_FEN("P3k4/9/9/9/9/9/9/9/9/4K4 w - - 0 1");
    assert_eq!(targets(&last_rank, PieceType::Pawn, true, 0, 9), vec![(1, 9)]);
}

#[test]
pub fn advisor_stays_in_its_palace() {
    let board = BoardState::new();
    assert_eq!(targets(&board, PieceType::Advisor, true, 3, 0), vec![(4, 1)]);
    let centre = BoardState::new_from_FEN("4k4/9/9/9/9/9/9/9/4A4/4K4 w - - 0 1");
    assert_eq!(
        targets(&centre, PieceType::Advisor, true, 4, 1),
        vec![(3, 2), (5, 2), (3, 0), (5, 0)]
    );
    let black = BoardState::new_from_FEN("3ak4/9/9/9/9/9/9/9/9/4K4 b - - 0 1");
    assert_eq!(targets(&black, PieceType::Advisor, false, 3, 9), vec![(4, 8)]);
}

#[test]
pub fn elephant_does_not_cross_the_river() {
    let board = BoardState::new_from_FEN("4k4/9/9/9/9/2E6/9/9/9/4K4 w - - 0 1");
    assert_eq!(targets(&board, PieceType::Elephant, true, 2, 4), vec![(0, 2), (4, 2)]);
    let start = BoardState::new();
    assert_eq!(targets(&start, PieceType::Elephant, true, 2, 0), vec![(0, 2), (4, 2)]);
    assert_eq!(targets(&start, PieceType::Elephant, false, 6, 9), vec![(4, 7), (8, 7)]);
}

#[test]
pub fn horse_is_hobbled_by_a_neighbour() {
    let start = BoardState::new();
    assert_eq!(targets(&start, PieceType::Horse, true, 1, 0), vec![(0, 2), (2, 2)]);
    let free = BoardState::new_from_FEN("4k4/9/9/9/9/4H4/9/9/9/4K4 w - - 0 1");
    assert_eq!(
        targets(&free, PieceType::Horse, true, 4, 4),
        vec![(3, 6), (5, 6), (2, 5), (2, 3), (3, 2), (5, 2), (6, 5), (6, 3)]
    );
    let hobbled = BoardState::new_from_FEN("4k4/9/9/9/4p4/3PHP3/4P4/9/9/4K4 w - - 0 1");
    assert_eq!(targets(&hobbled, PieceType::Horse, true, 4, 4), Vec::<(usize, usize)>::new());
    let one_way = BoardState::new_from_FEN("4k4/9/9/9/9/3PHP3/4P4/9/9/4K4 w - - 0 1");
    assert_eq!(targets(&one_way, PieceType::Horse, true, 4, 4), vec![(3, 6), (5, 6)]);
}

#[test]
pub fn rook_stops_at_the_first_piece() {
    let board = BoardState::new_from_FEN("4k4/9/9/9/4p4/2P1R4/9/9/9/4K4 w - - 0 1");
    assert_eq!(
        targets(&board, PieceType::Rook, true, 4, 4),
        vec![(4, 5), (3, 4), (5, 4), (6, 4), (7, 4), (8, 4), (4, 3), (4, 2), (4, 1)]
    );
}

#[test]
pub fn cannon_captures_over_exactly_one_screen() {
    let board = BoardState::new_from_FEN("4k4/4p4/4p4/9/9/4C4/9/9/9/4K4 w - - 0 1");
    let found = targets(&board, PieceType::Cannon, true, 4, 4);
    assert!(found.contains(&(4, 5)));
    assert!(found.contains(&(4, 6)));
    assert!(!found.contains(&(4, 7)));
    assert!(found.contains(&(4, 8)));
    assert!(!found.contains(&(4, 9)));
    assert!(!found.contains(&(4, 0)));
    assert_eq!(found.len(), 2 + 4 + 4 + 3 + 1);
    let own_behind = BoardState::new_from_FEN("4k4/9/4P4/4p4/9/4C4/9/9/9/4K4 w - - 0 1");
    assert!(!targets(&own_behind, PieceType::Cannon, true, 4, 4).contains(&(4, 7)));
}

#[test]
pub fn king_stays_in_its_palace() {
    let board = BoardState::new_from_FEN("3k5/9/9/9/9/9/9/9/9/5K3 w - - 0 1");
    assert_eq!(targets(&board, PieceType::King, true, 5, 0), vec![(5, 1), (4, 0)]);
    let black = BoardState::new_from_FEN("3k5/9/9/9/9/9/9/9/9/5K3 b - - 0 1");
    assert_eq!(targets(&black, PieceType::King, false, 3, 9), vec![(3, 8), (4, 9)]);
}

#[test]
pub fn king_may_face_the_other_king_behind_a_piece() {
    let open = BoardState::new_from_FEN("3k5/9/9/9/9/9/9/9/9/4K4 w - - 0 1");
    assert!(!has_move(&open, (4, 0), (3, 0)));
    assert!(open.shyKing(3, 0, true));
    let screened = BoardState::new_from_FEN("3k5/9/9/3p5/9/9/9/9/9/4K4 w - - 0 1");
    assert!(has_move(&screened, (4, 0), (3, 0)));
    assert!(!screened.shyKing(3, 0, true));
    let black = BoardState::new_from_FEN("4k4/9/9/9/9/9/9/9/9/3K5 b - - 0 1");
    assert!(!has_move(&black, (4, 9), (3, 9)));
    assert!(has_move(&black, (4, 9), (5, 9)));
}

#[test]
pub fn no_move_lands_on_an_own_piece() {
    let board = BoardState::new();
    for packed in board.getAllMoves() {
        let (x, y) = packed.end().makeCoord();
        assert!(!board.IsSameColour(x, y, true));
        let (sx, sy) = packed.start().makeCoord();
        assert!(board.IsSameColour(sx, sy, true));
    }
}

#[test]
pub fn check_is_seen() {
    let quiet = BoardState::new();
    assert!(!quiet.isInCheck());
    let rook = BoardState::new_from_FEN("R3k4/9/9/9/9/9/9/9/9/5K3 b - - 0 1");
    assert!(rook.isInCheck());
    let screened = BoardState::new_from_FEN("R2ak4/9/9/9/9/9/9/9/9/5K3 b - - 0 1");
    assert!(!screened.isInCheck());
    let cannon = BoardState::new_from_FEN("C2ak4/9/9/9/9/9/9/9/9/5K3 b - - 0 1");
    assert!(cannon.isInCheck());
}

#[test]
pub fn branch_counts_pieces() {
    let board = BoardState::new_from_FEN("4k4/9/9/9/4p4/4R4/9/9/9/4K4 w - - 0 3");
    assert_eq!(board.plyNumber, 4);
    let quiet = board.branch(PackedMove::new_from_Coords(((4, 4), (3, 4))));
    assert_eq!(quiet.IteratePieces(true).count(), 2);
    assert_eq!(quiet.IteratePieces(false).count(), 2);
    assert!(!quiet.isRedTurn);
    assert_eq!(quiet.plyNumber, 5);
    let capture = board.branch(PackedMove::new_from_Coords(((4, 4), (4, 5))));
    assert_eq!(capture.IteratePieces(true).count(), 2);
    assert_eq!(capture.IteratePieces(false).count(), 1);
    assert_eq!(capture.writeFEN(), "4k4/9/9/9/4R4/9/9/9/9/4K4 b - - 0 3");
    assert!(capture.hasKing());
    assert_eq!(board.writeFEN(), "4k4/9/9/9/4p4/4R4/9/9/9/4K4 w - - 0 3");
}

#[test]
pub fn taking_the_king_leaves_the_side_without_one() {
    let board = BoardState::new_from_FEN("R3k4/9/9/9/9/9/9/9/9/5K3 w - - 0 1");
    let after = board.branch(PackedMove::new_from_Coords(((0, 9), (4, 9))));
    assert!(!after.hasKing());
    assert_eq!(after.getValue(), liyu::engine::score::RED_WON());
}

#[test]
pub fn moves_that_cannot_be_played_are_refused() {
    let board = BoardState::new();
    assert!(board.try_branch(PackedMove::new_from_Coords(((0, 4), (0, 5)))).is_none());
    assert!(board.try_branch(PackedMove::new_from_Coords(((0, 6), (0, 5)))).is_none());
    assert!(board.try_branch(PackedMove::new_from_Coords(((0, 0), (1, 0)))).is_none());
    assert!(board.try_branch(PackedMove::new_from_Coords(((0, 0), (9, 0)))).is_none());
    assert!(board.try_branch(PackedMove::new_from_packed(
        PackedCoord::new_from_usize(0, 3),
        PackedCoord::dead()
    ))
    .is_none());
    let moved = board.try_branch(PackedMove::new_from_Coords(((0, 3), (0, 4))));
    assert_eq!(moved, Some(board.branch(PackedMove::new_from_Coords(((0, 3), (0, 4))))));
    assert!(board.can_play(PackedMove::new_from_Coords(((1, 2), (1, 9)))));
}

#[test]
pub fn misplaced_pieces_are_noticed() {
    assert!(BoardState::new().pieces_in_place());
    let elephant = BoardState::new_from_FEN("4k4/9/9/9/9/9/9/9/3E5/4K4 w - - 0 1");
    assert!(!elephant.pieces_in_place());
    let advisor = BoardState::new_from_FEN("4k4/9/9/9/9/9/3A5/9/9/4K4 w - - 0 1");
    assert!(!advisor.pieces_in_place());
}

#[test]
pub fn picture_of_the_start() {
    let board = BoardState::new();
    assert_eq!(
        board.Display(),
        "rheakaehr\n---------\n-c-----c-\np-p-p-p-p\n---------\n---------\nP-P-P-P-P\n-C-----C-\n---------\nRHEAKAEHR\n"
    );
}

#[test]
pub fn tiles_are_walked_rank_by_rank() {
    let board = BoardState::new();
    let mut walk = board.IterateTiles();
    let first = walk.next().unwrap();
    assert_eq!(first.0, (0, 0));
    assert_eq!(first.1.pieceIndex.asChar(), 'R');
    let second = walk.next().unwrap();
    assert_eq!(second.0, (1, 0));
    assert!(second.1.hasPiece());
    let mut last = second;
    let mut seen = 2;
    loop {
        match walk.next() {
            Some(item) => {
                last = item;
                seen += 1;
            }
            None => break,
        }
    }
    assert_eq!(seen, 90);
    assert_eq!(last.0, (8, 9));
    assert_eq!(last.1.pieceIndex.asChar(), 'r');
    assert!(walk.next().is_none());
}

#[test]
pub fn rays_leave_a_square_in_four_directions() {
    let board = BoardState::new();
    let mut rays = board.GetRaysFrom(1, 2);
    let up = rays.next().unwrap();
    assert_eq!(up.len(), 7);
    assert_eq!(up[0].0, (1, 3));
    assert!(!up[0].1.hasPiece());
    assert_eq!(up[6].0, (1, 9));
    assert_eq!(up[6].1.pieceIndex.asChar(), 'h');
    let left = rays.next().unwrap();
    assert_eq!(left.len(), 1);
    assert_eq!(left[0].0, (0, 2));
    let right = rays.next().unwrap();
    assert_eq!(right.len(), 7);
    assert_eq!(right[5].0, (7, 2));
    assert_eq!(right[5].1.pieceIndex.asChar(), 'C');
    let down = rays.next().unwrap();
    assert_eq!(down.len(), 2);
    assert_eq!(down[1].0, (1, 0));
    assert!(rays.next().is_none());
}

#[test]
pub fn pieces_are_walked_in_slot_order() {
    let board = BoardState::new();
    let mut walk = board.IteratePieces(false);
    let first = walk.next().unwrap();
    assert_eq!(first.pieceType, PieceType::Rook);
    assert_eq!(first.loc.makeCoord(), (0, 9));
    assert!(!first.isRed);
    let after_capture = BoardState::new_from_FEN("4k4/9/9/9/9/9/9/9/9/4K4 w - - 0 1");
    let mut only = after_capture.IteratePieces(true);
    assert_eq!(only.next().unwrap().pieceType, PieceType::King);
    assert!(only.next().is_none());
}

#[test]
pub fn packed_squares_and_moves() {
    let coord = PackedCoord::new_from_Coord((8, 9));
    assert_eq!(coord.data, 0x89);
    assert_eq!(coord.makeCoord(), (8, 9));
    assert_eq!(coord.x(), 8);
    assert_eq!(coord.y(), 9);
    let packed = PackedMove::new_from_Coords(((8, 9), (0, 3)));
    assert_eq!(packed.data, 0x8903);
    assert_eq!(packed.start(), coord);
    assert_eq!(packed.end(), PackedCoord::new_from_usize(0, 3));
    assert!(!packed.killsPiece());
    assert_eq!(packed.to_string(), "j9d1");
    let kill = PackedMove::new_from_packed(coord, PackedCoord::dead());
    assert!(kill.killsPiece());
    assert_eq!(PackedMove::new().data, 0);
    assert_eq!(PackedMove::getLetter(9), 'j');
    let board = BoardState::new();
    assert_eq!(PackedMove::indexStart(&board.squares, &packed).pieceIndex.asChar(), 'r');
    assert_eq!(PackedMove::indexEnd(&board.squares, &packed).pieceIndex.asChar(), 'P');
}

#[test]
pub fn move_text_is_read_back() {
    let board = BoardState::new();
    for packed in board.getAllMoves() {
        assert_eq!(PackedMove::new_from_text(&packed.to_string()), Some(packed));
    }
    assert_eq!(
        PackedMove::new_from_text("a1b1"),
        Some(PackedMove::new_from_Coords(((0, 0), (0, 1))))
    );
    assert_eq!(
        PackedMove::new_from_text("j9a1"),
        Some(PackedMove::new_from_Coords(((8, 9), (0, 0))))
    );
    assert_eq!(PackedMove::new_from_text("a1b"), None);
    assert_eq!(PackedMove::new_from_text("a1b1c"), None);
    assert_eq!(PackedMove::new_from_text("k1b1"), None);
    assert_eq!(PackedMove::new_from_text("a0b1"), None);
    assert_eq!(PackedMove::new_from_text("A1b1"), None);
    assert_eq!(PackedMove::new_from_text("a1b:"), None);
}
