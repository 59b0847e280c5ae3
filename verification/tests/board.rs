use liyu::board::fen::FenError;
use liyu::board::packedmove::{PackedCoord, PackedMove, DEAD_PIECE_PACKEDCOORD};
use liyu::board::piece::{Piece, PieceType};
use liyu::board::tile::{PieceIndex, Tile};
use liyu::board::{BoardState, DEAD_PIECE_COORD, STARTING_POSITION_FEN};

#[test]
pub fn FEN_starting_position() {
    let starting_board = BoardState::new();
    assert_eq!(starting_board.writeFEN(), STARTING_POSITION_FEN);
}

#[test]
pub fn ruleset_starting_position() {
    let starting_board = BoardState::new();
    let cnt = starting_board.countMoves();
    if cnt != 44 {
        println!("Inaccurate move count. Expected 44, got {}", cnt);
        for packedMove in starting_board.getAllMoves() {
            println!("{}", packedMove.to_string());
        }
        panic!("Wrong move count!");
    }
}

#[test]
pub fn ruleset_branch() {
    let mut starting_board = BoardState::new();
    starting_board = starting_board.branch(PackedMove::new_from_Coords(((0, 3), (0, 4))));
    assert_eq!(
        starting_board.writeFEN(),
        "rheakaehr/9/1c5c1/p1p1p1p1p/9/P8/2P1P1P1P/1C5C1/9/RHEAKAEHR b - - 0 1"
    );
}

#[test]
pub fn ruleset_shy_general() {
    let board = BoardState::new_from_FEN("3k5/9/9/4p4/9/9/4P4/9/9/4K4 w - - 0 1");
    assert_eq!(board.countMoves(), 3);
}

#[test]
pub fn iterator_asserts() {
    let starting_board = BoardState::new();
    assert_eq!(starting_board.IterateTiles().count(), 90);
    assert_eq!(starting_board.IteratePieces(starting_board.isRedTurn).count(), 16);
}

#[test]
pub fn packedmove_test() {
    let packer: PackedMove = PackedMove::new_from_Coords(((0, 0), (0, 1)));
    assert_eq!(packer.to_string(), "a1b1");
}

#[test]
pub fn packedcoord_asserts() {
    let packer: PackedCoord = PackedCoord::new_from_Coord(DEAD_PIECE_COORD);
    assert_eq!(DEAD_PIECE_PACKEDCOORD().data, 255u8);
    assert_eq!(packer.data, 255u8);
    assert_eq!(PackedCoord::dead().data, 0xFF);
}

#[test]
pub fn start_equals_parsed_start() {
    assert_eq!(BoardState::new(), BoardState::new_from_FEN(STARTING_POSITION_FEN));
}

#[test]
pub fn fen_errors() {
    assert_eq!(BoardState::try_from_FEN("9/9/9").err(), Some(FenError::RankCount));
    assert_eq!(BoardState::try_from_FEN("8/9/9/9/9/9/9/9/9/9 w").err(), Some(FenError::RankWidth));
    assert_eq!(
        BoardState::try_from_FEN("rrr6/9/9/9/9/9/9/9/9/9 w").err(),
        Some(FenError::TooManyPieces)
    );
    assert_eq!(
        BoardState::try_from_FEN("4k4/9/9/9/9/9/9/9/9/4K4").err(),
        Some(FenError::MissingSideToMove)
    );
    assert_eq!(
        BoardState::try_from_FEN("4k4/9/9/9/9/9/9/9/9/4K4 x - - 0 1").err(),
        Some(FenError::BadSideToMove)
    );
    assert_eq!(
        BoardState::try_from_FEN("4k4/9/9/9/9/9/9/9/9/4K4 w - - 0 0").err(),
        Some(FenError::BadMoveNumber)
    );
    assert_eq!(
        BoardState::try_from_FEN("4k4/9/9/9/9/9/9/9/9/9 w - - 0 1").err(),
        Some(FenError::MissingKing)
    );
}

#[test]
pub fn fen_round_trips() {
    for text in [
        "R3k4/R8/9/9/9/9/9/9/9/5K3 b - - 0 22",
        "3k5/9/9/4p4/9/9/4P4/9/9/4K4 w - - 0 1",
        "2eakaer1/4h4/4H1h2/p1P1p1p1p/9/8P/P5P2/E3C1H1C/6r2/3AKAE1R w - - 0 22",
    ] {
        assert_eq!(BoardState::new_from_FEN(text).writeFEN(), text);
    }
    let b = BoardState::new_from_FEN("1rbakabCr/9/4c2c1/p1p1p1p1p/9/9/P1P1P1P1P/9/9/RNBAKABNR b - - 0 3");
    assert_eq!(b.writeFEN(), "1reakaeCr/9/4c2c1/p1p1p1p1p/9/9/P1P1P1P1P/9/9/RHEAKAEHR b - - 0 3");
    assert_eq!(b.plyNumber, 5);
    assert!(!b.isRedTurn);
}

#[test]
pub fn piece_letters() {
    let p = Piece::new('n', PackedCoord::new_from_usize(1, 9));
    assert_eq!(p.pieceType, PieceType::Horse);
    assert!(!p.isRed);
    assert_eq!(p.getChar(), 'h');
    assert_eq!(Piece::new('K', PackedCoord::new_from_usize(4, 0)).to_string(), "K");
}

#[test]
pub fn loading_replaces_the_position_or_leaves_it() {
    let mut board = BoardState::new();
    assert_eq!(board.loadFEN("3k5/9/9/4p4/9/9/4P4/9/9/4K4 b - - 0 7"), Ok(()));
    assert_eq!(board.writeFEN(), "3k5/9/9/4p4/9/9/4P4/9/9/4K4 b - - 0 7");
    assert_eq!(board.plyNumber, 13);
    let before = board;
    assert_eq!(board.loadFEN("3k5/9/9 w"), Err(FenError::RankCount));
    assert_eq!(board, before);
}

#[test]
pub fn text_is_read_leniently_where_it_may_be() {
    let plain = BoardState::new_from_FEN("4k4/9/9/9/9/9/9/9/9/4K4 w");
    assert_eq!(plain.plyNumber, 0);
    assert!(plain.isRedTurn);
    let spaced = BoardState::new_from_FEN("4k4/9/9/9/9/9/9/9/9/4K4 \t R  x   y  12   0003");
    assert_eq!(spaced.plyNumber, 4);
    let zeros = BoardState::new_from_FEN("4k4/9/9/9/0009/9/9/9/9/4K4 B - - 0 2");
    assert_eq!(zeros.plyNumber, 3);
    assert!(!zeros.isRedTurn);
    let ignored = BoardState::new_from_FEN("4k4/9/9/9/9/9/9/9/9/?3K3! w - - 0 1");
    assert_eq!(ignored.writeFEN(), "4k4/9/9/9/9/9/9/9/9/4K4 w - - 0 1");
    assert_eq!(
        BoardState::try_from_FEN("4k4/9/9/9/9/9/9/9/9/4K4 w - - 0 16385").err(),
        Some(FenError::BadMoveNumber)
    );
    assert_eq!(
        BoardState::try_from_FEN("4k4/9/9/9/9/9/9/9/9/4K4 w - - 0 1x").err(),
        Some(FenError::BadMoveNumber)
    );
    assert_eq!(
        BoardState::try_from_FEN("4k4/9/9/9/9/9/9/9/9/4K41 w - - 0 1").err(),
        Some(FenError::RankWidth)
    );
    assert_eq!(
        BoardState::try_from_FEN("4k4/9/9/9/9/9/9/9/9/4K4/ w - - 0 1").err(),
        Some(FenError::RankCount)
    );
    assert_eq!(
        BoardState::try_from_FEN("4k4/9/9/9/9/9/9/9/9/3KK4 w - - 0 1").err(),
        Some(FenError::TooManyPieces)
    );
    assert_eq!(
        BoardState::try_from_FEN("4k4/9/9/9/9/9/pppp1pp2/9/9/4K4 w - - 0 1").err(),
        Some(FenError::TooManyPieces)
    );
    assert_eq!(BoardState::try_from_FEN("").err(), Some(FenError::RankWidth));
}

#[test]
pub fn tiles_hold_and_give_pieces() {
    let mut tile = Tile::new();
    assert!(!tile.hasPiece());
    assert_eq!(tile, Tile::default());
    tile.pieceIndex = PieceIndex::new('c');
    assert!(tile.hasPiece());
    let taken = tile.take();
    assert_eq!(taken.asChar(), 'c');
    assert!(!tile.hasPiece());
    assert_eq!(tile.pieceIndex.asChar(), '\0');
}

#[test]
pub fn negative_ply_is_written_with_its_move_number() {
    let mut board = BoardState::new();
    board.plyNumber = -1;
    assert_eq!(board.writeFEN(), "rheakaehr/9/1c5c1/p1p1p1p1p/9/9/P1P1P1P1P/1C5C1/9/RHEAKAEHR w - - 0 1");
    board.plyNumber = -2;
    assert!(board.writeFEN().ends_with(" w - - 0 0"));
    board.plyNumber = -6;
    assert!(board.writeFEN().ends_with(" w - - 0 -2"));
    board.plyNumber = 32767;
    assert!(board.writeFEN().ends_with(" w - - 0 16384"));
}

#[test]
pub fn written_form_is_read_and_written_back() {
    for text in [
        "rheakaehr/9/1c5c1/p1p1p1p1p/9/9/P1P1P1P1P/1C5C1/9/RHEAKAEHR w - - 0 1",
        "rheakaehr/9/1c5c1/p1p1p1p1p/9/P8/2P1P1P1P/1C5C1/9/RHEAKAEHR b - - 0 1",
        "4k4/9/9/9/9/9/9/9/9/4K4 w - - 0 16384",
        "4k4/9/9/9/9/9/9/9/9/4K4 b - - 0 16384",
        "r1e1k1e1r/ppppp4/9/ccaahh3/9/9/PPPPP4/9/CCAAHH3/R1E1K1E1R b - - 0 100",
        "k8/8K/1r7/7R1/2c6/6C2/3h5/5H3/4p4/4P4 w - - 0 9",
    ] {
        let board = BoardState::new_from_FEN(text);
        assert_eq!(board.writeFEN(), text);
        assert_eq!(BoardState::new_from_FEN(&board.writeFEN()), board);
    }
}
