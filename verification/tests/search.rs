use liyu::board::packedmove::PackedMove;
use liyu::board::BoardState;
use liyu::engine::Engine;
use liyu::engine::score::{ScoreF32, BLACK_WON, INVALID_POS, RED_WON};
use std::cmp::Ordering;

fn plain_minimax(board: &BoardState, depth: i32) -> ScoreF32 {
    if depth == 0 {
        return board.getValue();
    }
    let moves = board.getAllMoves();
    let red = board.isRedTurn;
    let mut best = if red { BLACK_WON() } else { RED_WON() };
    for packed in moves {
        let child = board.branch(packed);
        let value = if !child.hasKing() {
            if red {
                RED_WON()
            } else {
                BLACK_WON()
            }
        } else {
            plain_minimax(&child, depth - 1)
        };
        if (red && value > best) || (!red && value < best) {
            best = value;
        }
    }
    best
}

#[test]
pub fn engine_finds_the_minimax_value() {
    for text in [
        "rheakaehr/9/1c5c1/p1p1p1p1p/9/9/P1P1P1P1P/1C5C1/9/RHEAKAEHR w - - 0 1",
        "1rbakabCr/9/4c2c1/p1p1p1p1p/9/9/P1P1P1P1P/9/9/RNBAKABNR w - - 0 1",
        "4k4/9/9/9/4p4/4R4/9/9/9/4K4 b - - 0 3",
        "R3k4/R8/9/9/9/9/9/9/9/5K3 b - - 0 22",
        "3k5/9/9/4p4/9/9/4P4/9/9/4K4 w - - 0 1",
    ] {
        let board = BoardState::new_from_FEN(text);
        for depth in 1..=3 {
            assert_eq!(Engine::evalToDepth(&board, depth), plain_minimax(&board, depth));
        }
    }
}

#[test]
pub fn no_depth_gives_the_score_zero() {
    let board = BoardState::new();
    assert_eq!(Engine::evalToDepth(&board, 0), ScoreF32::default());
    assert_eq!(Engine::evalToDepth(&board, -3), ScoreF32::default());
    let (_, engine) = Engine::evaluate(&board, 0);
    assert_eq!(engine.nodeCount, 0);
    assert!(engine.recentMoveList.is_empty());
}

#[test]
pub fn a_side_without_a_move_has_lost() {
    let board = BoardState::new_from_FEN("R3k4/9/9/9/9/9/9/9/9/5K3 w - - 0 1");
    let after = board.branch(PackedMove::new_from_Coords(((0, 9), (4, 9))));
    assert_eq!(after.countMoves(), 0);
    assert_eq!(Engine::evalToDepth(&after, 1), RED_WON());
    assert_eq!(Engine::evalToDepth(&after, 2), RED_WON());
    let two = BoardState::new_from_FEN("3k5/9/9/9/9/9/9/9/9/3K5 w - - 0 1");
    assert_eq!(two.countMoves(), 2);
}

#[test]
pub fn searches_that_cannot_be_made_are_refused() {
    let board = BoardState::new();
    assert_eq!(Engine::try_evalToDepth(&board, 1), Some(Engine::evalToDepth(&board, 1)));
    assert_eq!(Engine::try_evalToDepth(&board, 40000), None);
    let late = BoardState::new_from_FEN("4k4/9/9/9/9/9/9/9/9/4K4 b - - 0 16384");
    assert_eq!(late.plyNumber, 32767);
    assert_eq!(Engine::try_evalToDepth(&late, 1), None);
    assert!(late.try_branch(PackedMove::new_from_Coords(((4, 9), (4, 8)))).is_none());
    let elephant = BoardState::new_from_FEN("4k4/9/9/9/9/9/9/9/3E5/4K4 w - - 0 1");
    assert_eq!(Engine::try_evalToDepth(&elephant, 2), None);
}

#[test]
pub fn best_move_is_recorded() {
    let board = BoardState::new_from_FEN("R3k4/9/9/9/9/9/9/9/9/5K3 w - - 0 1");
    let (score, engine) = Engine::evaluate(&board, 1);
    assert_eq!(score, RED_WON());
    assert_eq!(engine.recentMoveList, vec![PackedMove::new_from_Coords(((0, 9), (4, 9)))]);
    assert_eq!(engine.recentMoveList[0].to_string(), "j1j5");
    assert_eq!(engine.nodeCount, 1);
    assert!(engine.startStateIsRed);
}

#[test]
pub fn moves_are_ordered_for_the_search() {
    let board = BoardState::new_from_FEN("4k4/9/9/9/4p4/r3R4/9/9/9/4K4 w - - 0 1");
    let pawn = PackedMove::new_from_Coords(((4, 4), (4, 5)));
    let rook = PackedMove::new_from_Coords(((4, 4), (0, 4)));
    let quiet = PackedMove::new_from_Coords(((4, 4), (5, 4)));
    let king = PackedMove::new_from_Coords(((4, 0), (4, 1)));
    assert_eq!(Engine::sort_moves(&board, false, &rook, &pawn), Ordering::Less);
    assert_eq!(Engine::sort_moves(&board, false, &pawn, &rook), Ordering::Greater);
    assert_eq!(Engine::sort_moves(&board, false, &pawn, &quiet), Ordering::Less);
    assert_eq!(Engine::sort_moves(&board, false, &quiet, &pawn), Ordering::Greater);
    assert_eq!(Engine::sort_moves(&board, false, &quiet, &king), Ordering::Less);
    assert_eq!(Engine::sort_moves(&board, true, &quiet, &king), Ordering::Greater);
    assert_eq!(Engine::sort_moves(&board, false, &quiet, &quiet), Ordering::Equal);
    let none = PackedMove::new();
    let ordered = Engine::order_moves(&board, false, &none, board.getAllMoves());
    assert_eq!(ordered.len(), board.getAllMoves().len());
    assert_eq!(ordered[0], rook);
    assert_eq!(ordered[1], pawn);
    let pinned = Engine::order_moves(&board, false, &king, board.getAllMoves());
    assert_eq!(pinned[0], king);
    assert_eq!(pinned[1], rook);
    let mut sorted_input = board.getAllMoves();
    sorted_input.reverse();
    assert_eq!(Engine::order_moves(&board, false, &none, sorted_input), ordered);
    assert!(Engine::comes_before(&board, false, &none, &rook, &pawn));
    assert!(!Engine::comes_before(&board, false, &pawn, &rook, &pawn));
}

#[test]
pub fn priorities() {
    assert_eq!(Engine::capture_priority('k'), 999);
    assert_eq!(Engine::capture_priority('R'), 6);
    assert_eq!(Engine::capture_priority('c'), 5);
    assert_eq!(Engine::capture_priority('H'), 4);
    assert_eq!(Engine::capture_priority('e'), 3);
    assert_eq!(Engine::capture_priority('A'), 2);
    assert_eq!(Engine::capture_priority('p'), 1);
    assert_eq!(Engine::move_priority('C'), 1);
    assert_eq!(Engine::move_priority('h'), 2);
    assert_eq!(Engine::move_priority('P'), 3);
    assert_eq!(Engine::move_priority('r'), 4);
    assert_eq!(Engine::move_priority('E'), 5);
    assert_eq!(Engine::move_priority('a'), 6);
    assert_eq!(Engine::move_priority('K'), 7);
    assert_eq!(Engine::check_move_priority('K'), 1);
    assert_eq!(Engine::check_move_priority('a'), 2);
    assert_eq!(Engine::check_move_priority('R'), 3);
    assert_eq!(Engine::check_move_priority('h'), 4);
    assert_eq!(Engine::check_move_priority('C'), 5);
    assert_eq!(Engine::check_move_priority('e'), 6);
    assert_eq!(Engine::check_move_priority('P'), 7);
}

#[test]
pub fn no_score_is_never_the_result() {
    let board = BoardState::new();
    assert_ne!(Engine::evalToDepth(&board, 2), INVALID_POS());
}

#[test]
pub fn preferred_move_reaches_the_value() {
    for text in [
        "rheakaehr/9/1c5c1/p1p1p1p1p/9/9/P1P1P1P1P/1C5C1/9/RHEAKAEHR w - - 0 1",
        "4k4/9/9/9/4p4/r3R4/9/9/9/4K4 w - - 0 1",
        "4k4/9/9/9/4p4/r3R4/9/9/9/4K4 b - - 0 1",
    ] {
        let board = BoardState::new_from_FEN(text);
        for depth in 1..=3 {
            let (score, engine) = Engine::evaluate(&board, depth);
            assert_eq!(engine.recentMoveList.len(), depth as usize);
            let first = engine.recentMoveList[0];
            assert!(board.getAllMoves().contains(&first));
            let child = board.branch(first);
            assert!(child.hasKing());
            assert_eq!(plain_minimax(&child, depth - 1), score);
        }
    }
}

#[test]
pub fn the_greater_victim_is_taken_first() {
    let state = BoardState::new_from_FEN("r2k5/9/9/9/9/6c2/6P2/9/9/R3K4 w - - 0 1");
    let pawn_takes_cannon = PackedMove::new_from_Coords(((6, 3), (6, 4)));
    let rook_takes_rook = PackedMove::new_from_Coords(((0, 0), (0, 9)));
    assert_eq!(
        Engine::sort_moves(&state, false, &pawn_takes_cannon, &rook_takes_rook),
        Ordering::Greater
    );
    assert_eq!(
        Engine::sort_moves(&state, false, &rook_takes_rook, &pawn_takes_cannon),
        Ordering::Less
    );
    let none = PackedMove::new();
    let ordered = Engine::order_moves(&state, false, &none, state.getAllMoves());
    assert_eq!(ordered[0], rook_takes_rook);
    assert_eq!(ordered[1], pawn_takes_cannon);
    let tied = BoardState::new_from_FEN("3k5/9/9/9/9/9/R5c1P/9/9/4K4 w - - 0 1");
    let rook_takes = PackedMove::new_from_Coords(((0, 3), (6, 3)));
    let pawn_is_quiet = PackedMove::new_from_Coords(((8, 3), (8, 4)));
    assert_eq!(Engine::sort_moves(&tied, false, &rook_takes, &pawn_is_quiet), Ordering::Less);
    let both = BoardState::new_from_FEN("3k5/9/9/9/5H3/9/R5c2/9/9/4K4 w - - 0 1");
    let rook_on_cannon = PackedMove::new_from_Coords(((0, 3), (6, 3)));
    let horse = PackedMove::new_from_Coords(((5, 5), (6, 3)));
    assert!(both.getAllMoves().contains(&horse));
    assert!(both.getAllMoves().contains(&rook_on_cannon));
    assert_eq!(Engine::sort_moves(&both, false, &horse, &rook_on_cannon), Ordering::Less);
    assert_eq!(Engine::sort_moves(&both, false, &rook_on_cannon, &horse), Ordering::Greater);
}

#[test]
pub fn deepening_step_by_step_gives_the_same() {
    let board = BoardState::new_from_FEN("4k4/9/9/9/4p4/r3R4/9/9/9/4K4 w - - 0 1");
    for depth in 1..=4 {
        let mut engine = Engine::new();
        let mut last = ScoreF32::default();
        for i in 1..=depth {
            match engine.step(&board, i, depth) {
                Some(score) => {
                    assert_eq!(i % 2, depth % 2);
                    last = score;
                }
                None => assert_ne!(i % 2, depth % 2),
            }
            assert_eq!(engine.recentMoveList.len(), i as usize);
        }
        let (score, whole) = Engine::evaluate(&board, depth);
        assert_eq!(last, score);
        assert_eq!(engine.recentMoveList, whole.recentMoveList);
        assert_eq!(engine.nodeCount, whole.nodeCount);
        assert_eq!(engine.startStateIsRed, whole.startStateIsRed);
    }
}
