//! The search: alpha-beta over the moves of both sides, deepened step by step.
use vstd::prelude::*;
use vstd::relations::sorted_by;
use vstd::seq_lib::{lemma_sorted_unique, to_multiset_contains};
use crate::board::packedmove::PackedMove;
use crate::board::BoardState;
use crate::engine::minimax::{
    lemma_evaluation_is_minimax, lemma_preferred_move_is_best, loss_value, minimax, reply_value,
    score_of,
};
use crate::engine::Engine;
use crate::engine::score::{ScoreF32, BLACK_WON, INVALID_POS, RED_WON};

verus! {

/// What a search gives: the score, the line of best moves as it stands
/// afterwards, and the count of positions looked at.
pub struct Outcome {
    pub score: ScoreF32,
    pub line: Seq<PackedMove>,
    pub nodes: int,
}

/// The move that stands for "no move".
pub open spec fn no_move() -> PackedMove {
    PackedMove { data: 0 }
}

/// The count after one more position; it stops at the greatest `i32`.
pub open spec fn counted(n: int) -> int {
    if n < i32::MAX {
        n + 1
    } else {
        n
    }
}

/// The score that says that the side `red` has lost.
pub open spec fn loss_for(red: bool) -> ScoreF32 {
    if red {
        BLACK_WON()
    } else {
        RED_WON()
    }
}

/// The score that says that the side `red` has won.
pub open spec fn win_for(red: bool) -> ScoreF32 {
    if red {
        RED_WON()
    } else {
        BLACK_WON()
    }
}

/// The greater of `best` and `bound`, where a bound that is no score is left out.
pub open spec fn raised(best: ScoreF32, bound: ScoreF32) -> ScoreF32 {
    if bound.above(&best) {
        bound
    } else {
        best
    }
}

/// The smaller of `best` and `bound`, where a bound that is no score is left out.
pub open spec fn lowered(best: ScoreF32, bound: ScoreF32) -> ScoreF32 {
    if bound.below(&best) {
        bound
    } else {
        best
    }
}

/// Whether `s` holds the moves of the side to move in the order of the search.
pub open spec fn is_ordered(b: BoardState, pinned: PackedMove, s: Seq<PackedMove>) -> bool {
    &&& sorted_by(s, b.searched_first(b.in_check(), pinned))
    &&& s.to_multiset() == b.all_moves().to_multiset()
}

/// The moves of the side to move in the order in which they are searched,
/// with `pinned` first where it is among them.
pub open spec fn ordered_moves(b: BoardState, pinned: PackedMove) -> Seq<PackedMove> {
    b.all_moves().sort_by(b.searched_first(b.in_check(), pinned))
}

/// The moves in the order of the search are the moves of the side to move,
/// each as often as it is among them, sorted.
pub proof fn lemma_ordered_moves(b: BoardState, pinned: PackedMove)
    ensures
        is_ordered(b, pinned, ordered_moves(b, pinned)),
        ordered_moves(b, pinned).len() == b.all_moves().len(),
        forall|m: PackedMove| ordered_moves(b, pinned).contains(m) <==> b.all_moves().contains(m),
{
    let leq = b.searched_first(b.in_check(), pinned);
    b.lemma_search_order_total(b.in_check(), pinned);
    b.all_moves().lemma_sort_by_ensures(leq);
    let sorted = ordered_moves(b, pinned);
    vstd::seq_lib::to_multiset_len(sorted);
    vstd::seq_lib::to_multiset_len(b.all_moves());
    assert forall|m: PackedMove| sorted.contains(m) <==> b.all_moves().contains(m) by {
        to_multiset_contains(sorted, m);
        to_multiset_contains(b.all_moves(), m);
    }
}

/// What a position gives once its moves have been gone through: the best
/// score found, or a loss for the side to move where no move gave a score;
/// the best move is entered into the line at the place of this depth.
pub open spec fn finish(
    b: BoardState,
    depth: nat,
    best: ScoreF32,
    best_move: PackedMove,
    found: bool,
    line: Seq<PackedMove>,
    nodes: int,
) -> Outcome {
    Outcome {
        score: if found {
            best
        } else {
            loss_for(b.isRedTurn)
        },
        line: if best_move != no_move() && 1 <= depth <= line.len() {
            line.update(line.len() - depth, best_move)
        } else {
            line
        },
        nodes: nodes,
    }
}

/// The search of the position `b` to the depth `depth`, where Black is
/// known to reach `beta` and Red to reach `alpha` elsewhere (no score where
/// nothing is known). At depth 0 the position is valued as it stands. Where
/// both bounds are scores and equal, that is the result. A side without a move
/// has lost. Else the moves are gone through in the order of the search.
pub open spec fn search(
    b: BoardState,
    depth: nat,
    beta: ScoreF32,
    alpha: ScoreF32,
    line: Seq<PackedMove>,
    nodes: int,
) -> Outcome
    decreases depth, 2nat, 0nat,
{
    if depth == 0 {
        Outcome { score: b.value(), line: line, nodes: nodes }
    } else if alpha != INVALID_POS() && beta != INVALID_POS() && alpha == beta {
        Outcome { score: alpha, line: line, nodes: nodes }
    } else if b.all_moves().len() == 0 {
        Outcome { score: loss_for(b.isRedTurn), line: line, nodes: nodes }
    } else {
        scan(
            b,
            depth,
            beta,
            alpha,
            ordered_moves(b, line[0]),
            0,
            loss_for(b.isRedTurn),
            no_move(),
            false,
            line,
            nodes,
        )
    }
}

/// Goes through the moves `moves` of `b` from number `i` on, with the best
/// score and move so far. Each move is played. Where it takes the king, the
/// side to move has won; else the position it leads to is searched one level
/// less deep, with the bound of the side to move brought up to its best score.
/// A move whose position has no score is passed over. A score better than the
/// best so far becomes the best, unless it is beyond what the other side is
/// known to reach elsewhere: then that bound is the result at once. A win
/// ends the search of this position.
pub open spec fn scan(
    b: BoardState,
    depth: nat,
    beta: ScoreF32,
    alpha: ScoreF32,
    moves: Seq<PackedMove>,
    i: int,
    best: ScoreF32,
    best_move: PackedMove,
    found: bool,
    line: Seq<PackedMove>,
    nodes: int,
) -> Outcome
    decreases depth, 1nat, moves.len() - i,
{
    if depth == 0 || i < 0 || i >= moves.len() {
        finish(b, depth, best, best_move, found, line, nodes)
    } else {
        let red = b.isRedTurn;
        let m = moves[i];
        let child = b.after(m);
        let sub = if !child.hasKing() {
            Outcome { score: win_for(red), line: line, nodes: counted(nodes) }
        } else if red {
            search(child, (depth - 1) as nat, beta, raised(best, alpha), line, counted(nodes))
        } else {
            search(child, (depth - 1) as nat, lowered(best, beta), alpha, line, counted(nodes))
        };
        if sub.score == INVALID_POS() {
            scan(b, depth, beta, alpha, moves, i + 1, best, best_move, found, sub.line, sub.nodes)
        } else {
            let improves = if red {
                sub.score.above(&best)
            } else {
                sub.score.below(&best)
            };
            let beyond = if red {
                sub.score.above(&beta)
            } else {
                sub.score.below(&alpha)
            };
            if improves && beyond {
                Outcome { score: if red {
                    beta
                } else {
                    alpha
                }, line: sub.line, nodes: sub.nodes }
            } else {
                let best2 = if improves {
                    sub.score
                } else {
                    best
                };
                let move2 = if improves {
                    m
                } else {
                    best_move
                };
                if sub.score == win_for(red) {
                    finish(b, depth, best2, move2, true, sub.line, sub.nodes)
                } else {
                    scan(b, depth, beta, alpha, moves, i + 1, best2, move2, true, sub.line, sub.nodes)
                }
            }
        }
    }
}

/// One step of the deepening, to the depth `i` on the way to `depth`: the
/// line grows by one place, and the position is searched to the depth `i`
/// where `i` is even or odd as `depth` is.
pub open spec fn deepen_step(b: BoardState, depth: int, i: int, acc: Outcome) -> Outcome {
    if i % 2 != depth % 2 {
        Outcome { score: acc.score, line: acc.line.push(no_move()), nodes: acc.nodes }
    } else {
        search(b, i as nat, INVALID_POS(), INVALID_POS(), acc.line.push(no_move()), acc.nodes)
    }
}

/// The steps to the depths from `i` up to `depth`, each starting from what
/// the one before has left.
pub open spec fn deepen(b: BoardState, depth: int, i: int, acc: Outcome) -> Outcome
    decreases depth - i + 1,
{
    if i < 1 || i > depth {
        acc
    } else {
        deepen(b, depth, i + 1, deepen_step(b, depth, i, acc))
    }
}

/// What the engine finds for the position `b` at the depth `depth`. It
/// depends on nothing but the position and the depth.
pub open spec fn evaluation(b: BoardState, depth: int) -> Outcome {
    deepen(b, depth, 1, Outcome { score: ScoreF32 { bits: 0 }, line: Seq::empty(), nodes: 0 })
}

/// The greater of `best` and `bound`, where a bound that is no score is left out.
pub fn raise_bound(best: &ScoreF32, bound: &ScoreF32) -> (r: ScoreF32)
    ensures
        r == raised(*best, *bound),
{
    if bound.is_above(best) {
        *bound
    } else {
        *best
    }
}

/// The smaller of `best` and `bound`, where a bound that is no score is left out.
pub fn lower_bound(best: &ScoreF32, bound: &ScoreF32) -> (r: ScoreF32)
    ensures
        r == lowered(*best, *bound),
{
    if bound.is_below(best) {
        *bound
    } else {
        *best
    }
}

impl Engine {
    /// An engine that has looked at nothing yet.
    pub fn new() -> (r: Self)
        ensures
            r.nodeCount == 0,
            r.recentMoveList@ == Seq::<PackedMove>::empty(),
            r.startStateIsRed == false,
    {
        Self { nodeCount: 0, recentMoveList: Vec::new(), startStateIsRed: false }
    }

    /// Enters `packedMove` into the line as the best move at the depth
    /// `depth`, unless it stands for "no move".
    pub fn recordRecentMove(&mut self, packedMove: PackedMove, depth: i32)
        requires
            1 <= depth <= old(self).recentMoveList@.len(),
        ensures
            final(self).nodeCount == old(self).nodeCount,
            final(self).startStateIsRed == old(self).startStateIsRed,
            final(self).recentMoveList@ == if packedMove != no_move() {
                old(self).recentMoveList@.update(
                    old(self).recentMoveList@.len() - depth,
                    packedMove,
                )
            } else {
                old(self).recentMoveList@
            },
    {
        if packedMove.data == 0 {
            return;
        }
        let len = self.recentMoveList.len();
        self.recentMoveList[len - depth as usize] = packedMove;
    }

    /// The search of `state` to the full depth, with nothing known of either side.
    pub fn _eval_first(&mut self, state: BoardState, depth: i32) -> (r: ScoreF32)
        requires
            state.ready(),
            0 <= depth <= old(self).recentMoveList@.len(),
            state.plyNumber + depth <= i16::MAX,
        ensures
            r == search(
                state,
                depth as nat,
                INVALID_POS(),
                INVALID_POS(),
                old(self).recentMoveList@,
                old(self).nodeCount as int,
            ).score,
            final(self).recentMoveList@ == search(
                state,
                depth as nat,
                INVALID_POS(),
                INVALID_POS(),
                old(self).recentMoveList@,
                old(self).nodeCount as int,
            ).line,
            final(self).nodeCount == search(
                state,
                depth as nat,
                INVALID_POS(),
                INVALID_POS(),
                old(self).recentMoveList@,
                old(self).nodeCount as int,
            ).nodes,
            final(self).recentMoveList@.len() == old(self).recentMoveList@.len(),
            final(self).startStateIsRed == old(self).startStateIsRed,
    {
        let none = INVALID_POS();
        self._eval(state, depth, &none, &none)
    }

    /// The search of `state` to the depth `depth`, where Black is known to
    /// reach `blackBestAbove` and Red to reach `redBestAbove` elsewhere.
    pub fn _eval(
        &mut self,
        state: BoardState,
        depth: i32,
        blackBestAbove: &ScoreF32,
        redBestAbove: &ScoreF32,
    ) -> (r: ScoreF32)
        requires
            state.ready(),
            0 <= depth <= old(self).recentMoveList@.len(),
            state.plyNumber + depth <= i16::MAX,
        ensures
            r == search(
                state,
                depth as nat,
                *blackBestAbove,
                *redBestAbove,
                old(self).recentMoveList@,
                old(self).nodeCount as int,
            ).score,
            final(self).recentMoveList@ == search(
                state,
                depth as nat,
                *blackBestAbove,
                *redBestAbove,
                old(self).recentMoveList@,
                old(self).nodeCount as int,
            ).line,
            final(self).nodeCount == search(
                state,
                depth as nat,
                *blackBestAbove,
                *redBestAbove,
                old(self).recentMoveList@,
                old(self).nodeCount as int,
            ).nodes,
            final(self).recentMoveList@.len() == old(self).recentMoveList@.len(),
            final(self).startStateIsRed == old(self).startStateIsRed,
        decreases depth,
    {
        let ghost line0 = self.recentMoveList@;
        let ghost nodes0 = self.nodeCount as int;
        let ghost goal = search(state, depth as nat, *blackBestAbove, *redBestAbove, line0, nodes0);
        if depth == 0 {
            return state.getValue();
        }
        let none = INVALID_POS();
        if redBestAbove.bits != none.bits && blackBestAbove.bits != none.bits {
            if redBestAbove.bits == blackBestAbove.bits {
                return *redBestAbove;
            }
        }
        let red = state.isRedTurn;
        let moves = state.getAllMoves();
        if moves.len() == 0 {
            if red {
                return BLACK_WON();
            }
            return RED_WON();
        }
        let inCheck = state.isInCheck();
        let pinned = self.recentMoveList[0];
        proof {
            assert forall|k: int| 0 <= k < moves@.len() implies state.rankable(
                #[trigger] moves@[k],
            ) by {
                assert(state.all_moves().contains(moves@[k]));
                state.lemma_generated_move(moves@[k]);
                assert(state.letters_valid());
            }
        }
        let sorted = Engine::order_moves(&state, inCheck, &pinned, moves);
        proof {
            let leq = state.searched_first(inCheck, pinned);
            state.lemma_search_order_total(inCheck, pinned);
            assert(is_ordered(state, pinned, sorted@));
            lemma_ordered_moves(state, pinned);
            lemma_sorted_unique(sorted@, ordered_moves(state, pinned), leq);
            assert(sorted@ == ordered_moves(state, pinned));
        }
        let win = if red { RED_WON() } else { BLACK_WON() };
        let mut foundValidMove: bool = false;
        let mut ourBest: ScoreF32 = if red { BLACK_WON() } else { RED_WON() };
        let mut ourBestMove: PackedMove = PackedMove::new();
        let mut done: bool = false;
        let mut i: usize = 0;
        while i < sorted.len() && !done
            invariant
                i <= sorted@.len(),
                state.ready(),
                1 <= depth <= self.recentMoveList@.len(),
                state.plyNumber + depth <= i16::MAX,
                red == state.isRedTurn,
                win == win_for(red),
                none == INVALID_POS(),
                self.recentMoveList@.len() == line0.len(),
                line0.len() == old(self).recentMoveList@.len(),
                goal == search(
                    state,
                    depth as nat,
                    *blackBestAbove,
                    *redBestAbove,
                    old(self).recentMoveList@,
                    old(self).nodeCount as int,
                ),
                self.startStateIsRed == old(self).startStateIsRed,
                forall|k: int| 0 <= k < sorted@.len() ==> state.all_moves().contains(#[trigger] sorted@[k]),
                !done ==> goal == scan(
                    state,
                    depth as nat,
                    *blackBestAbove,
                    *redBestAbove,
                    sorted@,
                    i as int,
                    ourBest,
                    ourBestMove,
                    foundValidMove,
                    self.recentMoveList@,
                    self.nodeCount as int,
                ),
                done ==> goal == finish(
                    state,
                    depth as nat,
                    ourBest,
                    ourBestMove,
                    foundValidMove,
                    self.recentMoveList@,
                    self.nodeCount as int,
                ),
            decreases sorted@.len() - i, if done { 0int } else { 1int },
        {
            let packedMove = sorted[i];
            proof {
                state.lemma_generated_move(packedMove);
            }
            let newBoard = state.branch(packedMove);
            proof {
                state.lemma_ready_after(packedMove, newBoard);
            }
            if self.nodeCount < i32::MAX {
                self.nodeCount += 1;
            }
            let moveScore: ScoreF32 = if !newBoard.hasKing() {
                win
            } else if red {
                let bound = raise_bound(&ourBest, redBestAbove);
                self._eval(newBoard, depth - 1, blackBestAbove, &bound)
            } else {
                let bound = lower_bound(&ourBest, blackBestAbove);
                self._eval(newBoard, depth - 1, &bound, redBestAbove)
            };
            if moveScore.bits == none.bits {
                i += 1;
            } else {
                foundValidMove = true;
                let improves = if red {
                    moveScore.is_above(&ourBest)
                } else {
                    moveScore.is_below(&ourBest)
                };
                if improves {
                    let beyond = if red {
                        moveScore.is_above(blackBestAbove)
                    } else {
                        moveScore.is_below(redBestAbove)
                    };
                    if beyond {
                        if red {
                            return *blackBestAbove;
                        }
                        return *redBestAbove;
                    }
                    ourBest = moveScore;
                    ourBestMove = packedMove;
                }
                if moveScore.bits == win.bits {
                    done = true;
                } else {
                    i += 1;
                }
            }
        }
        self.recordRecentMove(ourBestMove, depth);
        if !foundValidMove {
            if red {
                return BLACK_WON();
            }
            return RED_WON();
        }
        ourBest
    }

    /// One step of the deepening, to the depth `i` on the way to `depth`:
    /// the line grows by one place, and where `i` is even or odd as `depth` is
    /// the position is searched to the depth `i` and its score handed out.
    pub fn step(&mut self, startState: &BoardState, i: i32, depth: i32) -> (r: Option<ScoreF32>)
        requires
            startState.ready(),
            1 <= i <= depth,
            startState.plyNumber + depth <= i16::MAX,
            old(self).recentMoveList@.len() == i - 1,
        ensures
            final(self).recentMoveList@ == deepen_step(
                *startState,
                depth as int,
                i as int,
                Outcome {
                    score: ScoreF32 { bits: 0 },
                    line: old(self).recentMoveList@,
                    nodes: old(self).nodeCount as int,
                },
            ).line,
            final(self).nodeCount == deepen_step(
                *startState,
                depth as int,
                i as int,
                Outcome {
                    score: ScoreF32 { bits: 0 },
                    line: old(self).recentMoveList@,
                    nodes: old(self).nodeCount as int,
                },
            ).nodes,
            final(self).recentMoveList@.len() == i,
            match r {
                Some(score) => i % 2 == depth % 2 && score == deepen_step(
                    *startState,
                    depth as int,
                    i as int,
                    Outcome {
                        score: ScoreF32 { bits: 0 },
                        line: old(self).recentMoveList@,
                        nodes: old(self).nodeCount as int,
                    },
                ).score && final(self).startStateIsRed == startState.isRedTurn,
                None => i % 2 != depth % 2 && final(self).startStateIsRed == old(
                    self,
                ).startStateIsRed,
            },
    {
        self.recentMoveList.push(PackedMove::new());
        if i % 2 != depth % 2 {
            return None;
        }
        self.startStateIsRed = startState.isRedTurn;
        Some(self._eval_first(*startState, i))
    }

    /// Searches `startState` to the depth `depth`, deepening step by step,
    /// and gives the score together with the engine, which holds the line of
    /// best moves and the count of positions looked at. The score is the value
    /// of the position when both sides play their best, and the first move of
    /// the line is a move that reaches it.
    pub fn evaluate(startState: &BoardState, depth: i32) -> (r: (ScoreF32, Engine))
        requires
            startState.ready(),
            startState.plyNumber + depth <= i16::MAX,
        ensures
            r.0 == evaluation(*startState, depth as int).score,
            r.1.recentMoveList@ == evaluation(*startState, depth as int).line,
            r.1.nodeCount == evaluation(*startState, depth as int).nodes,
            depth >= 1 ==> r.0 == score_of(minimax(*startState, depth as nat)),
            depth >= 1 ==> r.1.recentMoveList@.len() == depth,
            depth >= 1 && startState.all_moves().len() > 0 && minimax(*startState, depth as nat)
                != loss_value(startState.isRedTurn) ==> startState.all_moves().contains(
                r.1.recentMoveList@[0],
            ) && reply_value(*startState, depth as nat, r.1.recentMoveList@[0]) == minimax(
                *startState,
                depth as nat,
            ),
    {
        proof {
            lemma_evaluation_is_minimax(*startState, depth as int);
            if depth >= 1 {
                lemma_preferred_move_is_best(*startState, depth as int);
            }
        }
        let mut engine: Self = Engine::new();
        let mut ret: ScoreF32 = ScoreF32 { bits: 0 };
        let mut i: i32 = 1;
        while i <= depth
            invariant
                1 <= i,
                i <= depth + 1 || depth < 1,
                startState.ready(),
                startState.plyNumber + depth <= i16::MAX,
                engine.recentMoveList@.len() == i - 1,
                evaluation(*startState, depth as int) == deepen(
                    *startState,
                    depth as int,
                    i as int,
                    Outcome {
                        score: ret,
                        line: engine.recentMoveList@,
                        nodes: engine.nodeCount as int,
                    },
                ),
            decreases depth - i + 1,
        {
            match engine.step(startState, i, depth) {
                Some(score) => {
                    ret = score;
                },
                None => {},
            }
            i += 1;
        }
        (ret, engine)
    }

    /// The score of `startState` when both sides play their best for `depth`
    /// moves. It depends on nothing but the position and the depth: asked twice,
    /// the engine gives the same score.
    pub fn evalToDepth(startState: &BoardState, depth: i32) -> (r: ScoreF32)
        requires
            startState.ready(),
            startState.plyNumber + depth <= i16::MAX,
        ensures
            r == evaluation(*startState, depth as int).score,
            depth >= 1 ==> r == score_of(minimax(*startState, depth as nat)),
    {
        proof {
            lemma_evaluation_is_minimax(*startState, depth as int);
        }
        let (score, _engine) = Self::evaluate(startState, depth);
        score
    }

    /// The score of `startState` at the depth `depth`, or `None` where the
    /// position cannot be searched to that depth: where its pieces do not stand
    /// where they can be moved and valued, or the ply would pass the greatest
    /// `i16`.
    pub fn try_evalToDepth(startState: &BoardState, depth: i32) -> (r: Option<ScoreF32>)
        requires
            startState.wf(),
        ensures
            match r {
                Some(score) => startState.ready() && startState.plyNumber + depth <= i16::MAX
                    && score == evaluation(*startState, depth as int).score && (depth >= 1
                    ==> score == score_of(minimax(*startState, depth as nat))),
                None => !(startState.ready() && startState.plyNumber + depth <= i16::MAX),
            },
    {
        let ply: i64 = startState.plyNumber as i64;
        let deep: i64 = depth as i64;
        if ply + deep > 0x7FFF || !startState.pieces_in_place() {
            return None;
        }
        Some(Self::evalToDepth(startState, depth))
    }
}

} // verus!
