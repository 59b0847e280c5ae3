//! What the search finds: the value of the game tree when both sides play
//! their best.
use vstd::prelude::*;
use vstd::arithmetic::power2::{lemma_pow2_pos, pow2};
use crate::board::packedmove::PackedMove;
use crate::board::BoardState;
use crate::engine::ieee::{lemma_eighths_value, scaled_value};
use crate::engine::search::{
    counted, deepen, evaluation, lemma_ordered_moves, loss_for, lowered, no_move, ordered_moves,
    raised, scan, search, win_for, Outcome,
};
use crate::engine::score::{ScoreF32, BLACK_WON, BLACK_WON_BITS, INVALID_POS, RED_WON, RED_WON_BITS};

verus! {

/// The value of a win for Red, in eighths; a win for Black is its negative.
/// Every balance of material lies strictly between the two.
pub open spec fn win_value() -> int {
    0x100_0000
}

/// The score of the value `v`: a win where `v` is the value of one, else
/// the number `v / 8`.
pub open spec fn score_of(v: int) -> ScoreF32 {
    if v >= win_value() {
        RED_WON()
    } else if v <= -win_value() {
        BLACK_WON()
    } else {
        ScoreF32::of_eighths(v)
    }
}

/// The value of a score in eighths: the value of a win for the two markers
/// of a win, else the number of the score multiplied by eight.
pub open spec fn standing(s: ScoreF32) -> int {
    if s.bits == RED_WON_BITS {
        win_value()
    } else if s.bits == BLACK_WON_BITS {
        -win_value()
    } else {
        scaled_value(s.bits) / (pow2(146) as int)
    }
}

/// Scores of values are ordered as their values are, differ where their
/// values differ, and are never the marker for a position without a score.
pub proof fn lemma_score_order(a: int, b: int)
    requires
        -win_value() <= a <= win_value(),
        -win_value() <= b <= win_value(),
    ensures
        score_of(a).above(&score_of(b)) <==> a > b,
        score_of(a).below(&score_of(b)) <==> a < b,
        score_of(a) == score_of(b) <==> a == b,
        score_of(a) != INVALID_POS(),
        standing(score_of(a)) == a,
{
    let p = pow2(146) as int;
    lemma_pow2_pos(146);
    let sa = score_of(a);
    let sb = score_of(b);
    if -win_value() < a < win_value() {
        lemma_eighths_value(a);
        assert((a * p) / p == a) by (nonlinear_arith)
            requires
                p > 0,
        ;
    }
    if -win_value() < b < win_value() {
        lemma_eighths_value(b);
    }
    if -win_value() < a < win_value() && -win_value() < b < win_value() {
        assert(a * p < b * p <==> a < b) by (nonlinear_arith)
            requires
                p > 0,
        ;
        assert(a * p == b * p <==> a == b) by (nonlinear_arith)
            requires
                p > 0,
        ;
    }
}

/// The value of the position as it stands: a win for Red where Black's king
/// has left the board, else a win for Black where Red's king has, else the balance.
pub open spec fn static_value(b: BoardState) -> int {
    if b.blackPieces.King.is_dead() {
        win_value()
    } else if b.redPieces.King.is_dead() {
        -win_value()
    } else {
        b.balance()
    }
}

/// The value of a loss for the side `red`.
pub open spec fn loss_value(red: bool) -> int {
    if red {
        -win_value()
    } else {
        win_value()
    }
}

/// The better of two values for the side `red`: Red looks for the greatest
/// value, Black for the least.
pub open spec fn better(red: bool, a: int, b: int) -> int {
    if red {
        if a >= b {
            a
        } else {
            b
        }
    } else {
        if a <= b {
            a
        } else {
            b
        }
    }
}

/// The value of the position `b` when both sides play their best for `depth`
/// moves: the value as it stands at depth 0, a loss for a side without a move,
/// else the best of the values of its moves.
pub open spec fn minimax(b: BoardState, depth: nat) -> int
    decreases depth, 2nat, 0nat,
{
    if depth == 0 {
        static_value(b)
    } else if b.all_moves().len() == 0 {
        loss_value(b.isRedTurn)
    } else {
        best_of(b, depth, b.all_moves(), b.all_moves().len())
    }
}

/// The value of the move `m` in the position `b`: a win where it takes the
/// king, else the value of the position it leads to, one move less deep.
pub open spec fn reply_value(b: BoardState, depth: nat, m: PackedMove) -> int
    decreases depth, 0nat, 0nat,
{
    if depth == 0 {
        0
    } else if !b.after(m).hasKing() {
        -loss_value(b.isRedTurn)
    } else {
        minimax(b.after(m), (depth - 1) as nat)
    }
}

/// The best of the values of the first `n` of the moves `moves`.
pub open spec fn best_of(b: BoardState, depth: nat, moves: Seq<PackedMove>, n: nat) -> int
    decreases depth, 1nat, n,
{
    if n == 0 || n > moves.len() {
        loss_value(b.isRedTurn)
    } else {
        better(
            b.isRedTurn,
            best_of(b, depth, moves, (n - 1) as nat),
            reply_value(b, depth, moves[n - 1]),
        )
    }
}

/// The score of a position as it stands is the score of its value.
pub proof fn lemma_static_value(b: BoardState)
    ensures
        b.value() == score_of(static_value(b)),
        -win_value() <= static_value(b) <= win_value(),
{
    b.lemma_balance_bound();
}

/// Every value lies between a win for Black and a win for Red.
pub proof fn lemma_minimax_bound(b: BoardState, depth: nat)
    ensures
        -win_value() <= minimax(b, depth) <= win_value(),
    decreases depth, 2nat, 0nat,
{
    lemma_static_value(b);
    if depth > 0 && b.all_moves().len() > 0 {
        lemma_best_bound(b, depth, b.all_moves(), b.all_moves().len());
    }
}

/// Every value of a move lies between a win for Black and a win for Red.
pub proof fn lemma_reply_bound(b: BoardState, depth: nat, m: PackedMove)
    ensures
        -win_value() <= reply_value(b, depth, m) <= win_value(),
    decreases depth, 0nat, 0nat,
{
    if depth > 0 && b.after(m).hasKing() {
        lemma_minimax_bound(b.after(m), (depth - 1) as nat);
    }
}

/// The best of some values lies between a win for Black and a win for Red.
pub proof fn lemma_best_bound(b: BoardState, depth: nat, moves: Seq<PackedMove>, n: nat)
    ensures
        -win_value() <= best_of(b, depth, moves, n) <= win_value(),
    decreases depth, 1nat, n,
{
    if n > 0 && n <= moves.len() {
        lemma_best_bound(b, depth, moves, (n - 1) as nat);
        lemma_reply_bound(b, depth, moves[n - 1]);
    }
}

/// The best of the values of some moves is the value of one of them, and
/// none of them has a better one.
pub proof fn lemma_best_is_best(b: BoardState, depth: nat, moves: Seq<PackedMove>, n: nat)
    requires
        1 <= n <= moves.len(),
    ensures
        exists|j: int| 0 <= j < n && reply_value(b, depth, #[trigger] moves[j]) == best_of(b, depth, moves, n),
        forall|j: int|
            0 <= j < n ==> better(
                b.isRedTurn,
                best_of(b, depth, moves, n),
                reply_value(b, depth, #[trigger] moves[j]),
            ) == best_of(b, depth, moves, n),
    decreases n,
{
    let r = best_of(b, depth, moves, n);
    let last = reply_value(b, depth, moves[n - 1]);
    if n == 1 {
        lemma_reply_bound(b, depth, moves[0]);
        assert(best_of(b, depth, moves, 0) == loss_value(b.isRedTurn));
        assert(r == last);
        assert(reply_value(b, depth, moves[0]) == r);
    } else {
        lemma_best_is_best(b, depth, moves, (n - 1) as nat);
        let before = best_of(b, depth, moves, (n - 1) as nat);
        let j0 = choose|j: int| 0 <= j < n - 1 && reply_value(b, depth, #[trigger] moves[j]) == before;
        if r == last {
            assert(reply_value(b, depth, moves[n - 1]) == r);
        } else {
            assert(reply_value(b, depth, moves[j0]) == r);
        }
        assert forall|j: int| 0 <= j < n implies better(
            b.isRedTurn,
            r,
            reply_value(b, depth, #[trigger] moves[j]),
        ) == r by {
            if j < n - 1 {
                assert(better(b.isRedTurn, before, reply_value(b, depth, moves[j])) == before);
            }
        }
    }
}

/// The best of the values of some moves does not depend on their order, nor
/// on how often a move is among them.
pub proof fn lemma_best_of_members(b: BoardState, depth: nat, s: Seq<PackedMove>, t: Seq<PackedMove>)
    requires
        forall|m: PackedMove| s.contains(m) <==> t.contains(m),
    ensures
        best_of(b, depth, s, s.len()) == best_of(b, depth, t, t.len()),
{
    if s.len() == 0 {
        if t.len() > 0 {
            assert(t.contains(t[0]));
            assert(s.contains(t[0]));
        }
    } else {
        assert(s.contains(s[0]));
        assert(t.contains(s[0]));
        lemma_best_is_best(b, depth, s, s.len());
        lemma_best_is_best(b, depth, t, t.len());
        let rs = best_of(b, depth, s, s.len());
        let rt = best_of(b, depth, t, t.len());
        let js = choose|j: int| 0 <= j < s.len() && reply_value(b, depth, #[trigger] s[j]) == rs;
        let jt = choose|j: int| 0 <= j < t.len() && reply_value(b, depth, #[trigger] t[j]) == rt;
        assert(s.contains(s[js]));
        assert(t.contains(s[js]));
        let ks = choose|k: int| 0 <= k < t.len() && t[k] == s[js];
        assert(better(b.isRedTurn, rt, reply_value(b, depth, t[ks])) == rt);
        assert(t.contains(t[jt]));
        assert(s.contains(t[jt]));
        let kt = choose|k: int| 0 <= k < s.len() && s[k] == t[jt];
        assert(better(b.isRedTurn, rs, reply_value(b, depth, s[kt])) == rs);
    }
}

/// Whether `s` is the score of a value.
pub open spec fn is_value_score(s: ScoreF32) -> bool {
    -win_value() <= standing(s) <= win_value() && s == score_of(standing(s))
}

/// Whether `s` can stand as a bound: it is the score of a value, or no score.
pub open spec fn bound_ok(s: ScoreF32) -> bool {
    s == INVALID_POS() || is_value_score(s)
}

/// The value that Red is known to reach elsewhere: below every value where
/// nothing is known.
pub open spec fn floor_of(alpha: ScoreF32) -> int {
    if alpha == INVALID_POS() {
        -win_value() - 1
    } else {
        standing(alpha)
    }
}

/// The value that Black is known to reach elsewhere: above every value where
/// nothing is known.
pub open spec fn ceiling_of(beta: ScoreF32) -> int {
    if beta == INVALID_POS() {
        win_value() + 1
    } else {
        standing(beta)
    }
}

/// Whether `r` serves for the value `v` between the bounds `lo` and `hi`: it
/// is `v` where `v` lies strictly between the bounds, and lies on the same
/// side of a bound as `v` where `v` does not.
pub open spec fn within(r: int, v: int, lo: int, hi: int) -> bool {
    &&& lo < v < hi ==> r == v
    &&& v <= lo ==> r <= lo
    &&& v >= hi ==> r >= hi
}

/// What holds of the best score so far, `best`, and the best value so far,
/// `value`, while the moves of the side `red` are gone through.
pub open spec fn on_track(red: bool, best: int, value: int, lo: int, hi: int) -> bool {
    &&& -win_value() <= best <= win_value()
    &&& -win_value() <= value <= win_value()
    &&& red ==> best <= hi
    &&& !red ==> best >= lo
    &&& within(best, value, lo, hi)
}

/// The best of the values of more moves is at least as good as that of fewer.
pub proof fn lemma_best_grows(b: BoardState, depth: nat, moves: Seq<PackedMove>, n: nat, more: nat)
    requires
        n <= more <= moves.len(),
    ensures
        better(b.isRedTurn, best_of(b, depth, moves, more), best_of(b, depth, moves, n)) == best_of(
            b,
            depth,
            moves,
            more,
        ),
    decreases more - n,
{
    if n < more {
        lemma_best_grows(b, depth, moves, n, (more - 1) as nat);
    }
}

/// The bound that is handed down to the next position is the better of the
/// best score so far and the bound of the side to move.
pub proof fn lemma_bound_handed_down(red: bool, best: ScoreF32, bound: ScoreF32)
    requires
        is_value_score(best),
        bound_ok(bound),
    ensures
        red ==> bound_ok(raised(best, bound)) && floor_of(raised(best, bound)) == better(
            true,
            standing(best),
            floor_of(bound),
        ),
        !red ==> bound_ok(lowered(best, bound)) && ceiling_of(lowered(best, bound)) == better(
            false,
            standing(best),
            ceiling_of(bound),
        ),
{
    lemma_score_order(standing(best), standing(best));
    if bound != INVALID_POS() {
        lemma_score_order(standing(bound), standing(best));
    }
}

/// What the tests that the search makes on a score say of its value.
pub proof fn lemma_tests_on_score(s: ScoreF32, best: ScoreF32, bound: ScoreF32, red: bool)
    requires
        is_value_score(s),
        is_value_score(best),
        bound_ok(bound),
    ensures
        s != INVALID_POS(),
        s.above(&best) <==> standing(s) > standing(best),
        s.below(&best) <==> standing(s) < standing(best),
        s.above(&bound) <==> bound != INVALID_POS() && standing(s) > standing(bound),
        s.below(&bound) <==> bound != INVALID_POS() && standing(s) < standing(bound),
        s == win_for(red) <==> standing(s) == -loss_value(red),
        is_value_score(win_for(red)),
        is_value_score(loss_for(red)),
        standing(loss_for(red)) == loss_value(red),
        standing(win_for(red)) == -loss_value(red),
{
    lemma_score_order(standing(s), standing(best));
    lemma_score_order(standing(s), -loss_value(red));
    lemma_score_order(loss_value(red), -loss_value(red));
    if bound != INVALID_POS() {
        lemma_score_order(standing(s), standing(bound));
    }
}

/// One step of going through the moves keeps the best score on track, or
/// ends the search of the position with a score that serves for its value.
pub proof fn lemma_step(
    red: bool,
    lo: int,
    hi: int,
    best: int,
    value: int,
    got: int,
    reply: int,
    last: int,
)
    requires
        -win_value() - 1 <= lo <= hi <= win_value() + 1,
        on_track(red, best, value, lo, hi),
        -win_value() <= got <= win_value(),
        -win_value() <= reply <= win_value(),
        -win_value() <= last <= win_value(),
        red ==> within(got, reply, better(true, best, lo), hi),
        !red ==> within(got, reply, lo, better(false, best, hi)),
        better(red, last, better(red, value, reply)) == last,
    ensures
        ({
            let improves = if red { got > best } else { got < best };
            let beyond = if red { got > hi } else { got < lo };
            let best2 = if improves { got } else { best };
            let value2 = better(red, value, reply);
            &&& improves && beyond ==> within(if red { hi } else { lo }, last, lo, hi)
            &&& !(improves && beyond) ==> on_track(red, best2, value2, lo, hi)
            &&& !(improves && beyond) && got == -loss_value(red) ==> within(best2, last, lo, hi)
        }),
{
}

/// The search of a position gives a score that serves for the value of the
/// position between the bounds it was given.
pub proof fn lemma_search_within(
    b: BoardState,
    depth: nat,
    beta: ScoreF32,
    alpha: ScoreF32,
    line: Seq<PackedMove>,
    nodes: int,
)
    requires
        bound_ok(alpha),
        bound_ok(beta),
        floor_of(alpha) <= ceiling_of(beta),
    ensures
        is_value_score(search(b, depth, beta, alpha, line, nodes).score),
        within(
            standing(search(b, depth, beta, alpha, line, nodes).score),
            minimax(b, depth),
            floor_of(alpha),
            ceiling_of(beta),
        ),
    decreases depth, 2nat, 0nat,
{
    let red = b.isRedTurn;
    lemma_static_value(b);
    lemma_minimax_bound(b, depth);
    lemma_score_order(static_value(b), static_value(b));
    lemma_score_order(loss_value(red), loss_value(red));
    if depth == 0 {
    } else if alpha != INVALID_POS() && beta != INVALID_POS() && alpha == beta {
    } else if b.all_moves().len() == 0 {
    } else {
        let moves = ordered_moves(b, line[0]);
        lemma_ordered_moves(b, line[0]);
        lemma_best_of_members(b, depth, moves, b.all_moves());
        assert(best_of(b, depth, moves, 0) == loss_value(red));
        lemma_scan_within(
            b,
            depth,
            beta,
            alpha,
            moves,
            0,
            loss_for(red),
            no_move(),
            false,
            line,
            nodes,
        );
    }
}

/// Going through the moves of a position from number `i` on gives a score
/// that serves for the best of the values of all of them, where the best score
/// so far is on track for the best of the values of those before.
pub proof fn lemma_scan_within(
    b: BoardState,
    depth: nat,
    beta: ScoreF32,
    alpha: ScoreF32,
    moves: Seq<PackedMove>,
    i: int,
    best: ScoreF32,
    best_move: PackedMove,
    found: bool,
    line: Seq<PackedMove>,
    nodes: int,
)
    requires
        depth >= 1,
        bound_ok(alpha),
        bound_ok(beta),
        floor_of(alpha) <= ceiling_of(beta),
        0 <= i <= moves.len(),
        is_value_score(best),
        found || standing(best) == loss_value(b.isRedTurn),
        on_track(
            b.isRedTurn,
            standing(best),
            best_of(b, depth, moves, i as nat),
            floor_of(alpha),
            ceiling_of(beta),
        ),
    ensures
        is_value_score(
            scan(b, depth, beta, alpha, moves, i, best, best_move, found, line, nodes).score,
        ),
        within(
            standing(
                scan(b, depth, beta, alpha, moves, i, best, best_move, found, line, nodes).score,
            ),
            best_of(b, depth, moves, moves.len()),
            floor_of(alpha),
            ceiling_of(beta),
        ),
    decreases depth, 1nat, moves.len() - i,
{
    let red = b.isRedTurn;
    let lo = floor_of(alpha);
    let hi = ceiling_of(beta);
    let all = best_of(b, depth, moves, moves.len());
    lemma_best_bound(b, depth, moves, moves.len());
    lemma_tests_on_score(best, best, beta, red);
    if i < moves.len() {
        let m = moves[i];
        let child = b.after(m);
        let reply = reply_value(b, depth, m);
        lemma_reply_bound(b, depth, m);
        let value2 = best_of(b, depth, moves, (i + 1) as nat);
        assert(value2 == better(red, best_of(b, depth, moves, i as nat), reply));
        lemma_best_grows(b, depth, moves, (i + 1) as nat, moves.len());
        lemma_bound_handed_down(red, best, if red { alpha } else { beta });
        let sub = if !child.hasKing() {
            Outcome { score: win_for(red), line: line, nodes: counted(nodes) }
        } else if red {
            search(child, (depth - 1) as nat, beta, raised(best, alpha), line, counted(nodes))
        } else {
            search(child, (depth - 1) as nat, lowered(best, beta), alpha, line, counted(nodes))
        };
        if child.hasKing() {
            if red {
                lemma_search_within(
                    child,
                    (depth - 1) as nat,
                    beta,
                    raised(best, alpha),
                    line,
                    counted(nodes),
                );
            } else {
                lemma_search_within(
                    child,
                    (depth - 1) as nat,
                    lowered(best, beta),
                    alpha,
                    line,
                    counted(nodes),
                );
            }
        }
        let got = standing(sub.score);
        assert(is_value_score(sub.score));
        lemma_tests_on_score(sub.score, best, if red { beta } else { alpha }, red);
        lemma_step(red, lo, hi, standing(best), best_of(b, depth, moves, i as nat), got, reply, all);
        let improves = if red { sub.score.above(&best) } else { sub.score.below(&best) };
        let beyond = if red { sub.score.above(&beta) } else { sub.score.below(&alpha) };
        if improves && beyond {
        } else {
            let best2 = if improves { sub.score } else { best };
            let move2 = if improves { m } else { best_move };
            if sub.score == win_for(red) {
            } else {
                lemma_scan_within(
                    b,
                    depth,
                    beta,
                    alpha,
                    moves,
                    i + 1,
                    best2,
                    move2,
                    true,
                    sub.line,
                    sub.nodes,
                );
            }
        }
    }
}

/// Deepening step by step ends with the search to the full depth, which
/// has no bounds and so gives the value itself.
pub proof fn lemma_deepen(b: BoardState, depth: int, i: int, acc: Outcome)
    requires
        1 <= i <= depth,
    ensures
        deepen(b, depth, i, acc).score == score_of(minimax(b, depth as nat)),
    decreases depth - i,
{
    let line = acc.line.push(no_move());
    if i < depth {
        if i % 2 != depth % 2 {
            lemma_deepen(
                b,
                depth,
                i + 1,
                Outcome { score: acc.score, line: line, nodes: acc.nodes },
            );
        } else {
            lemma_deepen(
                b,
                depth,
                i + 1,
                search(b, i as nat, INVALID_POS(), INVALID_POS(), line, acc.nodes),
            );
        }
    } else {
        let last = search(b, depth as nat, INVALID_POS(), INVALID_POS(), line, acc.nodes);
        lemma_search_within(b, depth as nat, INVALID_POS(), INVALID_POS(), line, acc.nodes);
        lemma_minimax_bound(b, depth as nat);
        assert(deepen(b, depth, depth + 1, last) == last);
    }
}

/// What the engine finds is the value of the position when both sides play
/// their best for `depth` moves: the engine's way through the moves, the
/// order in which it tries them and the branches it leaves out change nothing.
pub proof fn lemma_evaluation_is_minimax(b: BoardState, depth: int)
    ensures
        depth >= 1 ==> evaluation(b, depth).score == score_of(minimax(b, depth as nat)),
        depth < 1 ==> evaluation(b, depth).score == (ScoreF32 { bits: 0 }),
{
    if depth >= 1 {
        lemma_deepen(
            b,
            depth,
            1,
            Outcome { score: ScoreF32 { bits: 0 }, line: Seq::empty(), nodes: 0 },
        );
    }
}

/// A search leaves the line as long as it was.
pub proof fn lemma_search_keeps_length(
    b: BoardState,
    depth: nat,
    beta: ScoreF32,
    alpha: ScoreF32,
    line: Seq<PackedMove>,
    nodes: int,
)
    ensures
        search(b, depth, beta, alpha, line, nodes).line.len() == line.len(),
    decreases depth, 2nat, 0nat,
{
    if depth == 0 {
    } else if alpha != INVALID_POS() && beta != INVALID_POS() && alpha == beta {
    } else if b.all_moves().len() == 0 {
    } else {
        lemma_scan_keeps_length(
            b,
            depth,
            beta,
            alpha,
            ordered_moves(b, line[0]),
            0,
            loss_for(b.isRedTurn),
            no_move(),
            false,
            line,
            nodes,
        );
    }
}

/// Going through the moves of a position leaves the line as long as it was.
pub proof fn lemma_scan_keeps_length(
    b: BoardState,
    depth: nat,
    beta: ScoreF32,
    alpha: ScoreF32,
    moves: Seq<PackedMove>,
    i: int,
    best: ScoreF32,
    best_move: PackedMove,
    found: bool,
    line: Seq<PackedMove>,
    nodes: int,
)
    ensures
        scan(b, depth, beta, alpha, moves, i, best, best_move, found, line, nodes).line.len()
            == line.len(),
    decreases depth, 1nat, moves.len() - i,
{
    if depth == 0 || i < 0 || i >= moves.len() {
    } else {
        let red = b.isRedTurn;
        let m = moves[i];
        let child = b.after(m);
        let sub = if !child.hasKing() {
            Outcome { score: win_for(red), line: line, nodes: counted(nodes) }
        } else if red {
            search(child, (depth - 1) as nat, beta, raised(best, alpha), line, counted(nodes))
        } else {
            search(child, (depth - 1) as nat, lowered(best, beta), alpha, line, counted(nodes))
        };
        if child.hasKing() {
            if red {
                lemma_search_keeps_length(
                    child,
                    (depth - 1) as nat,
                    beta,
                    raised(best, alpha),
                    line,
                    counted(nodes),
                );
            } else {
                lemma_search_keeps_length(
                    child,
                    (depth - 1) as nat,
                    lowered(best, beta),
                    alpha,
                    line,
                    counted(nodes),
                );
            }
        }
        if sub.score == INVALID_POS() {
            lemma_scan_keeps_length(
                b,
                depth,
                beta,
                alpha,
                moves,
                i + 1,
                best,
                best_move,
                found,
                sub.line,
                sub.nodes,
            );
        } else {
            let improves = if red { sub.score.above(&best) } else { sub.score.below(&best) };
            let best2 = if improves { sub.score } else { best };
            let move2 = if improves { m } else { best_move };
            lemma_scan_keeps_length(
                b,
                depth,
                beta,
                alpha,
                moves,
                i + 1,
                best2,
                move2,
                true,
                sub.line,
                sub.nodes,
            );
        }
    }
}

/// No move that the generator makes is the move that stands for "no move".
pub proof fn lemma_moves_are_moves(b: BoardState, m: PackedMove)
    requires
        b.all_moves().contains(m),
    ensures
        m != no_move(),
{
    let w = b.lemma_move_source(b.isRedTurn, m);
    let from = b.roster(b.isRedTurn).slot(w.0);
    let to = crate::board::packedmove::PackedCoord::pack(w.1, w.2);
    crate::board::packedmove::lemma_move_parts(m, from, to);
    crate::board::packedmove::lemma_pack_unpack(w.1, w.2, to);
}

/// Whether the move `m` is one of the moves `moves` and has the value `v`,
/// or `v` is the value of a loss for the side to move and no move is named.
pub open spec fn names_best(b: BoardState, depth: nat, moves: Seq<PackedMove>, m: PackedMove, v: int) -> bool {
    if m == no_move() {
        v == loss_value(b.isRedTurn)
    } else {
        moves.contains(m) && reply_value(b, depth, m) == v
    }
}

/// Going through the moves of the position that the engine was asked about,
/// with no bounds, ends with a best move entered into the line at the place
/// of this depth, unless every move loses.
pub proof fn lemma_scan_names_best(
    b: BoardState,
    depth: nat,
    moves: Seq<PackedMove>,
    i: int,
    best: ScoreF32,
    best_move: PackedMove,
    found: bool,
    line: Seq<PackedMove>,
    nodes: int,
)
    requires
        1 <= depth <= line.len(),
        0 <= i <= moves.len(),
        forall|j: int| 0 <= j < moves.len() ==> #[trigger] moves[j] != no_move(),
        is_value_score(best),
        standing(best) == best_of(b, depth, moves, i as nat),
        names_best(b, depth, moves, best_move, standing(best)),
    ensures
        ({
            let out = scan(
                b,
                depth,
                INVALID_POS(),
                INVALID_POS(),
                moves,
                i,
                best,
                best_move,
                found,
                line,
                nodes,
            );
            let all = best_of(b, depth, moves, moves.len());
            &&& out.line.len() == line.len()
            &&& all != loss_value(b.isRedTurn) ==> moves.contains(out.line[line.len() - depth])
                && reply_value(b, depth, out.line[line.len() - depth]) == all
        }),
    decreases moves.len() - i,
{
    let red = b.isRedTurn;
    let none = INVALID_POS();
    let all = best_of(b, depth, moves, moves.len());
    lemma_best_bound(b, depth, moves, moves.len());
    lemma_best_bound(b, depth, moves, i as nat);
    lemma_tests_on_score(best, best, none, red);
    if i < moves.len() {
        let m = moves[i];
        assert(moves.contains(m));
        let child = b.after(m);
        let reply = reply_value(b, depth, m);
        lemma_reply_bound(b, depth, m);
        let value2 = best_of(b, depth, moves, (i + 1) as nat);
        assert(value2 == better(red, best_of(b, depth, moves, i as nat), reply));
        lemma_best_grows(b, depth, moves, (i + 1) as nat, moves.len());
        lemma_bound_handed_down(red, best, none);
        let sub = if !child.hasKing() {
            Outcome { score: win_for(red), line: line, nodes: counted(nodes) }
        } else if red {
            search(child, (depth - 1) as nat, none, raised(best, none), line, counted(nodes))
        } else {
            search(child, (depth - 1) as nat, lowered(best, none), none, line, counted(nodes))
        };
        if child.hasKing() {
            if red {
                lemma_search_within(child, (depth - 1) as nat, none, raised(best, none), line, counted(nodes));
                lemma_search_keeps_length(
                    child,
                    (depth - 1) as nat,
                    none,
                    raised(best, none),
                    line,
                    counted(nodes),
                );
            } else {
                lemma_search_within(child, (depth - 1) as nat, lowered(best, none), none, line, counted(nodes));
                lemma_search_keeps_length(
                    child,
                    (depth - 1) as nat,
                    lowered(best, none),
                    none,
                    line,
                    counted(nodes),
                );
            }
        }
        assert(is_value_score(sub.score));
        lemma_tests_on_score(sub.score, best, none, red);
        let improves = if red { sub.score.above(&best) } else { sub.score.below(&best) };
        let best2 = if improves { sub.score } else { best };
        let move2 = if improves { m } else { best_move };
        assert(standing(best2) == value2);
        assert(names_best(b, depth, moves, move2, standing(best2)));
        if sub.score == win_for(red) {
            assert(all == standing(best2));
        } else {
            lemma_scan_names_best(b, depth, moves, i + 1, best2, move2, true, sub.line, sub.nodes);
        }
    }
}

/// The searches to the depths from `i` up to `depth` end with a line of
/// `depth` places whose first place names a best move, unless every move loses.
pub proof fn lemma_deepen_names_best(b: BoardState, depth: int, i: int, acc: Outcome)
    requires
        1 <= i <= depth,
        acc.line.len() == i - 1,
    ensures
        deepen(b, depth, i, acc).line.len() == depth,
        b.all_moves().len() > 0 && minimax(b, depth as nat) != loss_value(b.isRedTurn)
            ==> b.all_moves().contains(deepen(b, depth, i, acc).line[0]) && reply_value(
            b,
            depth as nat,
            deepen(b, depth, i, acc).line[0],
        ) == minimax(b, depth as nat),
    decreases depth - i,
{
    let line = acc.line.push(no_move());
    let none = INVALID_POS();
    if i < depth {
        if i % 2 != depth % 2 {
            lemma_deepen_names_best(
                b,
                depth,
                i + 1,
                Outcome { score: acc.score, line: line, nodes: acc.nodes },
            );
        } else {
            lemma_search_keeps_length(b, i as nat, none, none, line, acc.nodes);
            lemma_deepen_names_best(b, depth, i + 1, search(b, i as nat, none, none, line, acc.nodes));
        }
    } else {
        let last = search(b, depth as nat, none, none, line, acc.nodes);
        assert(deepen(b, depth, depth + 1, last) == last);
        lemma_search_keeps_length(b, depth as nat, none, none, line, acc.nodes);
        if b.all_moves().len() > 0 {
            let red = b.isRedTurn;
            let moves = ordered_moves(b, line[0]);
            lemma_ordered_moves(b, line[0]);
            lemma_best_of_members(b, depth as nat, moves, b.all_moves());
            assert forall|j: int| 0 <= j < moves.len() implies #[trigger] moves[j] != no_move() by {
                assert(moves.contains(moves[j]));
                lemma_moves_are_moves(b, moves[j]);
            }
            lemma_score_order(loss_value(red), loss_value(red));
            assert(best_of(b, depth as nat, moves, 0) == loss_value(red));
            lemma_scan_names_best(
                b,
                depth as nat,
                moves,
                0,
                loss_for(red),
                no_move(),
                false,
                line,
                acc.nodes,
            );
        }
    }
}

/// The first move of the line that the engine leaves is a best move: it is
/// a move of the position, and its value is the value of the position,
/// unless the side to move has no move or loses whatever it plays.
pub proof fn lemma_preferred_move_is_best(b: BoardState, depth: int)
    requires
        depth >= 1,
    ensures
        evaluation(b, depth).line.len() == depth,
        b.all_moves().len() > 0 && minimax(b, depth as nat) != loss_value(b.isRedTurn)
            ==> b.all_moves().contains(evaluation(b, depth).line[0]) && reply_value(
            b,
            depth as nat,
            evaluation(b, depth).line[0],
        ) == minimax(b, depth as nat),
{
    lemma_deepen_names_best(
        b,
        depth,
        1,
        Outcome { score: ScoreF32 { bits: 0 }, line: Seq::empty(), nodes: 0 },
    );
}

/// Asked twice about the same position at the same depth, the engine gives
/// the same score, the same line and the same count: what it finds depends
/// on nothing but the position and the depth.
pub proof fn lemma_evaluation_is_determined(
    board: BoardState,
    depth: int,
    first: Outcome,
    second: Outcome,
)
    requires
        first == evaluation(board, depth),
        second == evaluation(board, depth),
    ensures
        first.score == second.score,
        first.score.bits == second.score.bits,
        first.line == second.line,
        first.nodes == second.nodes,
{
}

} // verus!
