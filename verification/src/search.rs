//! The evaluator and the fixed-depth negamax search with alpha-beta pruning:
//! a zero-allocation make/unmake walk of the game tree that restores the
//! board bit for bit at every return.

use vstd::prelude::*;

use crate::board::{
    legal_move, lemma_move_list_exact, lemma_play_cancel, lemma_spec_move_list_len, spec_move_list,
    wins_outer, Board, BoardV,
};
use crate::moves::MoveStruct;
use crate::tables::{
    bit, count_cells, popcount9, position_score, score_at, valid_score_table, valid_win_table,
};

verus! {

/// The fixed search depth of the engine.
pub const MAX_DEPTH: usize = 7;

/// The positional weight of a sub-board: the centre weighs most, the corners
/// next, the edges least.
pub open spec fn board_weight(b: int) -> int {
    if b == 4 {
        4
    } else if b % 2 == 0 {
        3
    } else {
        2
    }
}

/// Returns the positional weight of sub-board `b`.
pub fn board_weight_at(b: usize) -> (r: i32)
    requires
        b < 9,
    ensures
        r == board_weight(b as int),
        2 <= r <= 4,
{
    if b == 4 {
        4
    } else if b % 2 == 0 {
        3
    } else {
        2
    }
}

/// Partial sum of the weighted scores of the unfinished sub-boards below `n`,
/// from the mover's perspective.
pub open spec fn eval_upto(v: BoardV, n: nat) -> int
    decreases n,
{
    if n == 0 {
        0
    } else {
        eval_upto(v, (n - 1) as nat) + (if !bit(v.finished, (n - 1) as u16) {
            position_score(v.mini[v.turn][n - 1], v.mini[1 - v.turn][n - 1]) * board_weight(
                n - 1,
            )
        } else {
            0
        })
    }
}

/// The heuristic score of a position from the mover's perspective: the outer
/// boards' score weighted by 1000, plus the weighted scores of the sub-boards
/// still open.
pub open spec fn spec_eval(v: BoardV) -> int {
    position_score(v.big[v.turn], v.big[1 - v.turn]) * 1000 + eval_upto(v, 9)
}

/// The exact outcome score when no move is left, from the mover's
/// perspective: a draw counts 0; otherwise the magnitude grows the shallower
/// the depth at which the game ended.
pub open spec fn terminal_score(v: BoardV, depth: int) -> int {
    let mine = popcount9(v.big[v.turn]);
    let theirs = popcount9(v.big[1 - v.turn]);
    if mine == theirs {
        0
    } else if mine < theirs {
        (7 - depth) * 1000000
    } else {
        -((7 - depth) * 1000000)
    }
}

/// Every score slot of every depth's buffer stays in the range scores at
/// that depth can take: the magnitude shrinks by a million per level.
pub open spec fn buffers_ok(bufs: Seq<MoveStruct>) -> bool {
    &&& bufs.len() == 7
    &&& forall|d: int, i: int|
        0 <= d < 7 && 0 <= i < 81 ==> -((7 - d) * 1000000) <= #[trigger] bufs[d].moves@[i].1 <= (7
            - d) * 1000000
}

impl Board {
    /// Scores the position for the player about to move: the outer-board
    /// pair's table score weighted by 1000, plus each open sub-board's table
    /// score times its positional weight.
    pub fn eval(&self, scores_by_position: &Vec<i32>) -> (r: i32)
        requires
            self@.inv(),
            valid_score_table(scores_by_position@),
        ensures
            r == spec_eval(self@),
            -132608 <= r <= 132608,
    {
        let t = self.player_turn;
        let o = 1 - t;
        let mut score = score_at(
            scores_by_position,
            self.players_big_board[t],
            self.players_big_board[o],
        ) * 1000;
        let mut i: usize = 0;
        while i < 9
            invariant
                i <= 9,
                score == position_score(self@.big[self@.turn], self@.big[1 - self@.turn]) * 1000
                    + eval_upto(self@, i as nat),
                -128000 - 512 * (i as int) <= score <= 128000 + 512 * (i as int),
            decreases 9 - i,
        {
            proof {
                let f = self@.finished;
                let iu = i as u16;
                assert(((f >> iu) & 1 == 0) == !bit(f, iu)) by (bit_vector);
            }
            if (self.finished_played_boards >> (i as u16)) & 1 == 0 {
                let s = score_at(
                    scores_by_position,
                    self.players_mini_boards[t][i],
                    self.players_mini_boards[o][i],
                );
                let w = board_weight_at(i);
                score = score + s * w;
            }
            i = i + 1;
        }
        score
    }

    /// Fixed-depth negamax with alpha-beta pruning. Returns a legal move of
    /// the position (or 0 when the game is over, with the exact outcome
    /// score), and restores the board bit for bit. Ties between equally
    /// scored moves keep the last maximal move in generation order.
    pub fn minimax(
        &mut self,
        moves_by_depth: &mut [MoveStruct; 7],
        scores_by_position: &Vec<i32>,
        win: &Vec<bool>,
        depth: usize,
        alpha: i32,
        beta: i32,
    ) -> (r: (u8, i32))
        requires
            old(self)@.inv(),
            valid_score_table(scores_by_position@),
            valid_win_table(win@),
            depth < 7,
            -2000000000 <= alpha <= 2000000000,
            -2000000000 <= beta <= 2000000000,
            buffers_ok(old(moves_by_depth)@),
        ensures
            final(self)@ == old(self)@,
            buffers_ok(final(moves_by_depth)@),
            forall|d: int| 0 <= d < depth ==> final(moves_by_depth)@[d] == old(moves_by_depth)@[d],
            -((7 - depth as int) * 1000000) <= r.1 <= (7 - depth as int) * 1000000,
            spec_move_list(old(self)@).len() == 0 ==> r.0 == 0 && r.1 == terminal_score(
                old(self)@,
                depth as int,
            ),
            spec_move_list(old(self)@).len() > 0 ==> legal_move(old(self)@, r.0),
            // With a window no score can cross, a move that ends the game at
            // once yields exactly the loss score scaled by the remaining
            // depth.
            (alpha <= 7000000 && beta > 7000000 && exists|k: int|
                0 <= k < spec_move_list(old(self)@).len() && #[trigger] wins_outer(
                    old(self)@,
                    spec_move_list(old(self)@)[k],
                )) ==> r.1 == (7 - depth as int) * 1000000,
        decreases 7 - depth,
    {
        let ghost v0 = self@;
        let ghost bufs0 = moves_by_depth@;
        let ghost list = spec_move_list(v0);
        let ghost wide = alpha <= 7000000 && beta > 7000000;
        proof {
            lemma_spec_move_list_len(v0);
        }

        let mut buf = moves_by_depth[depth];
        self.get_moves(&mut buf);
        moves_by_depth[depth] = buf;

        let n = moves_by_depth[depth].index;
        if n == 0 {
            let mine = count_cells(self.players_big_board[self.player_turn]);
            let theirs = count_cells(self.players_big_board[1 - self.player_turn]);
            if mine == theirs {
                return (0, 0);
            }
            if mine < theirs {
                return (0, ((7 - depth) as i32) * 1000000);
            }
            return (0, -(((7 - depth) as i32) * 1000000));
        }

        proof {
            lemma_move_list_exact(v0);
        }

        let mut alpha = alpha;
        let mut cut: bool = false;
        let mut i: usize = 0;
        while i < n as usize && !cut
            invariant
                i <= n as int,
                self@ == v0,
                moves_by_depth@[depth as int].index == n,
                moves_by_depth@[depth as int].live() == list,
                n as int == list.len(),
                buffers_ok(moves_by_depth@),
                forall|d: int| 0 <= d < depth ==> moves_by_depth@[d] == bufs0[d],
                -2000000000 <= alpha <= 2000000000,
                wide ==> alpha <= 7000000,
                wide ==> !cut,
                wide ==> forall|k: int|
                    0 <= k < i && wins_outer(v0, list[k])
                        ==> #[trigger] moves_by_depth@[depth as int].moves@[k].1 == (7
                        - depth as int) * 1000000,
            decreases n as int - i, (if cut { 0int } else { 1int }),
        {
            let mv = moves_by_depth[depth].moves[i].0;
            proof {
                assert(list[i as int] == mv);
                assert(legal_move(v0, mv));
            }
            let previous_mini_board_can_play = self.mini_board_can_play;
            self.play_move(win, mv);
            let score: i32;
            let lost = self.is_losing(win);
            proof {
                assert(lost == wins_outer(v0, mv));
            }
            if lost {
                score = ((7 - depth) as i32) * 1000000;
            } else if depth + 1 == 7 {
                score = -self.eval(scores_by_position);
            } else {
                let (_, best_score) = self.minimax(
                    moves_by_depth,
                    scores_by_position,
                    win,
                    depth + 1,
                    -beta,
                    -alpha,
                );
                score = -best_score;
            }
            self.cancel_move(mv, previous_mini_board_can_play);
            proof {
                lemma_play_cancel(v0, mv);
            }

            let mut scored = moves_by_depth[depth];
            scored.moves[i] = (mv, score);
            moves_by_depth[depth] = scored;
            proof {
                assert(moves_by_depth@[depth as int].live() =~= list);
            }

            if score > alpha {
                alpha = score;
            }
            if alpha > beta {
                cut = true;
            } else {
                i = i + 1;
            }
        }

        // The best entry is the last one with the maximal recorded score, in
        // generation order.
        let mut best_move = moves_by_depth[depth].moves[0].0;
        let mut best_score = moves_by_depth[depth].moves[0].1;
        let ghost mut best_k: int = 0;
        let mut j: usize = 1;
        while j < n as usize
            invariant
                1 <= j <= n as int,
                0 <= best_k < j,
                moves_by_depth@[depth as int].index == n,
                moves_by_depth@[depth as int].live() == list,
                n as int == list.len(),
                moves_by_depth@[depth as int].moves@[best_k].0 == best_move,
                moves_by_depth@[depth as int].moves@[best_k].1 == best_score,
                forall|k: int|
                    0 <= k < j ==> #[trigger] moves_by_depth@[depth as int].moves@[k].1
                        <= best_score,
                buffers_ok(moves_by_depth@),
            decreases n as int - j,
        {
            let entry = moves_by_depth[depth].moves[j];
            if entry.1 >= best_score {
                best_move = entry.0;
                best_score = entry.1;
                proof {
                    best_k = j as int;
                }
            }
            j = j + 1;
        }
        proof {
            assert(list[best_k] == best_move);
            assert(legal_move(v0, best_move));
            if wide && (exists|k: int|
                0 <= k < list.len() && #[trigger] wins_outer(v0, list[k])) {
                let k = choose|k: int| 0 <= k < list.len() && #[trigger] wins_outer(v0, list[k]);
                assert(moves_by_depth@[depth as int].moves@[k].1 == (7 - depth as int) * 1000000);
                assert(moves_by_depth@[depth as int].moves@[k].1 <= best_score);
            }
        }
        (best_move, best_score)
    }
}

} // verus!
