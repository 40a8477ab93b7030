//! Fixed-depth minimax search over the legal-move generator and the
//! static evaluator, with no pruning.

use vstd::prelude::*;

verus! {

use crate::board::Board;
use crate::board::BoardModel;
use crate::board::Color;
use crate::eval;
use crate::eval::spec_eval;
use crate::movegen::attacked;
use crate::movegen::generate_moves;
use crate::movegen::lemma_apply_valid_ready;
use crate::movegen::model_legal_moves;
use crate::movegen::Move;

/// The minimax value of a position, `active` to move, looking `depth`
/// plies ahead: the static score at depth zero; with no legal move, a
/// forced-mate score, or zero for stalemate; otherwise the maximum
/// (White to choose) or minimum (Black to choose) of the children's
/// values.  A mate found with more remaining depth lies fewer plies from
/// the root, and gets the more extreme score, so the winning side
/// prefers the shallower mate.
pub open spec fn spec_minimax(v: BoardModel, depth: u8, maximizing: bool, active: Color) -> int
    decreases depth, 1int, 0int,
{
    if depth == 0 {
        spec_eval(v)
    } else {
        let w = v.with_side(active);
        let ms = model_legal_moves(w);
        if ms.len() == 0 {
            if attacked(w, w.own_king() as int) {
                if active == Color::White {
                    i32::MIN + (256 - depth)
                } else {
                    i32::MAX - (256 - depth)
                }
            } else {
                0
            }
        } else {
            spec_best_score(
                w,
                ms,
                0,
                depth,
                maximizing,
                active,
                if maximizing {
                    i32::MIN as int
                } else {
                    i32::MAX as int
                },
            )
        }
    }
}

/// Folds the minimax values of the moves `ms[i..]` into the accumulator
/// `acc`, keeping the maximum or the minimum.
pub open spec fn spec_best_score(
    w: BoardModel,
    ms: Seq<Move>,
    i: int,
    depth: u8,
    maximizing: bool,
    active: Color,
    acc: int,
) -> int
    decreases depth, 0int, ms.len() - i,
{
    if depth == 0 || !(0 <= i < ms.len()) {
        acc
    } else {
        let sc = spec_minimax(
            w.apply_move(ms[i]),
            (depth - 1) as u8,
            !maximizing,
            active.spec_opposite(),
        );
        let acc2 = if maximizing {
            if sc > acc {
                sc
            } else {
                acc
            }
        } else {
            if sc < acc {
                sc
            } else {
                acc
            }
        };
        spec_best_score(w, ms, i + 1, depth, maximizing, active, acc2)
    }
}

/// The minimax score of the position with `active_side` put to move,
/// searched to `depth` plies.  At depth zero this is exactly the static
/// evaluation of the board.
pub fn minimax(board: &Board, depth: u8, maximizing_player: bool, active_side: Color) -> (score:
    i32)
    requires
        depth > 0 ==> board@.with_side(active_side).ready(),
        board@.halfmove_clock + depth <= 0xffff_ffffu32,
    ensures
        score as int == spec_minimax(board@, depth, maximizing_player, active_side),
        depth == 0 ==> score == spec_eval(board@),
    decreases depth,
{
    if depth == 0 {
        return eval::eval(&board);
    }
    let mut board_copy = *board;
    board_copy.side_to_move = active_side;
    let ghost w = board_copy@;
    let moves = generate_moves(&board_copy);

    if moves.len() == 0 {
        if board_copy.is_check() {
            return if active_side == Color::White {
                i32::MIN + (256 - depth as i32)
            } else {
                i32::MAX - (256 - depth as i32)
            };
        } else {
            return 0;
        }
    }
    let ghost init: int = if maximizing_player {
        i32::MIN as int
    } else {
        i32::MAX as int
    };

    let mut best_score: i32 = if maximizing_player {
        i32::MIN
    } else {
        i32::MAX
    };

    let mut i: usize = 0;
    while i < moves.len()
        invariant
            w == board_copy@,
            w == board@.with_side(active_side),
            w.ready(),
            w.halfmove_clock + depth <= 0xffff_ffffu32,
            depth >= 1,
            i <= moves@.len(),
            moves@ == model_legal_moves(w),
            forall|j: int|
                0 <= j < moves@.len() ==> crate::movegen::pseudo_legal(w, #[trigger] moves@[j])
                    && crate::movegen::spec_valid(w, moves@[j]) && w.applicable(moves@[j]),
            spec_best_score(w, moves@, i as int, depth, maximizing_player, active_side, best_score as int)
                == spec_best_score(w, moves@, 0, depth, maximizing_player, active_side, init),
        decreases moves@.len() - i,
    {
        let move_candidate = moves[i];
        let mut board_for_move = board_copy;

        proof {
            lemma_apply_valid_ready(w, move_candidate);
        }
        board_for_move.make_move(move_candidate);

        let opposite_side = active_side.opposite();

        let eval_score = minimax(&board_for_move, depth - 1, !maximizing_player, opposite_side);

        best_score = if maximizing_player {
            if eval_score > best_score {
                eval_score
            } else {
                best_score
            }
        } else {
            if eval_score < best_score {
                eval_score
            } else {
                best_score
            }
        };
        i += 1;
    }

    best_score
}

/// Folds the best move of `ms[i..]` starting from the running best pair.
pub open spec fn spec_best_move_from(
    v: BoardModel,
    ms: Seq<Move>,
    i: int,
    depth: u8,
    maximizing: bool,
    best_m: Move,
    best_s: int,
) -> Move
    decreases ms.len() - i,
{
    if depth == 0 || !(0 <= i < ms.len()) {
        best_m
    } else {
        let sc = spec_minimax(
            v.apply_move(ms[i]),
            (depth - 1) as u8,
            !maximizing,
            v.side_to_move.spec_opposite(),
        );
        let better = if maximizing {
            sc > best_s
        } else {
            sc < best_s
        };
        if better {
            spec_best_move_from(v, ms, i + 1, depth, maximizing, ms[i], sc)
        } else {
            spec_best_move_from(v, ms, i + 1, depth, maximizing, best_m, best_s)
        }
    }
}

/// The move the search returns: none without a legal move, otherwise the
/// first legal move attaining the best minimax score at `depth` plies,
/// maximizing for White and minimizing for Black.
pub open spec fn spec_best_move(v: BoardModel, depth: u8) -> Option<Move> {
    let ms = model_legal_moves(v);
    let maximizing = v.side_to_move == Color::White;
    if ms.len() == 0 {
        None
    } else {
        Some(
            spec_best_move_from(
                v,
                ms,
                0,
                depth,
                maximizing,
                ms[0],
                if maximizing {
                    i32::MIN as int
                } else {
                    i32::MAX as int
                },
            ),
        )
    }
}

/// Picks the best move for the side to move by a full-width minimax
/// search of `depth` plies.  Returns nothing exactly when the side to
/// move has no legal move; the caller distinguishes checkmate from
/// stalemate with `is_check`.
pub fn minimax_best_move(board: &Board, depth: u8) -> (best: Option<Move>)
    requires
        board@.ready(),
        depth >= 1,
        board@.halfmove_clock + depth <= 0xffff_ffffu32,
    ensures
        best == spec_best_move(board@, depth),
        best is None <==> model_legal_moves(board@).len() == 0,
        best matches Some(m) ==> model_legal_moves(board@).contains(m),
{
    let ghost v = board@;
    let moves = generate_moves(board);
    if moves.len() == 0 {
        return None;
    }

    let maximizing = board.side_to_move == Color::White;
    let mut best_move = moves[0];
    let mut best_score: i32 = if maximizing {
        i32::MIN
    } else {
        i32::MAX
    };
    let ghost init: int = best_score as int;

    let mut i: usize = 0;
    while i < moves.len()
        invariant
            v == board@,
            v.ready(),
            v.halfmove_clock + depth <= 0xffff_ffffu32,
            depth >= 1,
            maximizing == (v.side_to_move == Color::White),
            i <= moves@.len(),
            moves@ == model_legal_moves(v),
            forall|j: int|
                0 <= j < moves@.len() ==> crate::movegen::pseudo_legal(v, #[trigger] moves@[j])
                    && crate::movegen::spec_valid(v, moves@[j]) && v.applicable(moves@[j]),
            moves@.contains(best_move),
            spec_best_move_from(v, moves@, i as int, depth, maximizing, best_move, best_score as int)
                == spec_best_move_from(v, moves@, 0, depth, maximizing, moves@[0], init),
        decreases moves@.len() - i,
    {
        let move_candidate = moves[i];
        let mut board_copy = *board;
        proof {
            lemma_apply_valid_ready(v, move_candidate);
        }
        board_copy.make_move(move_candidate);
        let score = minimax(&board_copy, depth - 1, !maximizing, board.side_to_move.opposite());

        let is_better = if maximizing {
            score > best_score
        } else {
            score < best_score
        };

        if is_better {
            best_score = score;
            best_move = move_candidate;
            proof {
                assert(moves@.contains(best_move)) by {
                    assert(moves@[i as int] == best_move);
                }
            }
        }
        i += 1;
    }

    Some(best_move)
}

} // verus!
