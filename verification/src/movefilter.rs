//! A legality filter that works in place: it applies each candidate to
//! the caller's board, tests the king, and undoes the move again, leaving
//! the board exactly as it was.

use vstd::prelude::*;

verus! {

use crate::board::Board;
use crate::board::Color;
use crate::movegen::is_square_attacked;
use crate::movegen::pseudo_legal;
use crate::movegen::spec_valid;
use crate::movegen::Move;

/// Keeps exactly the pseudo-legal moves that survive the legality
/// filter, mutating and restoring the caller's board move by move: the
/// board ends bit-for-bit where it started.
pub fn filter(board: &mut Board, moves: Vec<Move>) -> (valid_moves: Vec<Move>)
    requires
        old(board)@.ready(),
        old(board)@.halfmove_clock < 0xffff_ffffu32,
        forall|i: int| 0 <= i < moves@.len() ==> pseudo_legal(old(board)@, #[trigger] moves@[i]),
    ensures
        final(board)@ == old(board)@,
        valid_moves@ == moves@.filter(|m: Move| spec_valid(old(board)@, m)),
{
    let ghost v = old(board)@;
    let ghost pred = |m: Move| spec_valid(v, m);
    let mut valid_moves: Vec<Move> = Vec::with_capacity(moves.len());
    let mut i: usize = 0;
    while i < moves.len()
        invariant
            board@ == v,
            v.ready(),
            v.halfmove_clock < 0xffff_ffffu32,
            pred == (|m: Move| spec_valid(v, m)),
            i <= moves@.len(),
            forall|j: int| 0 <= j < moves@.len() ==> pseudo_legal(v, #[trigger] moves@[j]),
            valid_moves@ == moves@.subrange(0, i as int).filter(pred),
        decreases moves@.len() - i,
    {
        let movement = moves[i];
        let old_king_position = match board.side_to_move {
            Color::White => board.white_king,
            Color::Black => board.black_king,
        };

        let keep: bool;
        if movement.is_castle() {
            if movement.is_castle_kingside() {
                keep = !is_square_attacked(board, old_king_position) && !is_square_attacked(
                    board,
                    old_king_position + 1,
                ) && board.squares[(old_king_position + 1) as usize].is_none()
                    && !is_square_attacked(board, old_king_position + 2)
                    && board.squares[(old_king_position + 2) as usize].is_none();
            } else {
                keep = !is_square_attacked(board, old_king_position) && !is_square_attacked(
                    board,
                    old_king_position - 1,
                ) && board.squares[(old_king_position - 1) as usize].is_none()
                    && !is_square_attacked(board, old_king_position - 2)
                    && board.squares[(old_king_position - 2) as usize].is_none()
                    && board.squares[(old_king_position - 3) as usize].is_none();
            }
        } else {
            let undo_info = board.make_move(movement);

            if movement.get_from() == old_king_position {
                keep = !is_square_attacked(board, movement.get_to());
            } else {
                keep = !is_square_attacked(board, old_king_position);
            }

            board.unmake_move(movement, undo_info);
            proof {
                crate::board::lemma_make_unmake_roundtrip(v, movement);
                assert(board@ == v);
                assert(v.apply_move(movement).own_king() == (if movement.spec_from()
                    == old_king_position {
                    movement.spec_to()
                } else {
                    old_king_position
                }));
            }
        }
        proof {
            reveal(Seq::filter);
            assert(moves@.subrange(0, i as int + 1).drop_last() =~= moves@.subrange(0, i as int));
            assert(moves@.subrange(0, i as int + 1).last() == moves@[i as int]);
            assert(keep == spec_valid(v, movement));
        }
        if keep {
            valid_moves.push(movement);
        }
        i += 1;
    }
    proof {
        assert(moves@.subrange(0, moves@.len() as int) =~= moves@);
    }
    valid_moves
}

} // verus!
