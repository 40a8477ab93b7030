//! The static evaluator: material balance plus fixed piece-square
//! positional tables, positive in White's favor.

use vstd::prelude::*;

verus! {

use crate::board::Board;
use crate::board::BoardModel;
use crate::board::Color;
use crate::board::Piece;

// Every table is written from Black's point of view (rank 8 first), so a
// White piece reads it through the mirrored index `63 - square`.
pub const PAWN_TABLE: [i32; 64] = [
    0, 0, 0, 0, 0, 0, 0, 0, 50, 50, 50, 50, 50, 50, 50, 50, 10, 10, 20, 30, 30, 20, 10, 10, 5, 5,
    10, 25, 25, 10, 5, 5, 0, 0, 0, 20, 20, 0, 0, 0, 5, -5, -10, 0, 0, -10, -5, 5, 5, 10, 10, -20,
    -20, 10, 10, 5, 0, 0, 0, 0, 0, 0, 0, 0,
];

pub const KNIGHT_TABLE: [i32; 64] = [
    -50, -40, -30, -30, -30, -30, -40, -50, -40, -20, 0, 0, 0, 0, -20, -40, -30, 0, 10, 15, 15, 10,
    0, -30, -30, 5, 15, 20, 20, 15, 5, -30, -30, 0, 15, 20, 20, 15, 0, -30, -30, 5, 10, 15, 15, 10,
    5, -30, -40, -20, 0, 5, 5, 0, -20, -40, -50, -40, -30, -30, -30, -30, -40, -50,
];

pub const BISHOP_TABLE: [i32; 64] = [
    -20, -10, -10, -10, -10, -10, -10, -20, -10, 0, 0, 0, 0, 0, 0, -10, -10, 0, 5, 10, 10, 5, 0,
    -10, -10, 5, 5, 10, 10, 5, 5, -10, -10, 0, 10, 10, 10, 10, 0, -10, -10, 10, 10, 10, 10, 10, 10,
    -10, -10, 5, 0, 0, 0, 0, 5, -10, -20, -10, -10, -10, -10, -10, -10, -20,
];

pub const ROOK_TABLE: [i32; 64] = [
    0, 0, 0, 0, 0, 0, 0, 0, 5, 10, 10, 10, 10, 10, 10, 5, -5, 0, 0, 0, 0, 0, 0, -5, -5, 0, 0, 0, 0,
    0, 0, -5, -5, 0, 0, 0, 0, 0, 0, -5, -5, 0, 0, 0, 0, 0, 0, -5, -5, 0, 0, 0, 0, 0, 0, -5, 0, 0,
    0, 5, 5, 0, 0, 0,
];

pub const QUEEN_TABLE: [i32; 64] = [
    -20, -10, -10, -5, -5, -10, -10, -20, -10, 0, 0, 0, 0, 0, 0, -10, -10, 0, 5, 5, 5, 5, 0, -10,
    -5, 0, 5, 5, 5, 5, 0, -5, 0, 0, 5, 5, 5, 5, 0, -5, -10, 5, 5, 5, 5, 5, 0, -10, -10, 0, 5, 0, 0,
    0, 0, -10, -20, -10, -10, -5, -5, -10, -10, -20,
];

pub const KING_TABLE: [i32; 64] = [
    -30, -40, -40, -50, -50, -40, -40, -30, -30, -40, -40, -50, -50, -40, -40, -30, -30, -40, -40,
    -50, -50, -40, -40, -30, -30, -40, -40, -50, -50, -40, -40, -30, -20, -30, -30, -40, -40, -30,
    -30, -20, -10, -20, -20, -20, -20, -20, -20, -10, 20, 20, 0, 0, 0, 0, 20, 20, 20, 30, 10, 0, 0,
    10, 30, 20,
];

/// The fixed material value of a piece.
pub open spec fn spec_piece_value(p: Piece) -> int {
    match p {
        Piece::Pawn(_) => 100,
        Piece::Knight(_) => 300,
        Piece::Bishop(_) => 300,
        Piece::Rook(_) => 500,
        Piece::Queen(_) => 900,
        Piece::King(_) => 0,
    }
}

/// The positional table of a piece kind.
pub open spec fn spec_kind_table(p: Piece) -> Seq<i32> {
    match p {
        Piece::Pawn(_) => PAWN_TABLE@,
        Piece::Knight(_) => KNIGHT_TABLE@,
        Piece::Bishop(_) => BISHOP_TABLE@,
        Piece::Rook(_) => ROOK_TABLE@,
        Piece::Queen(_) => QUEEN_TABLE@,
        Piece::King(_) => KING_TABLE@,
    }
}

/// The positional bonus of the piece `p` on `square`: its kind's table,
/// mirrored for White so that both sides read it from their own
/// perspective.
pub open spec fn spec_bonus(p: Piece, square: int) -> int {
    let idx = if p.spec_color() == Color::White {
        63 - square
    } else {
        square
    };
    spec_kind_table(p)[idx] as int
}

/// The material and positional score of the pieces of `color` on the
/// first `n` squares.
pub open spec fn spec_material_upto(s: Seq<Option<Piece>>, color: Color, n: int) -> int
    decreases n,
{
    if n <= 0 {
        0
    } else {
        spec_material_upto(s, color, n - 1) + (match s[n - 1] {
            Some(p) => if p.spec_color() == color {
                spec_piece_value(p) + spec_bonus(p, n - 1)
            } else {
                0
            },
            None => 0,
        })
    }
}

/// The material and positional score of all pieces of `color`.
pub open spec fn spec_material(v: BoardModel, color: Color) -> int {
    spec_material_upto(v.squares, color, 64)
}

/// The static score of a position: positive values favor White.
pub open spec fn spec_eval(v: BoardModel) -> int {
    spec_material(v, Color::White) - spec_material(v, Color::Black)
}

/// Every positional table entry lies between -50 and 50, so one side's
/// total score fits comfortably in 16 bits.
proof fn lemma_table_bounds(p: Piece, square: int)
    requires
        0 <= square < 64,
    ensures
        -50 <= spec_bonus(p, square) <= 50,
        -50 <= spec_piece_value(p) + spec_bonus(p, square) <= 950,
{
}

/// One side's score is bounded by its 64 squares' extremes.
proof fn lemma_material_bounds(s: Seq<Option<Piece>>, color: Color, n: int)
    requires
        0 <= n <= 64,
    ensures
        -50 * n <= spec_material_upto(s, color, n) <= 950 * n,
    decreases n,
{
    if n > 0 {
        lemma_material_bounds(s, color, n - 1);
        if s[n - 1] matches Some(p) && p.spec_color() == color {
            lemma_table_bounds(s[n - 1]->Some_0, n - 1);
        }
    }
}

/// The fixed material value of a piece: pawn 100, knight and bishop 300,
/// rook 500, queen 900, king 0.
pub fn piece_value(piece: &Piece) -> (r: i32)
    ensures
        r == spec_piece_value(*piece),
{
    match piece {
        Piece::Pawn(_) => 100,
        Piece::Knight(_) => 300,
        Piece::Bishop(_) => 300,
        Piece::Rook(_) => 500,
        Piece::Queen(_) => 900,
        Piece::King(_) => 0,
    }
}

/// Sums the material values and positional bonuses of all pieces of
/// `color`.
pub fn count_material(board: &Board, color: Color) -> (material: i32)
    ensures
        material == spec_material(board@, color),
{
    let ghost v = board@;
    let mut material: i32 = 0;
    let mut index: usize = 0;
    while index < 64
        invariant
            v == board@,
            index <= 64,
            material == spec_material_upto(v.squares, color, index as int),
            -50 * index <= material <= 950 * index,
        decreases 64 - index,
    {
        if let Some(piece) = board.squares[index] {
            if piece.color() == color {
                let value = piece_value(&piece);

                let table: &[i32; 64] = match piece {
                    Piece::Pawn(_) => &PAWN_TABLE,
                    Piece::Knight(_) => &KNIGHT_TABLE,
                    Piece::Bishop(_) => &BISHOP_TABLE,
                    Piece::Rook(_) => &ROOK_TABLE,
                    Piece::Queen(_) => &QUEEN_TABLE,
                    Piece::King(_) => &KING_TABLE,
                };

                let table_index: usize = if piece.color() == Color::White {
                    63 - index
                } else {
                    index
                };

                let bonus = table[table_index];
                proof {
                    lemma_table_bounds(piece, index as int);
                }
                material = material + value + bonus;
            }
        }
        index += 1;
    }
    material
}

/// The static score of the position: White's material and positional
/// total minus Black's.
pub fn eval(board: &Board) -> (score: i32)
    ensures
        score == spec_eval(board@),
{
    proof {
        lemma_material_bounds(board@.squares, Color::White, 64);
        lemma_material_bounds(board@.squares, Color::Black, 64);
    }
    let white_material = count_material(board, Color::White);
    let black_material = count_material(board, Color::Black);

    white_material - black_material
}

} // verus!
