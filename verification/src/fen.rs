//! Reading and writing positions in the six-field FEN notation: piece
//! placement by rank, side to move, castling rights, en-passant target,
//! half-move clock and full-move number.
//!
//! Parsing validates what the rest of the engine relies on: a malformed
//! text, a position without exactly one king a side, castling rights
//! whose king or rook has left home, an unanswerable en-passant target,
//! or a position whose side to move already attacks the opposing king
//! are all rejected with a descriptive error.

use vstd::prelude::*;

verus! {

use crate::board::Board;
use crate::board::Color;
use crate::board::Piece;
use crate::board::BLACK_KINGSIDE_CASTLING_RIGHTS;
use crate::board::BLACK_QUEENSIDE_CASTLING_RIGHTS;
use crate::board::WHITE_KINGSIDE_CASTLING_RIGHTS;
use crate::board::WHITE_QUEENSIDE_CASTLING_RIGHTS;
use vstd::string::StrSliceExecFns;

/// Relies on `String::push`: appends exactly the given character.
pub assume_specification [ String::push ](s: &mut String, ch: char)
    ensures
        final(s)@ == old(s)@.push(ch),
;

/// Reads an unsigned decimal number.
fn parse_u32(s: &str) -> (r: Result<u32, String>)
    ensures
        r matches Ok(n) ==> n < 0xffff_ffffu32,
{
    let len = s.unicode_len();
    if len == 0 {
        return Err("empty number".to_owned());
    }
    let mut value: u64 = 0;
    let mut i: usize = 0;
    while i < len
        invariant
            len == s@.len(),
            i <= len,
            value < 0xffff_ffffu64,
        decreases len - i,
    {
        let c = s.get_char(i);
        let d = c as u32;
        if !(48 <= d && d <= 57) {
            return Err("invalid digit".to_owned());
        }
        let next: u64 = value * 10 + (d - 48) as u64;
        if next >= 0xffff_ffffu64 {
            return Err("number out of range".to_owned());
        }
        value = next;
        i += 1;
    }
    Ok(value as u32)
}

/// Writes `n` in decimal.
fn u32_to_string(n: u32) -> (s: String)
    ensures
        s@.len() >= 1,
{
    let mut digits: Vec<char> = Vec::new();
    let mut rest = n;
    digits.push(((rest % 10) as u8 + 48) as char);
    rest = rest / 10;
    while rest > 0
        invariant
            digits@.len() >= 1,
        decreases rest,
    {
        digits.push(((rest % 10) as u8 + 48) as char);
        rest = rest / 10;
    }
    let mut s = String::new();
    let mut i = digits.len();
    while i > 0
        invariant
            i <= digits@.len(),
            s@.len() == digits@.len() - i,
        decreases i,
    {
        i -= 1;
        s.push(digits[i]);
    }
    s
}

/// Any union of the four castling-right bits stays within the low four
/// bits.
proof fn lemma_or_mask_small()
    ensures
        forall|r: u8, m: u8| r <= 0b1111u8 && m <= 0b1111u8 ==> (#[trigger] (r | m)) <= 0b1111u8,
{
    assert forall|r: u8, m: u8| r <= 0b1111u8 && m <= 0b1111u8 implies (#[trigger] (r | m))
        <= 0b1111u8 by {
        assert(r <= 0b1111u8 && m <= 0b1111u8 ==> (r | m) <= 0b1111u8) by (bit_vector);
    }
}

impl Board {
    /// Reads a coordinate such as `e4`: file letter `a` to `h`, then
    /// rank digit `1` to `8`.
    pub fn string_to_square(coordinates: &str) -> (r: Result<u8, String>)
        ensures
            ({
                if coordinates@.len() == 2 && 'a' <= coordinates@[0] && coordinates@[0] <= 'h'
                    && '1' <= coordinates@[1] && coordinates@[1] <= '8' {
                    r == Ok::<u8, String>(
                        (((coordinates@[1] as int - '1' as int) * 8 + (coordinates@[0] as int
                            - 'a' as int))) as u8,
                    )
                } else {
                    r is Err
                }
            }),
    {
        if coordinates.unicode_len() != 2 {
            return Err("invalid coordinate".to_owned());
        }
        let file = coordinates.get_char(0);
        let rank = coordinates.get_char(1);
        let f = file as u32;
        let k = rank as u32;

        if !(97 <= f && f <= 104) || !(49 <= k && k <= 56) {
            return Err("invalid square".to_owned());
        }

        let file_index = (f - 97) as u8;
        let rank_index = (k - 49) as u8;

        let square = rank_index * 8 + file_index;
        Ok(square)
    }

    /// Reads the castling-rights field: `-`, or any of `KQkq`.
    fn parse_castling_rights(rights: &str) -> (r: Result<u8, String>)
        ensures
            r matches Ok(c) ==> c <= 0b1111u8,
    {
        let len = rights.unicode_len();
        if len == 1 && rights.get_char(0) == '-' {
            return Ok(0);
        }
        let mut castling_rights = 0u8;
        let mut i: usize = 0;
        while i < len
            invariant
                len == rights@.len(),
                i <= len,
                castling_rights <= 0b1111u8,
            decreases len - i,
        {
            proof {
                lemma_or_mask_small();
            }
            let ch = rights.get_char(i);
            match ch {
                'K' => {
                    castling_rights = castling_rights | WHITE_KINGSIDE_CASTLING_RIGHTS;
                },
                'Q' => {
                    castling_rights = castling_rights | WHITE_QUEENSIDE_CASTLING_RIGHTS;
                },
                'k' => {
                    castling_rights = castling_rights | BLACK_KINGSIDE_CASTLING_RIGHTS;
                },
                'q' => {
                    castling_rights = castling_rights | BLACK_QUEENSIDE_CASTLING_RIGHTS;
                },
                _ => {
                    return Err("invalid castling right".to_owned());
                },
            }
            i += 1;
        }
        Ok(castling_rights)
    }

    /// Reads the en-passant field: `-` for none, or a coordinate.
    fn parse_en_passant(coordinates: &str) -> (r: Result<Option<u8>, String>)
        ensures
            r matches Ok(e) ==> (e matches Some(sq) ==> sq < 64),
    {
        let len = coordinates.unicode_len();
        if len == 1 && coordinates.get_char(0) == '-' {
            return Ok(None);
        }

        let square = match Self::string_to_square(coordinates) {
            Ok(sq) => sq,
            Err(e) => {
                return Err(e);
            },
        };
        Ok(Some(square))
    }

    /// Reads the piece-placement field: eight `/`-separated ranks, from
    /// rank 8 down to rank 1, a letter per piece and a digit per run of
    /// empty squares.  King locations are cached as they are seen.
    pub fn parse_pieces(&mut self, pieces: &str) -> (r: Result<(), String>)
        ensures
            final(self).side_to_move == old(self).side_to_move,
            final(self).castling_rights == old(self).castling_rights,
            final(self).en_passant_square == old(self).en_passant_square,
            final(self).halfmove_clock == old(self).halfmove_clock,
            final(self).fullmove_number == old(self).fullmove_number,
            final(self).white_king < 64,
            final(self).black_king < 64,
    {
        let len = pieces.unicode_len();
        let mut i: usize = 0;
        let mut rank_index: usize = 0;
        let mut file_index: usize = 0;
        if self.white_king >= 64 {
            self.white_king = 0;
        }
        if self.black_king >= 64 {
            self.black_king = 0;
        }
        while i < len
            invariant
                len == pieces@.len(),
                i <= len,
                rank_index < 8,
                file_index <= 8,
                self.white_king < 64,
                self.black_king < 64,
                self.side_to_move == old(self).side_to_move,
                self.castling_rights == old(self).castling_rights,
                self.en_passant_square == old(self).en_passant_square,
                self.halfmove_clock == old(self).halfmove_clock,
                self.fullmove_number == old(self).fullmove_number,
            decreases len - i,
        {
            let ch = pieces.get_char(i);
            if ch == '/' {
                if file_index != 8 {
                    return Err("rank does not have 8 squares exactly".to_owned());
                }
                if rank_index == 7 {
                    return Err("too many ranks".to_owned());
                }
                rank_index += 1;
                file_index = 0;
            } else {
                let d = ch as u32;
                if 49 <= d && d <= 56 {
                    let empty = (d - 48) as usize;
                    if file_index + empty > 8 {
                        return Err("too many squares in a rank".to_owned());
                    }
                    file_index += empty;
                } else {
                    if file_index >= 8 {
                        return Err("too many squares in a rank".to_owned());
                    }
                    let piece = match Self::char_to_piece(ch) {
                        Ok(p) => p,
                        Err(e) => {
                            return Err(e);
                        },
                    };
                    let square = (7 - rank_index) * 8 + file_index;
                    self.squares[square] = Some(piece);

                    match piece {
                        Piece::King(Color::White) => {
                            self.white_king = square as u16;
                        },
                        Piece::King(Color::Black) => {
                            self.black_king = square as u16;
                        },
                        _ => {},
                    }
                    file_index += 1;
                }
            }
            i += 1;
        }
        if rank_index != 7 || file_index != 8 {
            return Err("not 8 ranks".to_owned());
        }
        Ok(())
    }

    /// Reads a full FEN record, validating it down to the invariants the
    /// engine relies on: exactly one king a side, castling rights with
    /// king and rook at home, an answerable en-passant target, and a
    /// position whose side to move does not already attack the enemy
    /// king.
    pub fn from_fen(fen: &str) -> (r: Result<Board, String>)
        ensures
            r matches Ok(b) ==> b@.ready() && b@.halfmove_clock < 0xffff_ffffu32,
    {
        let len = fen.unicode_len();
        let mut starts: Vec<usize> = Vec::new();
        let mut ends: Vec<usize> = Vec::new();
        let mut i: usize = 0;
        let mut in_field = false;
        while i < len
            invariant
                len == fen@.len(),
                i <= len,
                starts@.len() == ends@.len() + (if in_field {
                    1int
                } else {
                    0
                }),
                forall|j: int| 0 <= j < starts@.len() ==> #[trigger] starts@[j] <= len,
                forall|j: int| 0 <= j < ends@.len() ==> #[trigger] ends@[j] <= len,
                forall|j: int|
                    0 <= j < ends@.len() ==> #[trigger] starts@[j] <= ends@[j],
                in_field ==> starts@.len() >= 1 && starts@[starts@.len() - 1] <= i,
            decreases len - i,
        {
            let c = fen.get_char(i);
            if c == ' ' {
                if in_field {
                    ends.push(i);
                    in_field = false;
                }
            } else {
                if !in_field {
                    starts.push(i);
                    in_field = true;
                }
            }
            i += 1;
        }
        if in_field {
            ends.push(len);
        }

        if ends.len() != 6 {
            return Err("FEN must have 6 parts".to_owned());
        }

        let mut board = Board::new();

        let part0 = fen.substring_char(starts[0], ends[0]);
        match board.parse_pieces(part0) {
            Ok(()) => {},
            Err(e) => {
                return Err(e);
            },
        }

        let part1 = fen.substring_char(starts[1], ends[1]);
        if part1.unicode_len() != 1 {
            return Err("invalid color".to_owned());
        }
        board.side_to_move = match part1.get_char(0) {
            'w' => Color::White,
            'b' => Color::Black,
            _ => {
                return Err("invalid color".to_owned());
            },
        };

        let part2 = fen.substring_char(starts[2], ends[2]);
        board.castling_rights = match Self::parse_castling_rights(part2) {
            Ok(c) => c,
            Err(e) => {
                return Err(e);
            },
        };

        let part3 = fen.substring_char(starts[3], ends[3]);
        board.en_passant_square = match Self::parse_en_passant(part3) {
            Ok(e) => e,
            Err(e) => {
                return Err(e);
            },
        };

        let part4 = fen.substring_char(starts[4], ends[4]);
        board.halfmove_clock = match parse_u32(part4) {
            Ok(n) => n,
            Err(_) => {
                return Err("invalid halfmove clock".to_owned());
            },
        };

        let part5 = fen.substring_char(starts[5], ends[5]);
        board.fullmove_number = match parse_u32(part5) {
            Ok(n) => n,
            Err(_) => {
                return Err("invalid fullmove number".to_owned());
            },
        };

        // one king of each color, exactly where the caches say
        let mut white_kings: usize = 0;
        let mut black_kings: usize = 0;
        let mut sq: usize = 0;
        while sq < 64
            invariant
                sq <= 64,
                board.white_king < 64,
                board.black_king < 64,
                board.halfmove_clock < 0xffff_ffffu32,
                white_kings <= sq,
                black_kings <= sq,
                white_kings == 0 ==> forall|j: int|
                    0 <= j < sq ==> board.squares@[j] != Some(Piece::King(Color::White)),
                white_kings == 1 ==> board.squares@[board.white_king as int] == Some(
                    Piece::King(Color::White),
                ) && forall|j: int|
                    0 <= j < sq && #[trigger] board.squares@[j] == Some(Piece::King(Color::White))
                        ==> j == board.white_king as int,
                black_kings == 0 ==> forall|j: int|
                    0 <= j < sq ==> board.squares@[j] != Some(Piece::King(Color::Black)),
                black_kings == 1 ==> board.squares@[board.black_king as int] == Some(
                    Piece::King(Color::Black),
                ) && forall|j: int|
                    0 <= j < sq && #[trigger] board.squares@[j] == Some(Piece::King(Color::Black))
                        ==> j == board.black_king as int,
            decreases 64 - sq,
        {
            match board.squares[sq] {
                Some(Piece::King(Color::White)) => {
                    white_kings += 1;
                    board.white_king = sq as u16;
                },
                Some(Piece::King(Color::Black)) => {
                    black_kings += 1;
                    board.black_king = sq as u16;
                },
                _ => {},
            }
            sq += 1;
        }
        if white_kings != 1 || black_kings != 1 {
            return Err("position must have one king of each color".to_owned());
        }

        // castling rights demand king and rook at home
        if board.castling_rights & WHITE_KINGSIDE_CASTLING_RIGHTS != 0 {
            if !(board.white_king == 4 && matches!(board.squares[7], Some(Piece::Rook(Color::White)))) {
                return Err("castling rights inconsistent with placement".to_owned());
            }
        }
        if board.castling_rights & WHITE_QUEENSIDE_CASTLING_RIGHTS != 0 {
            if !(board.white_king == 4 && matches!(board.squares[0], Some(Piece::Rook(Color::White)))) {
                return Err("castling rights inconsistent with placement".to_owned());
            }
        }
        if board.castling_rights & BLACK_KINGSIDE_CASTLING_RIGHTS != 0 {
            if !(board.black_king == 60 && matches!(
                board.squares[63],
                Some(Piece::Rook(Color::Black)),
            )) {
                return Err("castling rights inconsistent with placement".to_owned());
            }
        }
        if board.castling_rights & BLACK_QUEENSIDE_CASTLING_RIGHTS != 0 {
            if !(board.black_king == 60 && matches!(
                board.squares[56],
                Some(Piece::Rook(Color::Black)),
            )) {
                return Err("castling rights inconsistent with placement".to_owned());
            }
        }

        // an en-passant target must record an answerable double advance
        if let Some(e) = board.en_passant_square {
            if e >= 64 {
                return Err("en passant target off the board".to_owned());
            }
            let ei = e as usize;
            let answerable: bool = if board.squares[ei].is_some() {
                false
            } else if board.side_to_move == Color::White {
                e / 8 == 5 && ei >= 8 && matches!(
                    board.squares[ei - 8],
                    Some(Piece::Pawn(Color::Black)),
                )
            } else {
                e / 8 == 2 && ei + 8 < 64 && matches!(
                    board.squares[ei + 8],
                    Some(Piece::Pawn(Color::White)),
                )
            };
            if !answerable {
                return Err("en passant target is not answerable".to_owned());
            }
        }

        // the side to move may not already attack the enemy king
        let mut flipped = board;
        flipped.side_to_move = board.side_to_move.opposite();
        let enemy_king = match board.side_to_move {
            Color::White => board.black_king,
            Color::Black => board.white_king,
        };
        if crate::movegen::is_square_attacked(&flipped, enemy_king) {
            return Err("the side to move already attacks the enemy king".to_owned());
        }
        proof {
            assert(board@.wf()) by {
                assert(board@.squares.len() == 64);
            }
            assert(board@.ep_answerable_by(board@.side_to_move));
            assert(!board@.exposed_king());
        }

        Ok(board)
    }

    /// Writes the position as a FEN record: piece placement from rank 8
    /// down to rank 1, side to move, castling rights, en-passant target
    /// and the two counters.
    pub fn to_fen(&self) -> (fen: String)
        ensures
            fen@.len() > 0,
    {
        let mut fen = String::new();

        let mut rank: usize = 8;
        while rank > 0
            invariant
                rank <= 8,
            decreases rank,
        {
            rank -= 1;
            let mut empty_spaces: u8 = 0;

            let mut file: usize = 0;
            while file < 8
                invariant
                    rank < 8,
                    file <= 8,
                    empty_spaces <= file,
                decreases 8 - file,
            {
                let square = rank * 8 + file;
                if let Some(piece) = self.squares[square] {
                    if empty_spaces > 0 {
                        fen.push((48 + empty_spaces) as char);
                    }
                    fen.push(Board::piece_to_char(&piece));
                    empty_spaces = 0;
                } else {
                    empty_spaces += 1;
                }
                file += 1;
            }
            if empty_spaces > 0 {
                fen.push((48 + empty_spaces) as char);
            }

            if rank > 0 {
                fen.push('/');
            }
        }

        fen.push(' ');

        let side = match self.side_to_move {
            Color::Black => 'b',
            Color::White => 'w',
        };
        fen.push(side);

        fen.push(' ');

        let mut any_rights = false;
        if self.castling_rights & WHITE_KINGSIDE_CASTLING_RIGHTS != 0 {
            fen.push('K');
            any_rights = true;
        }
        if self.castling_rights & WHITE_QUEENSIDE_CASTLING_RIGHTS != 0 {
            fen.push('Q');
            any_rights = true;
        }
        if self.castling_rights & BLACK_KINGSIDE_CASTLING_RIGHTS != 0 {
            fen.push('k');
            any_rights = true;
        }
        if self.castling_rights & BLACK_QUEENSIDE_CASTLING_RIGHTS != 0 {
            fen.push('q');
            any_rights = true;
        }
        if !any_rights {
            fen.push('-');
        }

        fen.push(' ');

        if let Some(square) = self.en_passant_square {
            let file = (square % 8) + 97;
            let rank_digit = (square / 8) % 8 + 49;
            fen.push(file as char);
            fen.push(rank_digit as char);
        } else {
            fen.push('-');
        }

        fen.push(' ');

        let clock = u32_to_string(self.halfmove_clock);
        fen.append(clock.as_str());

        fen.push(' ');

        let full = u32_to_string(self.fullmove_number);
        fen.append(full.as_str());

        fen
    }
}

} // verus!
