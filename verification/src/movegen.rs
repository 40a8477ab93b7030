//! Move encoding, pseudo-legal move generation, attack detection and the
//! legality filter.

use vstd::prelude::*;

verus! {

use crate::board::Board;
use crate::board::BoardModel;
use crate::board::Color;
use crate::board::Piece;
use crate::board::castle_rook_from;
use crate::board::castle_rook_to;
use crate::board::has_right;
use crate::board::BLACK_KINGSIDE_CASTLING_RIGHTS;
use crate::board::BLACK_QUEENSIDE_CASTLING_RIGHTS;
use crate::board::WHITE_KINGSIDE_CASTLING_RIGHTS;
use crate::board::WHITE_QUEENSIDE_CASTLING_RIGHTS;

pub const FLAG_NORMAL: u16 = 0;

pub const FLAG_CAPTURE: u16 = 1;

pub const FLAG_EP_CAPTURE: u16 = 2;

pub const FLAG_CASTLE_KING: u16 = 3;

pub const FLAG_CASTLE_QUEEN: u16 = 4;

pub const FLAG_PROMOTION_QUEEN: u16 = 5;

pub const FLAG_PROMOTION_ROOK: u16 = 6;

pub const FLAG_PROMOTION_BISHOP: u16 = 7;

pub const FLAG_PROMOTION_KNIGHT: u16 = 8;

pub const FLAG_PROMOTION_CAPTURE_QUEEN: u16 = 9;

pub const FLAG_PROMOTION_CAPTURE_ROOK: u16 = 10;

pub const FLAG_PROMOTION_CAPTURE_BISHOP: u16 = 11;

pub const FLAG_PROMOTION_CAPTURE_KNIGHT: u16 = 12;

/// A move packed into 16 bits: the source square in the low 6 bits, the
/// destination square in the next 6, and a flag in the top 4.
#[derive(Clone, Copy, PartialEq, Eq, Structural, Debug)]
pub struct Move {
    pub data: u16,
}

#[derive(Clone, Copy, PartialEq, Eq, Structural, Debug)]
pub enum MoveType {
    Normal,
    Capture,
    EnPassant,
    CastleKingside,
    CastleQueenside,
    Promotion,
    PromotionCapture,
}

impl Move {
    /// The packed form of a move from `from` to `to` with flag `flags`.
    pub open spec fn enc(from: u16, to: u16, flags: u16) -> Move {
        Move { data: (from + to * 64 + flags * 4096) as u16 }
    }

    pub open spec fn spec_from(&self) -> u16 {
        self.data % 64
    }

    pub open spec fn spec_to(&self) -> u16 {
        (self.data / 64) % 64
    }

    pub open spec fn spec_flag(&self) -> u16 {
        self.data / 4096
    }

    pub fn new(from: u16, to: u16, flags: u16) -> (m: Move)
        requires
            from < 64,
            to < 64,
            flags < 16,
        ensures
            m == Move::enc(from, to, flags),
            m.spec_from() == from,
            m.spec_to() == to,
            m.spec_flag() == flags,
    {
        let data: u16 = from + to * 64 + flags * 4096;
        Move { data }
    }

    pub fn normal(from: u16, to: u16) -> (m: Move)
        requires
            from < 64,
            to < 64,
        ensures
            m == Move::enc(from, to, FLAG_NORMAL),
    {
        Self::new(from, to, FLAG_NORMAL)
    }

    pub fn capture(from: u16, to: u16) -> (m: Move)
        requires
            from < 64,
            to < 64,
        ensures
            m == Move::enc(from, to, FLAG_CAPTURE),
    {
        Self::new(from, to, FLAG_CAPTURE)
    }

    pub fn en_passant_capture(from: u16, to: u16) -> (m: Move)
        requires
            from < 64,
            to < 64,
        ensures
            m == Move::enc(from, to, FLAG_EP_CAPTURE),
    {
        Self::new(from, to, FLAG_EP_CAPTURE)
    }

    pub fn castle_kingside(from: u16, to: u16) -> (m: Move)
        requires
            from < 64,
            to < 64,
        ensures
            m == Move::enc(from, to, FLAG_CASTLE_KING),
    {
        Self::new(from, to, FLAG_CASTLE_KING)
    }

    pub fn castle_queenside(from: u16, to: u16) -> (m: Move)
        requires
            from < 64,
            to < 64,
        ensures
            m == Move::enc(from, to, FLAG_CASTLE_QUEEN),
    {
        Self::new(from, to, FLAG_CASTLE_QUEEN)
    }

    /// A promotion move; `piece_type` selects the piece promoted to:
    /// 0 queen, 1 rook, 2 bishop, 3 knight.
    pub fn promotion(from: u16, to: u16, piece_type: u16, is_capture: bool) -> (m: Move)
        requires
            from < 64,
            to < 64,
            piece_type < 4,
        ensures
            m == Move::enc(
                from,
                to,
                (if is_capture {
                    FLAG_PROMOTION_CAPTURE_QUEEN + piece_type
                } else {
                    FLAG_PROMOTION_QUEEN + piece_type
                }) as u16,
            ),
    {
        let base_flag = if is_capture {
            FLAG_PROMOTION_CAPTURE_QUEEN
        } else {
            FLAG_PROMOTION_QUEEN
        };
        Self::new(from, to, base_flag + piece_type)
    }

    #[verifier::when_used_as_spec(spec_from)]
    pub fn get_from(&self) -> (s: u16)
        ensures
            s == self.spec_from(),
    {
        self.data % 64
    }

    #[verifier::when_used_as_spec(spec_to)]
    pub fn get_to(&self) -> (s: u16)
        ensures
            s == self.spec_to(),
    {
        (self.data / 64) % 64
    }

    #[verifier::when_used_as_spec(spec_flag)]
    pub fn get_flag(&self) -> (f: u16)
        ensures
            f == self.spec_flag(),
    {
        self.data / 4096
    }

    pub open spec fn spec_is_capture(&self) -> bool {
        ||| self.spec_flag() == FLAG_CAPTURE
        ||| self.spec_flag() == FLAG_EP_CAPTURE
        ||| (FLAG_PROMOTION_CAPTURE_QUEEN <= self.spec_flag() <= FLAG_PROMOTION_CAPTURE_KNIGHT)
    }

    #[verifier::when_used_as_spec(spec_is_capture)]
    pub fn is_capture(&self) -> (r: bool)
        ensures
            r == self.spec_is_capture(),
    {
        let flag: u16 = self.get_flag();
        flag == FLAG_CAPTURE || flag == FLAG_EP_CAPTURE || (flag >= FLAG_PROMOTION_CAPTURE_QUEEN
            && flag <= FLAG_PROMOTION_CAPTURE_KNIGHT)
    }

    pub open spec fn spec_is_en_passant(&self) -> bool {
        self.spec_flag() == FLAG_EP_CAPTURE
    }

    #[verifier::when_used_as_spec(spec_is_en_passant)]
    pub fn is_en_passant(&self) -> (r: bool)
        ensures
            r == self.spec_is_en_passant(),
    {
        self.get_flag() == FLAG_EP_CAPTURE
    }

    pub open spec fn spec_is_promotion(&self) -> bool {
        FLAG_PROMOTION_QUEEN <= self.spec_flag() <= FLAG_PROMOTION_CAPTURE_KNIGHT
    }

    #[verifier::when_used_as_spec(spec_is_promotion)]
    pub fn is_promotion(&self) -> (r: bool)
        ensures
            r == self.spec_is_promotion(),
    {
        let flag: u16 = self.get_flag();
        flag >= FLAG_PROMOTION_QUEEN && flag <= FLAG_PROMOTION_CAPTURE_KNIGHT
    }

    pub open spec fn spec_is_castle_kingside(&self) -> bool {
        self.spec_flag() == FLAG_CASTLE_KING
    }

    #[verifier::when_used_as_spec(spec_is_castle_kingside)]
    pub fn is_castle_kingside(&self) -> (r: bool)
        ensures
            r == self.spec_is_castle_kingside(),
    {
        let flag: u16 = self.get_flag();
        flag == FLAG_CASTLE_KING
    }

    pub open spec fn spec_is_castle_queenside(&self) -> bool {
        self.spec_flag() == FLAG_CASTLE_QUEEN
    }

    #[verifier::when_used_as_spec(spec_is_castle_queenside)]
    pub fn is_castle_queenside(&self) -> (r: bool)
        ensures
            r == self.spec_is_castle_queenside(),
    {
        let flag: u16 = self.get_flag();
        flag == FLAG_CASTLE_QUEEN
    }

    pub open spec fn spec_is_castle(&self) -> bool {
        self.spec_is_castle_kingside() || self.spec_is_castle_queenside()
    }

    #[verifier::when_used_as_spec(spec_is_castle)]
    pub fn is_castle(&self) -> (r: bool)
        ensures
            r == self.spec_is_castle(),
    {
        self.is_castle_kingside() || self.is_castle_queenside()
    }

    /// For a promotion move, the selected piece: 0 queen, 1 rook,
    /// 2 bishop, 3 knight.
    pub open spec fn spec_promotion_piece(&self) -> Option<u16> {
        if !self.spec_is_promotion() {
            None
        } else if self.spec_flag() >= FLAG_PROMOTION_CAPTURE_QUEEN {
            Some((self.spec_flag() - FLAG_PROMOTION_CAPTURE_QUEEN) as u16)
        } else {
            Some((self.spec_flag() - FLAG_PROMOTION_QUEEN) as u16)
        }
    }

    #[verifier::when_used_as_spec(spec_promotion_piece)]
    pub fn promotion_piece(&self) -> (r: Option<u16>)
        ensures
            r == self.spec_promotion_piece(),
    {
        if !self.is_promotion() {
            return None;
        }
        let flag = self.get_flag();
        if flag >= FLAG_PROMOTION_CAPTURE_QUEEN && flag <= FLAG_PROMOTION_CAPTURE_KNIGHT {
            Some(flag - FLAG_PROMOTION_CAPTURE_QUEEN)
        } else {
            Some(flag - FLAG_PROMOTION_QUEEN)
        }
    }

    pub open spec fn spec_move_type(&self) -> MoveType {
        if self.spec_flag() == FLAG_NORMAL {
            MoveType::Normal
        } else if self.spec_flag() == FLAG_CAPTURE {
            MoveType::Capture
        } else if self.spec_flag() == FLAG_EP_CAPTURE {
            MoveType::EnPassant
        } else if self.spec_flag() == FLAG_CASTLE_KING {
            MoveType::CastleKingside
        } else if self.spec_flag() == FLAG_CASTLE_QUEEN {
            MoveType::CastleQueenside
        } else if self.spec_flag() <= FLAG_PROMOTION_KNIGHT {
            MoveType::Promotion
        } else {
            MoveType::PromotionCapture
        }
    }

    /// The kind of this move; meaningful only for flags the generator
    /// produces.
    pub fn get_move_type(&self) -> (t: MoveType)
        requires
            self.spec_flag() <= FLAG_PROMOTION_CAPTURE_KNIGHT,
        ensures
            t == self.spec_move_type(),
    {
        let flag = self.get_flag();
        if flag == FLAG_NORMAL {
            MoveType::Normal
        } else if flag == FLAG_CAPTURE {
            MoveType::Capture
        } else if flag == FLAG_EP_CAPTURE {
            MoveType::EnPassant
        } else if flag == FLAG_CASTLE_KING {
            MoveType::CastleKingside
        } else if flag == FLAG_CASTLE_QUEEN {
            MoveType::CastleQueenside
        } else if flag <= FLAG_PROMOTION_KNIGHT {
            MoveType::Promotion
        } else {
            MoveType::PromotionCapture
        }
    }
}

/// The letter conventionally naming a piece kind, regardless of color.
fn piece_letter(piece: &Piece) -> (c: char)
    ensures
        c == (match *piece {
            Piece::Pawn(_) => 'P',
            Piece::Knight(_) => 'N',
            Piece::Bishop(_) => 'B',
            Piece::Rook(_) => 'R',
            Piece::Queen(_) => 'Q',
            Piece::King(_) => 'K',
        }),
{
    match piece {
        Piece::Pawn(_) => 'P',
        Piece::Knight(_) => 'N',
        Piece::Bishop(_) => 'B',
        Piece::Rook(_) => 'R',
        Piece::Queen(_) => 'Q',
        Piece::King(_) => 'K',
    }
}

impl Move {
    /// Appends the destination coordinate, such as `e4`.
    fn push_square(s: &mut String, square: u16)
        requires
            square < 64,
        ensures
            final(s)@ == old(s)@.push((97 + square % 8) as u8 as char).push(
                (49 + square / 8) as u8 as char,
            ),
    {
        let file = (97 + (square % 8) as u8) as char;
        let rank = (49 + (square / 8) as u8) as char;
        s.push(file);
        s.push(rank);
    }

    /// Parses a coordinate move such as `e2e4` and returns the first
    /// legal move from the named source square to the named destination.
    pub fn string_to_move(s: &str, board: &Board) -> (r: Result<Move, String>)
        requires
            board@.ready(),
            board@.halfmove_clock < 0xffff_ffffu32,
        ensures
            r matches Ok(m) ==> {
                &&& model_legal_moves(board@).contains(m)
                &&& s@.len() >= 4
                &&& m.spec_from() as int == (s@[1] as int - '1' as int) * 8 + (s@[0] as int
                    - 'a' as int)
                &&& m.spec_to() as int == (s@[3] as int - '1' as int) * 8 + (s@[2] as int
                    - 'a' as int)
            },
    {
        if s.unicode_len() < 4 {
            return Err("move text too short".to_owned());
        }
        let from_str = s.substring_char(0, 2);
        let to_str = s.substring_char(2, 4);
        let from = match Board::str_to_square(from_str) {
            Ok(x) => x,
            Err(e) => {
                return Err(e);
            },
        };
        let to = match Board::str_to_square(to_str) {
            Ok(x) => x,
            Err(e) => {
                return Err(e);
            },
        };
        proof {
            assert(from_str@[0] == s@[0] && from_str@[1] == s@[1]);
            assert(to_str@[0] == s@[2] && to_str@[1] == s@[3]);
        }
        let legal_moves = generate_moves(board);
        let mut i: usize = 0;
        while i < legal_moves.len()
            invariant
                legal_moves@ == model_legal_moves(board@),
                i <= legal_moves@.len(),
                s@.len() >= 4,
                from == (s@[1] as int - '1' as int) * 8 + (s@[0] as int - 'a' as int),
                to == (s@[3] as int - '1' as int) * 8 + (s@[2] as int - 'a' as int),
            decreases legal_moves@.len() - i,
        {
            let m = legal_moves[i];
            if m.get_from() as usize == from && m.get_to() as usize == to {
                proof {
                    assert(model_legal_moves(board@)[i as int] == m);
                }
                return Ok(m);
            }
            i += 1;
        }
        Err("not a legal move".to_owned())
    }

    /// The file letter or rank digit (or both) distinguishing this move's
    /// source from other legal moves of the same piece kind to the same
    /// destination, and nothing when no other such move exists.
    pub fn disambiguation(&self, board: &Board) -> (r: String)
        requires
            board@.ready(),
            board@.halfmove_clock < 0xffff_ffffu32,
            board@.squares[self.spec_from() as int] is Some,
        ensures
            r@.len() <= 2,
    {
        let from_file: u16 = self.get_from() % 8;
        let from_rank: u16 = self.get_from() / 8;
        let from: u16 = self.get_from();
        let to_square: u16 = self.get_to();

        let mut same_file = false;
        let mut same_rank = false;
        let mut needs_disambiguation = false;
        let moving_piece = match board.squares[self.get_from() as usize] {
            Some(p) => p,
            None => {
                return String::new();
            },
        };

        let legal_moves = generate_moves(board);

        let mut i: usize = 0;
        while i < legal_moves.len()
            invariant
                i <= legal_moves@.len(),
            decreases legal_moves@.len() - i,
        {
            let movement = legal_moves[i];
            if movement.get_to() == to_square && movement.get_from() != from {
                if let Some(piece) = board.squares[movement.get_from() as usize] {
                    if Board::piece_to_char(&piece) == Board::piece_to_char(&moving_piece) {
                        needs_disambiguation = true;
                        let other_file = movement.get_from() % 8;
                        let other_rank = movement.get_from() / 8;

                        if other_file == from_file {
                            same_file = true;
                        }
                        if other_rank == from_rank {
                            same_rank = true;
                        }
                    }
                }
            }
            i += 1;
        }
        let mut r = String::new();
        if !needs_disambiguation {
            return r;
        }
        if !same_file {
            r.push((97 + from_file as u8) as char);
        } else if !same_rank {
            r.push((49 + from_rank as u8) as char);
        } else {
            r.push((97 + from_file as u8) as char);
            r.push((49 + from_rank as u8) as char);
        }
        r
    }

    /// The move in a compact algebraic form for display: `0-0` and
    /// `0-0-0` for the castles, the destination square for quiet moves
    /// with a leading piece letter and disambiguation for non-pawns, `x`
    /// for captures, and `=` with the chosen piece for promotions.
    pub fn to_string(&self, board: &Board) -> (s: String)
        requires
            board@.ready(),
            board@.halfmove_clock < 0xffff_ffffu32,
            board@.squares[self.spec_from() as int] is Some,
            self.spec_flag() <= FLAG_PROMOTION_CAPTURE_KNIGHT,
        ensures
            self.spec_is_castle_kingside() ==> s@ == "0-0"@,
            self.spec_is_castle_queenside() ==> s@ == "0-0-0"@,
    {
        let from_file: u16 = self.get_from() % 8;

        let moving_piece_char = match board.squares[self.get_from() as usize] {
            Some(p) => piece_letter(&p),
            None => ' ',
        };

        let piece_to_promote: char = match self.promotion_piece() {
            Some(1) => 'R',
            Some(2) => 'B',
            Some(3) => 'N',
            _ => 'Q',
        };

        let mut s = String::new();
        match self.get_move_type() {
            MoveType::Capture | MoveType::EnPassant => {
                if moving_piece_char == 'P' {
                    s.push((97 + from_file as u8) as char);
                } else {
                    s.push(moving_piece_char);
                    let d = self.disambiguation(board);
                    s.append(d.as_str());
                }
                s.push('x');
                Self::push_square(&mut s, self.get_to());
            },
            MoveType::CastleKingside => {
                s.push('0');
                s.push('-');
                s.push('0');
                proof {
                    reveal_strlit("0-0");
                    assert(s@ =~= "0-0"@);
                }
            },
            MoveType::CastleQueenside => {
                s.push('0');
                s.push('-');
                s.push('0');
                s.push('-');
                s.push('0');
                proof {
                    reveal_strlit("0-0-0");
                    assert(s@ =~= "0-0-0"@);
                }
            },
            MoveType::Promotion => {
                s.push(moving_piece_char);
                Self::push_square(&mut s, self.get_to());
                s.push('=');
                s.push(piece_to_promote);
            },
            MoveType::PromotionCapture => {
                s.push((97 + from_file as u8) as char);
                s.push('x');
                Self::push_square(&mut s, self.get_to());
                s.push('=');
                s.push(piece_to_promote);
            },
            MoveType::Normal => {
                if moving_piece_char == 'P' {
                    Self::push_square(&mut s, self.get_to());
                } else {
                    s.push(moving_piece_char);
                    let d = self.disambiguation(board);
                    s.append(d.as_str());
                    Self::push_square(&mut s, self.get_to());
                }
            },
        }
        s
    }
}

/// Whether file `f`, rank `r` is a square of the board.
pub open spec fn on_board(f: int, r: int) -> bool {
    0 <= f < 8 && 0 <= r < 8
}

/// The square index of file `f`, rank `r`.
pub open spec fn sq_at(f: int, r: int) -> int {
    r * 8 + f
}

/// The eight knight-jump offsets.
pub open spec fn knight_delta(df: int, dr: int) -> bool {
    ||| (df == 1 && dr == 2)
    ||| (df == 2 && dr == 1)
    ||| (df == -2 && dr == 1)
    ||| (df == -1 && dr == 2)
    ||| (df == 1 && dr == -2)
    ||| (df == 2 && dr == -1)
    ||| (df == -2 && dr == -1)
    ||| (df == -1 && dr == -2)
}

/// The eight king-adjacency offsets.
pub open spec fn king_delta(df: int, dr: int) -> bool {
    -1 <= df <= 1 && -1 <= dr <= 1 && !(df == 0 && dr == 0)
}

/// The four rook directions.
pub open spec fn rook_dir(dx: int, dy: int) -> bool {
    ||| (dx == 1 && dy == 0)
    ||| (dx == -1 && dy == 0)
    ||| (dx == 0 && dy == 1)
    ||| (dx == 0 && dy == -1)
}

/// The four bishop directions.
pub open spec fn bishop_dir(dx: int, dy: int) -> bool {
    ||| (dx == 1 && dy == 1)
    ||| (dx == 1 && dy == -1)
    ||| (dx == -1 && dy == 1)
    ||| (dx == -1 && dy == -1)
}

/// The rank direction pawns of color `c` advance and capture toward.
pub open spec fn pawn_dir(c: Color) -> int {
    if c == Color::White {
        1
    } else {
        -1
    }
}

/// Every square strictly between the first `k` steps from file `f`,
/// rank `r` along direction `(dx, dy)` is empty.
pub open spec fn ray_clear(
    s: Seq<Option<Piece>>,
    f: int,
    r: int,
    dx: int,
    dy: int,
    k: int,
) -> bool {
    forall|j: int| 1 <= j < k ==> s[#[trigger] sq_at(f + j * dx, r + j * dy)] is None
}

/// A rook-wise attack: the target lies `k` steps away in a rook
/// direction with an otherwise empty ray between.
pub open spec fn straight_attack(
    s: Seq<Option<Piece>>,
    f: int,
    r: int,
    tf: int,
    tr: int,
) -> bool {
    exists|dx: int, dy: int, k: int|
        #![trigger ray_clear(s, f, r, dx, dy, k), rook_dir(dx, dy)]
        rook_dir(dx, dy) && k >= 1 && tf == f + k * dx && tr == r + k * dy && ray_clear(
            s,
            f,
            r,
            dx,
            dy,
            k,
        )
}

/// A bishop-wise attack: the target lies `k` steps away on a diagonal
/// with an otherwise empty ray between.
pub open spec fn diag_attack(s: Seq<Option<Piece>>, f: int, r: int, tf: int, tr: int) -> bool {
    exists|dx: int, dy: int, k: int|
        #![trigger ray_clear(s, f, r, dx, dy, k), bishop_dir(dx, dy)]
        bishop_dir(dx, dy) && k >= 1 && tf == f + k * dx && tr == r + k * dy && ray_clear(
            s,
            f,
            r,
            dx,
            dy,
            k,
        )
}

/// Whether the piece `p` standing on file `f`, rank `r` attacks the
/// square at file `tf`, rank `tr`.
pub open spec fn piece_attacks(
    s: Seq<Option<Piece>>,
    p: Piece,
    f: int,
    r: int,
    tf: int,
    tr: int,
) -> bool {
    match p {
        Piece::Pawn(c) => tr - r == pawn_dir(c) && (tf - f == 1 || tf - f == -1),
        Piece::Knight(_) => knight_delta(tf - f, tr - r),
        Piece::King(_) => king_delta(tf - f, tr - r),
        Piece::Rook(_) => straight_attack(s, f, r, tf, tr),
        Piece::Bishop(_) => diag_attack(s, f, r, tf, tr),
        Piece::Queen(_) => straight_attack(s, f, r, tf, tr) || diag_attack(s, f, r, tf, tr),
    }
}

/// A straight attack runs along the source's rank or file; a diagonal
/// attack along one of its diagonals; neither attacks its own square.
pub proof fn lemma_slider_geometry(s: Seq<Option<Piece>>, f: int, r: int, tf: int, tr: int)
    ensures
        straight_attack(s, f, r, tf, tr) ==> (f == tf || r == tr) && !(f == tf && r == tr),
        diag_attack(s, f, r, tf, tr) ==> (tf - f == tr - r || tf - f == -(tr - r)) && !(f == tf && r
            == tr),
{
    if straight_attack(s, f, r, tf, tr) {
        let (dx, dy, k) = choose|dx: int, dy: int, k: int|
            rook_dir(dx, dy) && k >= 1 && tf == f + k * dx && tr == r + k * dy && ray_clear(
                s,
                f,
                r,
                dx,
                dy,
                k,
            );
        assert((f == tf || r == tr) && !(f == tf && r == tr)) by (nonlinear_arith)
            requires
                rook_dir(dx, dy) && k >= 1 && tf == f + k * dx && tr == r + k * dy,
        ;
    }
    if diag_attack(s, f, r, tf, tr) {
        let (dx, dy, k) = choose|dx: int, dy: int, k: int|
            bishop_dir(dx, dy) && k >= 1 && tf == f + k * dx && tr == r + k * dy && ray_clear(
                s,
                f,
                r,
                dx,
                dy,
                k,
            );
        assert((tf - f == tr - r || tf - f == -(tr - r)) && !(f == tf && r == tr))
            by (nonlinear_arith)
            requires
                bishop_dir(dx, dy) && k >= 1 && tf == f + k * dx && tr == r + k * dy,
        ;
    }
}

/// Whether some piece of color `c` attacks `square`.
#[verifier::opaque]
pub open spec fn attacked_by(s: Seq<Option<Piece>>, c: Color, square: int) -> bool {
    exists|f: int, r: int|
        on_board(f, r) && (#[trigger] s[sq_at(f, r)] matches Some(p) && p.spec_color() == c
            && piece_attacks(s, p, f, r, square % 8, square / 8))
}

/// Whether the side not to move attacks `square`.
pub open spec fn attacked(v: BoardModel, square: int) -> bool {
    attacked_by(v.squares, v.side_to_move.spec_opposite(), square)
}

/// Whether `piece` belongs to the opponent of `side_to_move`.
pub fn is_enemy(piece: Piece, side_to_move: Color) -> (r: bool)
    ensures
        r == (piece.spec_color() != side_to_move),
{
    piece.color() != side_to_move
}

/// Whether the exact piece `p` stands on file `f`, rank `r` (false off
/// the board).
fn has_piece_at(board: &Board, f: i32, r: i32, p: Piece) -> (res: bool)
    ensures
        res == (on_board(f as int, r as int) && board@.squares[sq_at(f as int, r as int)] == Some(
            p,
        )),
{
    if f >= 0 && f < 8 && r >= 0 && r < 8 {
        let idx = (r * 8 + f) as usize;
        match board.squares[idx] {
            Some(q) => q == p,
            None => false,
        }
    } else {
        false
    }
}

/// Stepping a ray once more adds one direction unit.
proof fn lemma_mul_succ(k: int, d: int)
    ensures
        (k + 1) * d == k * d + d,
{
    assert((k + 1) * d == k * d + d) by (nonlinear_arith);
}

/// A ray that has left the board never returns to it.
proof fn lemma_ray_off_board(tf: int, tr: int, dx: int, dy: int, k1: int, kk: int)
    requires
        0 <= tf < 8,
        0 <= tr < 8,
        -1 <= dx <= 1,
        -1 <= dy <= 1,
        1 <= k1 <= kk,
        !on_board(tf + k1 * dx, tr + k1 * dy),
    ensures
        !on_board(tf + kk * dx, tr + kk * dy),
{
    assert((0 <= tf + kk * dx < 8 && 0 <= tr + kk * dy < 8) ==> (0 <= tf + k1 * dx < 8 && 0 <= tr
        + k1 * dy < 8)) by (nonlinear_arith)
        requires
            0 <= tf < 8,
            0 <= tr < 8,
            -1 <= dx <= 1,
            -1 <= dy <= 1,
            1 <= k1 <= kk,
    ;
}

/// Whether an enemy slider moving along `(dx, dy)` as seen from the
/// target square — a queen, or a rook when the direction is straight, a
/// bishop when it is diagonal — attacks the square at file `tf`, rank
/// `tr` from `k` steps away.
pub open spec fn slider_on_ray(
    v: BoardModel,
    tf: int,
    tr: int,
    dx: int,
    dy: int,
    straight: bool,
    k: int,
) -> bool {
    let af = tf + k * dx;
    let ar = tr + k * dy;
    &&& k >= 1
    &&& on_board(af, ar)
    &&& (v.squares[sq_at(af, ar)] matches Some(p) && p.spec_color()
        == v.side_to_move.spec_opposite() && (p matches Piece::Queen(_) || (straight
        && p matches Piece::Rook(_)) || (!straight && p matches Piece::Bishop(_))))
    &&& ray_clear(v.squares, af, ar, -dx, -dy, k)
}

/// Walks outward from the target square along `(dx, dy)` and reports
/// whether the first occupied square holds an enemy slider moving that
/// way: a queen, or a rook on rook directions, a bishop on diagonals.
fn ray_attacker(board: &Board, tf: i32, tr: i32, dx: i32, dy: i32, straight: bool) -> (res: bool)
    requires
        on_board(tf as int, tr as int),
        -1 <= dx <= 1,
        -1 <= dy <= 1,
        !(dx == 0 && dy == 0),
    ensures
        res == exists|k: int|
            #[trigger] slider_on_ray(board@, tf as int, tr as int, dx as int, dy as int, straight, k),
{
    let ghost v = board@;
    let attacker = board.side_to_move.opposite();
    let mut cf: i32 = tf;
    let mut cr: i32 = tr;
    let mut k: i32 = 0;
    loop
        invariant
            on_board(tf as int, tr as int),
            -1 <= dx <= 1,
            -1 <= dy <= 1,
            !(dx == 0 && dy == 0),
            0 <= k <= 7,
            cf == tf + k * dx,
            cr == tr + k * dy,
            on_board(cf as int, cr as int),
            v == board@,
            attacker == v.side_to_move.spec_opposite(),
            forall|j: int|
                1 <= j <= k ==> v.squares[#[trigger] sq_at(tf + j * dx, tr + j * dy)] is None,
        decreases 8 - k,
    {
        let nf = cf + dx;
        let nr = cr + dy;
        if nf < 0 || nf >= 8 || nr < 0 || nr >= 8 {
            proof {
                lemma_mul_succ(k as int, dx as int);
                lemma_mul_succ(k as int, dy as int);
                assert(tf + (k + 1) * dx == nf as int && tr + (k + 1) * dy == nr as int);
                assert forall|kk: int|
                    !slider_on_ray(v, tf as int, tr as int, dx as int, dy as int, straight, kk) by {
                    if kk > k {
                        lemma_ray_off_board(tf as int, tr as int, dx as int, dy as int, k + 1, kk);
                    } else if kk >= 1 {
                        assert(v.squares[sq_at(tf + kk * dx, tr + kk * dy)] is None);
                    }
                }
            }
            return false;
        }
        let idx = (nr * 8 + nf) as usize;
        match board.squares[idx] {
            None => {
                proof {
                    lemma_mul_succ(k as int, dx as int);
                    lemma_mul_succ(k as int, dy as int);
                    assert(tf + (k + 1) * dx == nf as int && tr + (k + 1) * dy == nr as int);
                    assert(v.squares[sq_at(tf + (k + 1) * dx, tr + (k + 1) * dy)] is None) by {
                        assert(sq_at(tf + (k + 1) * dx, tr + (k + 1) * dy) == idx as int);
                    }
                    // after seven steps every direction has left the board
                    if k == 7 {
                        assert(false) by {
                            if dx == 1 {
                                assert(nf >= 8);
                            } else if dx == -1 {
                                assert(nf < 0);
                            } else if dy == 1 {
                                assert(nr >= 8);
                            } else {
                                assert(nr < 0);
                            }
                        }
                    }
                }
                cf = nf;
                cr = nr;
                k = k + 1;
            },
            Some(piece) => {
                let hit = piece.color() == attacker && (match piece {
                    Piece::Queen(_) => true,
                    Piece::Rook(_) => straight,
                    Piece::Bishop(_) => !straight,
                    _ => false,
                });
                proof {
                    let kw = k as int + 1;
                    let af = tf + kw * dx;
                    let ar = tr + kw * dy;
                    lemma_mul_succ(k as int, dx as int);
                    lemma_mul_succ(k as int, dy as int);
                    assert(af == nf as int && ar == nr as int);
                    assert(sq_at(af, ar) == idx as int);
                    if hit {
                        assert(ray_clear(v.squares, af, ar, -dx as int, -dy as int, kw)) by {
                            assert forall|j: int|
                                1 <= j < kw implies v.squares[#[trigger] sq_at(
                                af + j * (-dx),
                                ar + j * (-dy),
                            )] is None by {
                                assert(af + j * (-dx) == tf + (kw - j) * dx && ar + j * (-dy) == tr
                                    + (kw - j) * dy) by (nonlinear_arith)
                                    requires
                                        af == tf + kw * dx,
                                        ar == tr + kw * dy,
                                ;
                                assert(v.squares[sq_at(tf + (kw - j) * dx, tr + (kw - j) * dy)]
                                    is None);
                            }
                        }
                        assert(slider_on_ray(v, tf as int, tr as int, dx as int, dy as int, straight, kw));
                    } else {
                        assert forall|kk: int|
                            !slider_on_ray(v, tf as int, tr as int, dx as int, dy as int, straight, kk) by {
                            if 1 <= kk < kw {
                                assert(v.squares[sq_at(tf + kk * dx, tr + kk * dy)] is None);
                            } else if kk > kw {
                                // the blocker stands between the target and any farther square
                                let j = kk - kw;
                                assert((tf + kk * dx) + j * (-dx) == tf + kw * dx && (tr + kk * dy)
                                    + j * (-dy) == tr + kw * dy) by (nonlinear_arith)
                                    requires
                                        j == kk - kw,
                                ;
                                assert(!ray_clear(v.squares, tf + kk * dx, tr + kk * dy, -dx as int, -dy as int, kk));
                            }
                        }
                    }
                }
                return hit;
            },
        }
    }
}

/// A slider standing on file `f`, rank `r` with a clear line to the
/// target square is found by the outward ray walk in one of the four
/// directions of its movement set.
proof fn lemma_line_to_ray(v: BoardModel, tfi: int, tri: int, f: int, r: int, straight: bool)
    requires
        on_board(f, r),
        v.squares[sq_at(f, r)] is Some,
        v.squares[sq_at(f, r)]->Some_0.spec_color() == v.side_to_move.spec_opposite(),
        (v.squares[sq_at(f, r)]->Some_0 matches Piece::Queen(_)) || (straight && v.squares[sq_at(
            f,
            r,
        )]->Some_0 matches Piece::Rook(_)) || (!straight && v.squares[sq_at(f, r)]->Some_0 matches
            Piece::Bishop(_)),
        straight ==> straight_attack(v.squares, f, r, tfi, tri),
        !straight ==> diag_attack(v.squares, f, r, tfi, tri),
    ensures
        exists|dx: int, dy: int, k: int|
            (if straight {
                rook_dir(dx, dy)
            } else {
                bishop_dir(dx, dy)
            }) && #[trigger] slider_on_ray(v, tfi, tri, dx, dy, straight, k),
{
    if straight {
        let (dx, dy, k) = choose|dx: int, dy: int, k: int|
            rook_dir(dx, dy) && k >= 1 && tfi == f + k * dx && tri == r + k * dy && ray_clear(
                v.squares,
                f,
                r,
                dx,
                dy,
                k,
            );
        assert(f == tfi + k * (-dx) && r == tri + k * (-dy)) by (nonlinear_arith)
            requires
                tfi == f + k * dx && tri == r + k * dy,
        ;
        assert(rook_dir(-dx, -dy));
        assert(slider_on_ray(v, tfi, tri, -dx, -dy, straight, k));
    } else {
        let (dx, dy, k) = choose|dx: int, dy: int, k: int|
            bishop_dir(dx, dy) && k >= 1 && tfi == f + k * dx && tri == r + k * dy && ray_clear(
                v.squares,
                f,
                r,
                dx,
                dy,
                k,
            );
        assert(f == tfi + k * (-dx) && r == tri + k * (-dy)) by (nonlinear_arith)
            requires
                tfi == f + k * dx && tri == r + k * dy,
        ;
        assert(bishop_dir(-dx, -dy));
        assert(slider_on_ray(v, tfi, tri, -dx, -dy, straight, k));
    }
}

/// Whether `square` is attacked by any piece of the side not to move:
/// pawn and knight offsets, king adjacency, and sliding rays in the
/// rook and bishop directions.
#[verifier::rlimit(100)]
pub fn is_square_attacked(board: &Board, square: u16) -> (res: bool)
    requires
        square < 64,
    ensures
        res == attacked(board@, square as int),
{
    let ghost v = board@;
    let attacker = board.side_to_move.opposite();

    let tf: i32 = (square % 8) as i32;
    let tr: i32 = (square / 8) as i32;

    let pawn_rank = if attacker == Color::White {
        tr - 1
    } else {
        tr + 1
    };
    let pawn_found = has_piece_at(board, tf - 1, pawn_rank, Piece::Pawn(attacker)) || has_piece_at(
        board,
        tf + 1,
        pawn_rank,
        Piece::Pawn(attacker),
    );

    let kn = Piece::Knight(attacker);
    let knight_found = has_piece_at(board, tf + 1, tr + 2, kn) || has_piece_at(
        board,
        tf + 2,
        tr + 1,
        kn,
    ) || has_piece_at(board, tf - 2, tr + 1, kn) || has_piece_at(board, tf - 1, tr + 2, kn)
        || has_piece_at(board, tf + 1, tr - 2, kn) || has_piece_at(board, tf + 2, tr - 1, kn)
        || has_piece_at(board, tf - 2, tr - 1, kn) || has_piece_at(board, tf - 1, tr - 2, kn);

    let kg = Piece::King(attacker);
    let king_found = has_piece_at(board, tf + 1, tr + 1, kg) || has_piece_at(
        board,
        tf + 1,
        tr - 1,
        kg,
    ) || has_piece_at(board, tf - 1, tr + 1, kg) || has_piece_at(board, tf - 1, tr - 1, kg)
        || has_piece_at(board, tf + 1, tr, kg) || has_piece_at(board, tf - 1, tr, kg)
        || has_piece_at(board, tf, tr + 1, kg) || has_piece_at(board, tf, tr - 1, kg);

    let east = ray_attacker(board, tf, tr, 1, 0, true);
    let west = ray_attacker(board, tf, tr, -1, 0, true);
    let north = ray_attacker(board, tf, tr, 0, 1, true);
    let south = ray_attacker(board, tf, tr, 0, -1, true);
    let ne = ray_attacker(board, tf, tr, 1, 1, false);
    let se = ray_attacker(board, tf, tr, 1, -1, false);
    let nw = ray_attacker(board, tf, tr, -1, 1, false);
    let sw = ray_attacker(board, tf, tr, -1, -1, false);

    let res = pawn_found || knight_found || king_found || east || west || north || south || ne
        || se || nw || sw;
    proof {
        reveal(attacked_by);
        let t = square as int;
        let tfi = tf as int;
        let tri = tr as int;
        let att = v.side_to_move.spec_opposite();
        if res {
            if east || west || north || south || ne || se || nw || sw {
                assert forall|dx: int, dy: int, straight: bool, k: int|
                    slider_on_ray(v, tfi, tri, dx, dy, straight, k) && (if straight {
                        rook_dir(dx, dy)
                    } else {
                        bishop_dir(dx, dy)
                    }) implies attacked(v, t) by {
                    let af = tfi + k * dx;
                    let ar = tri + k * dy;
                    assert(on_board(af, ar));
                    if straight {
                        assert(straight_attack(v.squares, af, ar, tfi, tri)) by {
                            assert(rook_dir(-dx, -dy));
                            assert(tfi == af + k * (-dx) && tri == ar + k * (-dy))
                                by (nonlinear_arith)
                                requires
                                    af == tfi + k * dx,
                                    ar == tri + k * dy,
                            ;
                            assert(ray_clear(v.squares, af, ar, -dx, -dy, k));
                        }
                    } else {
                        assert(diag_attack(v.squares, af, ar, tfi, tri)) by {
                            assert(bishop_dir(-dx, -dy));
                            assert(tfi == af + k * (-dx) && tri == ar + k * (-dy))
                                by (nonlinear_arith)
                                requires
                                    af == tfi + k * dx,
                                    ar == tri + k * dy,
                            ;
                            assert(ray_clear(v.squares, af, ar, -dx, -dy, k));
                        }
                    }
                    assert(v.squares[sq_at(af, ar)] matches Some(p) && p.spec_color() == att
                        && piece_attacks(v.squares, p, af, ar, tfi, tri));
                }
                if east {
                    let k = choose|k: int| #[trigger] slider_on_ray(v, tfi, tri, 1, 0, true, k);
                    assert(slider_on_ray(v, tfi, tri, 1, 0, true, k));
                } else if west {
                    let k = choose|k: int| #[trigger] slider_on_ray(v, tfi, tri, -1, 0, true, k);
                    assert(slider_on_ray(v, tfi, tri, -1, 0, true, k));
                } else if north {
                    let k = choose|k: int| #[trigger] slider_on_ray(v, tfi, tri, 0, 1, true, k);
                    assert(slider_on_ray(v, tfi, tri, 0, 1, true, k));
                } else if south {
                    let k = choose|k: int| #[trigger] slider_on_ray(v, tfi, tri, 0, -1, true, k);
                    assert(slider_on_ray(v, tfi, tri, 0, -1, true, k));
                } else if ne {
                    let k = choose|k: int| #[trigger] slider_on_ray(v, tfi, tri, 1, 1, false, k);
                    assert(slider_on_ray(v, tfi, tri, 1, 1, false, k));
                } else if se {
                    let k = choose|k: int| #[trigger] slider_on_ray(v, tfi, tri, 1, -1, false, k);
                    assert(slider_on_ray(v, tfi, tri, 1, -1, false, k));
                } else if nw {
                    let k = choose|k: int| #[trigger] slider_on_ray(v, tfi, tri, -1, 1, false, k);
                    assert(slider_on_ray(v, tfi, tri, -1, 1, false, k));
                } else if sw {
                    let k = choose|k: int| #[trigger] slider_on_ray(v, tfi, tri, -1, -1, false, k);
                    assert(slider_on_ray(v, tfi, tri, -1, -1, false, k));
                }
            }
            assert(attacked(v, t));
        } else {
            assert forall|f: int, r: int|
                on_board(f, r) implies !(#[trigger] v.squares[sq_at(f, r)] matches Some(p)
                && p.spec_color() == att && piece_attacks(v.squares, p, f, r, t % 8, t / 8)) by {
                if v.squares[sq_at(f, r)] is Some && v.squares[sq_at(f, r)]->Some_0.spec_color()
                    == att && piece_attacks(v.squares, v.squares[sq_at(f, r)]->Some_0, f, r, tfi, tri) {
                    match v.squares[sq_at(f, r)]->Some_0 {
                        Piece::Pawn(_) => {},
                        Piece::Knight(_) => {},
                        Piece::King(_) => {},
                        Piece::Rook(_) => {
                            lemma_line_to_ray(v, tfi, tri, f, r, true);
                        },
                        Piece::Bishop(_) => {
                            lemma_line_to_ray(v, tfi, tri, f, r, false);
                        },
                        Piece::Queen(_) => {
                            if straight_attack(v.squares, f, r, tfi, tri) {
                                lemma_line_to_ray(v, tfi, tri, f, r, true);
                            } else {
                                lemma_line_to_ray(v, tfi, tri, f, r, false);
                            }
                        },
                    }
                }
            }
            assert forall|dx: int, dy: int, k: int|
                !(#[trigger] slider_on_ray(v, tfi, tri, dx, dy, true, k) && rook_dir(dx, dy))
                    && !(slider_on_ray(v, tfi, tri, dx, dy, false, k) && bishop_dir(dx, dy)) by {
                if dx == 1 && dy == 0 {
                    assert(!slider_on_ray(v, tfi, tri, 1, 0, true, k));
                } else if dx == -1 && dy == 0 {
                    assert(!slider_on_ray(v, tfi, tri, -1, 0, true, k));
                } else if dx == 0 && dy == 1 {
                    assert(!slider_on_ray(v, tfi, tri, 0, 1, true, k));
                } else if dx == 0 && dy == -1 {
                    assert(!slider_on_ray(v, tfi, tri, 0, -1, true, k));
                } else if dx == 1 && dy == 1 {
                    assert(!slider_on_ray(v, tfi, tri, 1, 1, false, k));
                } else if dx == 1 && dy == -1 {
                    assert(!slider_on_ray(v, tfi, tri, 1, -1, false, k));
                } else if dx == -1 && dy == 1 {
                    assert(!slider_on_ray(v, tfi, tri, -1, 1, false, k));
                } else if dx == -1 && dy == -1 {
                    assert(!slider_on_ray(v, tfi, tri, -1, -1, false, k));
                }
            }
            assert(!attacked(v, t));
        }
    }
    res
}

/// The four promotion variants of a pawn move to `to`, queen first.
pub open spec fn promotion_seq(from: u16, to: u16, cap: bool) -> Seq<Move> {
    let base = if cap {
        FLAG_PROMOTION_CAPTURE_QUEEN
    } else {
        FLAG_PROMOTION_QUEEN
    };
    seq![
        Move::enc(from, to, base),
        Move::enc(from, to, (base + 1) as u16),
        Move::enc(from, to, (base + 2) as u16),
        Move::enc(from, to, (base + 3) as u16),
    ]
}

/// The rank a pawn of color `c` promotes on.
pub open spec fn promo_rank(c: Color) -> int {
    if c == Color::White {
        7
    } else {
        0
    }
}

/// The rank pawns of color `c` start on.
pub open spec fn start_rank(c: Color) -> int {
    if c == Color::White {
        1
    } else {
        6
    }
}

/// The pushes of the pawn on `from`: a single advance onto an empty
/// square (as four promotions on the last rank), and a double advance
/// from the starting rank over a second empty square.
#[verifier::opaque]
pub open spec fn pawn_push_moves(v: BoardModel, from: u16) -> Seq<Move> {
    let side = v.side_to_move;
    let fi = from as int % 8;
    let ri = from as int / 8;
    let nr = ri + pawn_dir(side);
    if !on_board(fi, nr) {
        Seq::empty()
    } else {
        let to = sq_at(fi, nr);
        if v.squares[to] is None {
            if nr == promo_rank(side) {
                promotion_seq(from, to as u16, false)
            } else {
                let single = seq![Move::enc(from, to as u16, FLAG_NORMAL)];
                if ri == start_rank(side) {
                    let to2 = sq_at(fi, ri + 2 * pawn_dir(side));
                    if v.squares[to2] is None {
                        single.push(Move::enc(from, to2 as u16, FLAG_NORMAL))
                    } else {
                        single
                    }
                } else {
                    single
                }
            }
        } else {
            Seq::empty()
        }
    }
}

/// The captures of the pawn on `from` toward file offset `df`: a capture
/// of an enemy piece (as four promotions on the last rank), then an
/// en-passant capture onto the recorded target square.
#[verifier::opaque]
pub open spec fn pawn_capture_moves(v: BoardModel, from: u16, df: int) -> Seq<Move> {
    let side = v.side_to_move;
    let fi = from as int % 8;
    let ri = from as int / 8;
    let nf = fi + df;
    let nr = ri + pawn_dir(side);
    if !on_board(nf, nr) {
        Seq::empty()
    } else {
        let to = sq_at(nf, nr);
        let caps = match v.squares[to] {
            Some(p) => if p.spec_color() != side {
                if nr == promo_rank(side) {
                    promotion_seq(from, to as u16, true)
                } else {
                    seq![Move::enc(from, to as u16, FLAG_CAPTURE)]
                }
            } else {
                Seq::empty()
            },
            None => Seq::empty(),
        };
        let eps = if v.en_passant_square == Some(to as u8) {
            seq![Move::enc(from, to as u16, FLAG_EP_CAPTURE)]
        } else {
            Seq::empty()
        };
        caps + eps
    }
}

/// All moves of the pawn on `from`: pushes, then the captures toward the
/// lower file, then toward the higher file.
pub open spec fn pawn_moves(v: BoardModel, from: u16) -> Seq<Move> {
    pawn_push_moves(v, from) + pawn_capture_moves(v, from, -1) + pawn_capture_moves(v, from, 1)
}

/// The single step of a king or knight from `from` by `(dx, dy)`: a
/// quiet move onto an empty square or a capture of an enemy piece.
#[verifier::opaque]
pub open spec fn step_move(v: BoardModel, from: u16, dx: int, dy: int) -> Seq<Move> {
    let fi = from as int % 8;
    let ri = from as int / 8;
    let nf = fi + dx;
    let nr = ri + dy;
    if !on_board(nf, nr) {
        Seq::empty()
    } else {
        let to = sq_at(nf, nr);
        match v.squares[to] {
            None => seq![Move::enc(from, to as u16, FLAG_NORMAL)],
            Some(p) => if p.spec_color() != v.side_to_move {
                seq![Move::enc(from, to as u16, FLAG_CAPTURE)]
            } else {
                Seq::empty()
            },
        }
    }
}

/// How many more steps a ray from file `f`, rank `r` along `(dx, dy)`
/// can take before leaving the board.
pub open spec fn ray_fuel(f: int, r: int, dx: int, dy: int) -> int {
    let df = if dx > 0 {
        7 - f
    } else if dx < 0 {
        f
    } else {
        8
    };
    let dr = if dy > 0 {
        7 - r
    } else if dy < 0 {
        r
    } else {
        8
    };
    if df <= dr {
        df
    } else {
        dr
    }
}

/// The sliding moves from the piece on `from`, currently scanned up to
/// file `f`, rank `r`, along `(dx, dy)`: quiet moves over empty squares
/// until the board edge, a friendly piece (stop) or an enemy piece
/// (stop, capture included).
#[verifier::opaque]
pub open spec fn ray_moves(v: BoardModel, from: u16, f: int, r: int, dx: int, dy: int) -> Seq<Move>
    decreases ray_fuel(f, r, dx, dy),
{
    if dx == 0 && dy == 0 {
        Seq::empty()
    } else {
        let nf = f + dx;
        let nr = r + dy;
        if !on_board(nf, nr) {
            Seq::empty()
        } else {
            let to = sq_at(nf, nr);
            match v.squares[to] {
                None => seq![Move::enc(from, to as u16, FLAG_NORMAL)] + ray_moves(
                    v,
                    from,
                    nf,
                    nr,
                    dx,
                    dy,
                ),
                Some(p) => if p.spec_color() != v.side_to_move {
                    seq![Move::enc(from, to as u16, FLAG_CAPTURE)]
                } else {
                    Seq::empty()
                },
            }
        }
    }
}

/// The rook-direction rays from `from`.
pub open spec fn rook_ray_moves(v: BoardModel, from: u16) -> Seq<Move> {
    let fi = from as int % 8;
    let ri = from as int / 8;
    ray_moves(v, from, fi, ri, 1, 0) + ray_moves(v, from, fi, ri, -1, 0) + ray_moves(
        v,
        from,
        fi,
        ri,
        0,
        1,
    ) + ray_moves(v, from, fi, ri, 0, -1)
}

/// The bishop-direction rays from `from`.
pub open spec fn bishop_ray_moves(v: BoardModel, from: u16) -> Seq<Move> {
    let fi = from as int % 8;
    let ri = from as int / 8;
    ray_moves(v, from, fi, ri, 1, 1) + ray_moves(v, from, fi, ri, 1, -1) + ray_moves(
        v,
        from,
        fi,
        ri,
        -1,
        1,
    ) + ray_moves(v, from, fi, ri, -1, -1)
}

/// The eight knight jumps from `from`.
pub open spec fn knight_step_moves(v: BoardModel, from: u16) -> Seq<Move> {
    step_move(v, from, 1, 2) + step_move(v, from, 2, 1) + step_move(v, from, -2, 1) + step_move(
        v,
        from,
        -1,
        2,
    ) + step_move(v, from, 1, -2) + step_move(v, from, 2, -1) + step_move(v, from, -2, -1)
        + step_move(v, from, -1, -2)
}

/// The eight king steps from `from`, diagonals first.
pub open spec fn king_step_moves(v: BoardModel, from: u16) -> Seq<Move> {
    step_move(v, from, 1, 1) + step_move(v, from, 1, -1) + step_move(v, from, -1, 1) + step_move(
        v,
        from,
        -1,
        -1,
    ) + step_move(v, from, 1, 0) + step_move(v, from, -1, 0) + step_move(v, from, 0, 1)
        + step_move(v, from, 0, -1)
}

/// The castling candidates of the king on `from`: emitted whenever the
/// corresponding right is held and the rook is on its home square; the
/// emptiness and safety of the king's path is the legality filter's to
/// check.
#[verifier::opaque]
pub open spec fn castle_moves(v: BoardModel, from: u16) -> Seq<Move> {
    let side = v.side_to_move;
    let ks = if side == Color::White {
        if has_right(v.castling_rights, WHITE_KINGSIDE_CASTLING_RIGHTS) && v.squares[7] == Some(
            Piece::Rook(Color::White),
        ) {
            seq![Move::enc(from, 6, FLAG_CASTLE_KING)]
        } else {
            Seq::empty()
        }
    } else {
        if has_right(v.castling_rights, BLACK_KINGSIDE_CASTLING_RIGHTS) && v.squares[63] == Some(
            Piece::Rook(Color::Black),
        ) {
            seq![Move::enc(from, 62, FLAG_CASTLE_KING)]
        } else {
            Seq::empty()
        }
    };
    let qs = if side == Color::White {
        if has_right(v.castling_rights, WHITE_QUEENSIDE_CASTLING_RIGHTS) && v.squares[0] == Some(
            Piece::Rook(Color::White),
        ) {
            seq![Move::enc(from, 2, FLAG_CASTLE_QUEEN)]
        } else {
            Seq::empty()
        }
    } else {
        if has_right(v.castling_rights, BLACK_QUEENSIDE_CASTLING_RIGHTS) && v.squares[56] == Some(
            Piece::Rook(Color::Black),
        ) {
            seq![Move::enc(from, 58, FLAG_CASTLE_QUEEN)]
        } else {
            Seq::empty()
        }
    };
    ks + qs
}

/// The pseudo-legal moves of the piece `p` standing on `from`.
pub open spec fn piece_moves(v: BoardModel, p: Piece, from: u16) -> Seq<Move> {
    match p {
        Piece::Pawn(_) => pawn_moves(v, from),
        Piece::Rook(_) => rook_ray_moves(v, from),
        Piece::Bishop(_) => bishop_ray_moves(v, from),
        Piece::Knight(_) => knight_step_moves(v, from),
        Piece::Queen(_) => rook_ray_moves(v, from) + bishop_ray_moves(v, from),
        Piece::King(_) => king_step_moves(v, from) + castle_moves(v, from),
    }
}

/// The pseudo-legal moves of the piece on square `s`, if it belongs to
/// the side to move.
pub open spec fn square_moves(v: BoardModel, s: int) -> Seq<Move> {
    match v.squares[s] {
        Some(p) => if p.spec_color() == v.side_to_move {
            piece_moves(v, p, s as u16)
        } else {
            Seq::empty()
        },
        None => Seq::empty(),
    }
}

/// The pseudo-legal moves from the first `n` squares, square-ascending.
pub open spec fn moves_upto(v: BoardModel, n: int) -> Seq<Move>
    decreases n,
{
    if n <= 0 {
        Seq::empty()
    } else {
        moves_upto(v, n - 1) + square_moves(v, n - 1)
    }
}

/// Every pseudo-legal move of the side to move, in generation order.
pub open spec fn model_moves(v: BoardModel) -> Seq<Move> {
    moves_upto(v, 64)
}

/// What the generator establishes for an emitted castling candidate:
/// the king and the rook of the moving side on their home squares with
/// the corresponding right still held.
pub open spec fn castle_pre(v: BoardModel, m: Move) -> bool {
    let side = v.side_to_move;
    let from = m.spec_from() as int;
    let to = m.spec_to() as int;
    &&& m.spec_is_castle()
    &&& v.squares[from] == Some(Piece::King(side))
    &&& from == (if side == Color::White {
        4int
    } else {
        60
    })
    &&& (m.spec_is_castle_kingside() ==> to == from + 2 && has_right(
        v.castling_rights,
        if side == Color::White {
            WHITE_KINGSIDE_CASTLING_RIGHTS
        } else {
            BLACK_KINGSIDE_CASTLING_RIGHTS
        },
    ) && v.squares[from + 3] == Some(Piece::Rook(side)))
    &&& (m.spec_is_castle_queenside() ==> to == from - 2 && has_right(
        v.castling_rights,
        if side == Color::White {
            WHITE_QUEENSIDE_CASTLING_RIGHTS
        } else {
            BLACK_QUEENSIDE_CASTLING_RIGHTS
        },
    ) && v.squares[from - 4] == Some(Piece::Rook(side)))
}

/// What the generator establishes for every emitted move: for castles
/// the castling preconditions, for everything else the full demands of
/// `make_move`.
pub open spec fn pseudo_legal(v: BoardModel, m: Move) -> bool {
    if m.spec_is_castle() {
        castle_pre(v, m)
    } else {
        v.applicable(m)
    }
}

/// A quiet move of a non-pawn onto an empty square meets all of
/// `make_move`'s demands.
proof fn lemma_quiet_applicable(v: BoardModel, from: u16, to: int)
    requires
        v.wf(),
        from < 64,
        0 <= to < 64,
        from as int != to,
        v.squares[from as int] matches Some(p) && p.spec_color() == v.side_to_move && !(p matches
            Piece::Pawn(_)),
        v.squares[to] is None,
    ensures
        v.applicable(Move::enc(from, to as u16, FLAG_NORMAL)),
{
    reveal(BoardModel::applicable);
    let m = Move::enc(from, to as u16, FLAG_NORMAL);
    assert(m.spec_from() == from && m.spec_to() == to && m.spec_flag() == FLAG_NORMAL);
}

/// A capture of an enemy piece other than a king, by a non-pawn, meets
/// all of `make_move`'s demands.
proof fn lemma_capture_applicable(v: BoardModel, from: u16, to: int)
    requires
        v.wf(),
        from < 64,
        0 <= to < 64,
        from as int != to,
        v.squares[from as int] matches Some(p) && p.spec_color() == v.side_to_move && !(p matches
            Piece::Pawn(_)),
        v.squares[to] matches Some(q) && q.spec_color() == v.side_to_move.spec_opposite() && !(
        q matches Piece::King(_)),
    ensures
        v.applicable(Move::enc(from, to as u16, FLAG_CAPTURE)),
{
    reveal(BoardModel::applicable);
    let m = Move::enc(from, to as u16, FLAG_CAPTURE);
    assert(m.spec_from() == from && m.spec_to() == to && m.spec_flag() == FLAG_CAPTURE);
}

/// On a position nobody's king is exposed in, no piece of the side to
/// move has an attacking line onto an enemy king: a pseudo-legal capture
/// never removes a king.
proof fn lemma_no_king_target(v: BoardModel, from: int, t: int)
    requires
        v.ready(),
        0 <= from < 64,
        0 <= t < 64,
        v.squares[from] matches Some(p) && p.spec_color() == v.side_to_move,
        piece_attacks(v.squares, v.squares[from]->Some_0, from % 8, from / 8, t % 8, t / 8),
    ensures
        !(v.squares[t] == Some(Piece::King(v.side_to_move.spec_opposite()))),
{
    if v.squares[t] == Some(Piece::King(v.side_to_move.spec_opposite())) {
        reveal(attacked_by);
        assert(t == v.enemy_king() as int);
        assert(on_board(from % 8, from / 8));
        assert(sq_at(from % 8, from / 8) == from);
        assert(attacked_by(v.squares, v.side_to_move, t));
        assert(false);
    }
}

/// The shared contract of one sliding direction: the piece on `from`
/// may slide along `(dx, dy)`.
pub open spec fn slider_dir_ok(v: BoardModel, from: u16, dx: int, dy: int) -> bool {
    v.squares[from as int] matches Some(p) && p.spec_color() == v.side_to_move && (match p {
        Piece::Rook(_) => rook_dir(dx, dy),
        Piece::Bishop(_) => bishop_dir(dx, dy),
        Piece::Queen(_) => rook_dir(dx, dy) || bishop_dir(dx, dy),
        _ => false,
    })
}

/// Continues a slide that has reached file `cf`, rank `cr` after `k`
/// empty steps, emitting the remaining moves of this direction.
#[verifier::rlimit(100)]
#[verifier::spinoff_prover]
fn ray_walk(
    board: &Board,
    from: u16,
    cf: i32,
    cr: i32,
    dx: i32,
    dy: i32,
    k: Ghost<int>,
    moves: &mut Vec<Move>,
)
    requires
        board@.ready(),
        from < 64,
        -1 <= dx <= 1,
        -1 <= dy <= 1,
        !(dx == 0 && dy == 0),
        slider_dir_ok(board@, from, dx as int, dy as int),
        k@ >= 0,
        cf == from as int % 8 + k@ * dx,
        cr == from as int / 8 + k@ * dy,
        on_board(cf as int, cr as int),
        forall|j: int|
            1 <= j <= k@ ==> board@.squares[#[trigger] sq_at(
                from as int % 8 + j * dx,
                from as int / 8 + j * dy,
            )] is None,
    ensures
        final(moves)@ == old(moves)@ + ray_moves(
            board@,
            from,
            cf as int,
            cr as int,
            dx as int,
            dy as int,
        ),
        forall|i: int|
            old(moves)@.len() <= i < final(moves)@.len() ==> board@.applicable(
                #[trigger] final(moves)@[i],
            ) && !final(moves)@[i].spec_is_castle(),
    decreases ray_fuel(cf as int, cr as int, dx as int, dy as int),
{
    proof {
        reveal(ray_moves);
    }
    let ghost v = board@;
    let ghost fi = from as int % 8;
    let ghost ri = from as int / 8;
    let nf = cf + dx;
    let nr = cr + dy;
    if nf < 0 || nf >= 8 || nr < 0 || nr >= 8 {
        proof {
            assert(ray_moves(v, from, cf as int, cr as int, dx as int, dy as int)
                =~= Seq::<Move>::empty());
            assert(moves@ =~= moves@ + ray_moves(v, from, cf as int, cr as int, dx as int, dy as int));
        }
        return ;
    }
    let to_idx = (nr * 8 + nf) as usize;
    let to16 = to_idx as u16;
    proof {
        lemma_mul_succ(k@, dx as int);
        lemma_mul_succ(k@, dy as int);
        assert(nf as int == fi + (k@ + 1) * dx && nr as int == ri + (k@ + 1) * dy);
        assert(sq_at(nf as int, nr as int) == to_idx as int);
        assert(from as int != to_idx as int) by {
            if dx != 0 {
                assert(nf as int != fi) by (nonlinear_arith)
                    requires
                        nf == fi + (k@ + 1) * dx,
                        k@ >= 0,
                        dx == 1 || dx == -1,
                ;
            } else {
                assert(nr as int != ri) by (nonlinear_arith)
                    requires
                        nr == ri + (k@ + 1) * dy,
                        k@ >= 0,
                        dy == 1 || dy == -1,
                ;
            }
            assert(from as int == sq_at(fi, ri));
        }
    }
    match board.squares[to_idx] {
        None => {
            let m = Move::normal(from, to16);
            moves.push(m);
            proof {
                lemma_quiet_applicable(v, from, to_idx as int);
            }
            ray_walk(board, from, nf, nr, dx, dy, Ghost(k@ + 1), moves);
            proof {
                assert(ray_moves(v, from, cf as int, cr as int, dx as int, dy as int) == seq![m]
                    + ray_moves(v, from, nf as int, nr as int, dx as int, dy as int));
                assert(moves@ =~= old(moves)@ + ray_moves(
                    v,
                    from,
                    cf as int,
                    cr as int,
                    dx as int,
                    dy as int,
                ));
            }
        },
        Some(piece) => {
            if is_enemy(piece, board.side_to_move) {
                let m = Move::capture(from, to16);
                proof {
                    let p = v.squares[from as int]->Some_0;
                    assert(piece_attacks(v.squares, p, fi, ri, nf as int, nr as int)) by {
                        assert(ray_clear(v.squares, fi, ri, dx as int, dy as int, k@ + 1)) by {
                            assert forall|j: int|
                                1 <= j < k@ + 1 implies v.squares[#[trigger] sq_at(
                                fi + j * dx,
                                ri + j * dy,
                            )] is None by {
                                assert(1 <= j <= k@);
                            }
                        }
                        if rook_dir(dx as int, dy as int) {
                            assert(straight_attack(v.squares, fi, ri, nf as int, nr as int));
                        } else {
                            assert(bishop_dir(dx as int, dy as int));
                            assert(diag_attack(v.squares, fi, ri, nf as int, nr as int));
                        }
                    }
                    lemma_no_king_target(v, from as int, to_idx as int);
                    lemma_capture_applicable(v, from, to_idx as int);
                }
                moves.push(m);
                proof {
                    assert(ray_moves(v, from, cf as int, cr as int, dx as int, dy as int)
                        == seq![m]);
                    assert(moves@ =~= old(moves)@ + ray_moves(
                        v,
                        from,
                        cf as int,
                        cr as int,
                        dx as int,
                        dy as int,
                    ));
                }
            } else {
                proof {
                    assert(ray_moves(v, from, cf as int, cr as int, dx as int, dy as int)
                        =~= Seq::<Move>::empty());
                    assert(moves@ =~= moves@ + ray_moves(
                        v,
                        from,
                        cf as int,
                        cr as int,
                        dx as int,
                        dy as int,
                    ));
                }
            }
        },
    }
}

/// Emits the moves of a sliding piece on `from` along the single
/// direction `(dx, dy)`: quiet moves until the board edge, a friendly
/// piece, or an enemy piece, which is included as a capture.
fn generate_long_moves(board: &Board, from: u16, dx: i32, dy: i32, moves: &mut Vec<Move>)
    requires
        board@.ready(),
        from < 64,
        -1 <= dx <= 1,
        -1 <= dy <= 1,
        !(dx == 0 && dy == 0),
        slider_dir_ok(board@, from, dx as int, dy as int),
    ensures
        final(moves)@ == old(moves)@ + ray_moves(
            board@,
            from,
            from as int % 8,
            from as int / 8,
            dx as int,
            dy as int,
        ),
        forall|i: int|
            old(moves)@.len() <= i < final(moves)@.len() ==> board@.applicable(
                #[trigger] final(moves)@[i],
            ) && !final(moves)@[i].spec_is_castle(),
{
    let fi: i32 = (from % 8) as i32;
    let ri: i32 = (from / 8) as i32;
    ray_walk(board, from, fi, ri, dx, dy, Ghost(0int), moves);
}

/// The shared contract of one king or knight step: the piece on `from`
/// may step by `(dx, dy)`.
pub open spec fn stepper_dir_ok(v: BoardModel, from: u16, dx: int, dy: int) -> bool {
    v.squares[from as int] matches Some(p) && p.spec_color() == v.side_to_move && (match p {
        Piece::Knight(_) => knight_delta(dx, dy),
        Piece::King(_) => king_delta(dx, dy),
        _ => false,
    })
}

/// Emits the single step of a king or knight from `from` by `(dx, dy)`:
/// a quiet move onto an empty square or a capture of an enemy piece.
#[verifier::rlimit(100)]
#[verifier::spinoff_prover]
fn generate_short_moves(board: &Board, from: u16, dx: i32, dy: i32, moves: &mut Vec<Move>)
    requires
        board@.ready(),
        from < 64,
        -2 <= dx <= 2,
        -2 <= dy <= 2,
        !(dx == 0 && dy == 0),
        stepper_dir_ok(board@, from, dx as int, dy as int),
    ensures
        final(moves)@ == old(moves)@ + step_move(board@, from, dx as int, dy as int),
        forall|i: int|
            old(moves)@.len() <= i < final(moves)@.len() ==> board@.applicable(
                #[trigger] final(moves)@[i],
            ) && !final(moves)@[i].spec_is_castle(),
{
    proof {
        reveal(step_move);
    }
    let ghost v = board@;
    let fi: i32 = (from % 8) as i32;
    let ri: i32 = (from / 8) as i32;
    let nf = fi + dx;
    let nr = ri + dy;
    if nf < 0 || nf >= 8 || nr < 0 || nr >= 8 {
        proof {
            assert(moves@ =~= moves@ + step_move(v, from, dx as int, dy as int));
        }
        return ;
    }
    let to_idx = (nr * 8 + nf) as usize;
    let to16 = to_idx as u16;
    proof {
        assert(sq_at(nf as int, nr as int) == to_idx as int);
        assert(from as int == sq_at(fi as int, ri as int));
        assert(from as int != to_idx as int);
    }
    match board.squares[to_idx] {
        None => {
            let m = Move::normal(from, to16);
            moves.push(m);
            proof {
                lemma_quiet_applicable(v, from, to_idx as int);
                assert(moves@ =~= old(moves)@ + step_move(v, from, dx as int, dy as int));
            }
        },
        Some(piece) => {
            if is_enemy(piece, board.side_to_move) {
                let m = Move::capture(from, to16);
                proof {
                    let p = v.squares[from as int]->Some_0;
                    assert(piece_attacks(v.squares, p, fi as int, ri as int, nf as int, nr as int));
                    lemma_no_king_target(v, from as int, to_idx as int);
                    lemma_capture_applicable(v, from, to_idx as int);
                }
                moves.push(m);
                proof {
                    assert(moves@ =~= old(moves)@ + step_move(v, from, dx as int, dy as int));
                }
            } else {
                proof {
                    assert(moves@ =~= moves@ + step_move(v, from, dx as int, dy as int));
                }
            }
        },
    }
}

/// Emits the moves of the rook on `from`.
fn generate_one_rook_moves(board: &Board, from: u16, moves: &mut Vec<Move>)
    requires
        board@.ready(),
        from < 64,
        board@.squares[from as int] == Some(Piece::Rook(board@.side_to_move)),
    ensures
        final(moves)@ == old(moves)@ + rook_ray_moves(board@, from),
        forall|i: int|
            old(moves)@.len() <= i < final(moves)@.len() ==> board@.applicable(
                #[trigger] final(moves)@[i],
            ) && !final(moves)@[i].spec_is_castle(),
{
    generate_long_moves(board, from, 1, 0, moves);
    generate_long_moves(board, from, -1, 0, moves);
    generate_long_moves(board, from, 0, 1, moves);
    generate_long_moves(board, from, 0, -1, moves);
    proof {
        assert(moves@ =~= old(moves)@ + rook_ray_moves(board@, from));
    }
}

/// Emits the moves of the bishop on `from`.
fn generate_one_bishop_moves(board: &Board, from: u16, moves: &mut Vec<Move>)
    requires
        board@.ready(),
        from < 64,
        board@.squares[from as int] == Some(Piece::Bishop(board@.side_to_move)),
    ensures
        final(moves)@ == old(moves)@ + bishop_ray_moves(board@, from),
        forall|i: int|
            old(moves)@.len() <= i < final(moves)@.len() ==> board@.applicable(
                #[trigger] final(moves)@[i],
            ) && !final(moves)@[i].spec_is_castle(),
{
    generate_long_moves(board, from, 1, 1, moves);
    generate_long_moves(board, from, 1, -1, moves);
    generate_long_moves(board, from, -1, 1, moves);
    generate_long_moves(board, from, -1, -1, moves);
    proof {
        assert(moves@ =~= old(moves)@ + bishop_ray_moves(board@, from));
    }
}

/// Emits the moves of the queen on `from`: the rook rays, then the
/// bishop rays.
#[verifier::rlimit(100)]
#[verifier::spinoff_prover]
fn generate_queen_moves(board: &Board, from: u16, moves: &mut Vec<Move>)
    requires
        board@.ready(),
        from < 64,
        board@.squares[from as int] == Some(Piece::Queen(board@.side_to_move)),
    ensures
        final(moves)@ == old(moves)@ + rook_ray_moves(board@, from) + bishop_ray_moves(
            board@,
            from,
        ),
        forall|i: int|
            old(moves)@.len() <= i < final(moves)@.len() ==> board@.applicable(
                #[trigger] final(moves)@[i],
            ) && !final(moves)@[i].spec_is_castle(),
{
    generate_long_moves(board, from, 1, 0, moves);
    generate_long_moves(board, from, -1, 0, moves);
    generate_long_moves(board, from, 0, 1, moves);
    generate_long_moves(board, from, 0, -1, moves);
    generate_long_moves(board, from, 1, 1, moves);
    generate_long_moves(board, from, 1, -1, moves);
    generate_long_moves(board, from, -1, 1, moves);
    generate_long_moves(board, from, -1, -1, moves);
    proof {
        assert(moves@ =~= old(moves)@ + rook_ray_moves(board@, from) + bishop_ray_moves(
            board@,
            from,
        ));
    }
}

/// Emits the jumps of the knight on `from`.
#[verifier::rlimit(100)]
#[verifier::spinoff_prover]
fn generate_one_knight_moves(board: &Board, from: u16, moves: &mut Vec<Move>)
    requires
        board@.ready(),
        from < 64,
        board@.squares[from as int] == Some(Piece::Knight(board@.side_to_move)),
    ensures
        final(moves)@ == old(moves)@ + knight_step_moves(board@, from),
        forall|i: int|
            old(moves)@.len() <= i < final(moves)@.len() ==> board@.applicable(
                #[trigger] final(moves)@[i],
            ) && !final(moves)@[i].spec_is_castle(),
{
    generate_short_moves(board, from, 1, 2, moves);
    generate_short_moves(board, from, 2, 1, moves);
    generate_short_moves(board, from, -2, 1, moves);
    generate_short_moves(board, from, -1, 2, moves);
    generate_short_moves(board, from, 1, -2, moves);
    generate_short_moves(board, from, 2, -1, moves);
    generate_short_moves(board, from, -2, -1, moves);
    generate_short_moves(board, from, -1, -2, moves);
    proof {
        assert(moves@ =~= old(moves)@ + knight_step_moves(board@, from));
    }
}

/// Emits the castling candidates of the king on `from`: one per wing
/// whose right is still held and whose rook is on its home square.  The
/// emptiness and safety of the king's path is the legality filter's job.
fn generate_castles(board: &Board, from: u16, moves: &mut Vec<Move>)
    requires
        board@.ready(),
        from < 64,
        board@.squares[from as int] == Some(Piece::King(board@.side_to_move)),
    ensures
        final(moves)@ == old(moves)@ + castle_moves(board@, from),
        forall|i: int|
            old(moves)@.len() <= i < final(moves)@.len() ==> castle_pre(
                board@,
                #[trigger] final(moves)@[i],
            ) && final(moves)@[i].spec_is_castle(),
{
    proof {
        reveal(castle_moves);
    }
    let ghost v = board@;
    if board.side_to_move == Color::White {
        if board.castling_rights & WHITE_KINGSIDE_CASTLING_RIGHTS != 0 {
            if board.squares[7].is_some() && matches!(board.squares[7], Some(Piece::Rook(Color::White))) {
                let m = Move::castle_kingside(from, 6);
                proof {
                    assert(from == 4);
                }
                moves.push(m);
            }
        }
        if board.castling_rights & WHITE_QUEENSIDE_CASTLING_RIGHTS != 0 {
            if matches!(board.squares[0], Some(Piece::Rook(Color::White))) {
                let m = Move::castle_queenside(from, 2);
                proof {
                    assert(from == 4);
                }
                moves.push(m);
            }
        }
    } else {
        if board.castling_rights & BLACK_KINGSIDE_CASTLING_RIGHTS != 0 {
            if matches!(board.squares[63], Some(Piece::Rook(Color::Black))) {
                let m = Move::castle_kingside(from, 62);
                proof {
                    assert(from == 60);
                }
                moves.push(m);
            }
        }
        if board.castling_rights & BLACK_QUEENSIDE_CASTLING_RIGHTS != 0 {
            if matches!(board.squares[56], Some(Piece::Rook(Color::Black))) {
                let m = Move::castle_queenside(from, 58);
                proof {
                    assert(from == 60);
                }
                moves.push(m);
            }
        }
    }
    proof {
        assert(moves@ =~= old(moves)@ + castle_moves(v, from));
    }
}

/// Emits the steps of the king on `from`, diagonals first, then its
/// castling candidates.
#[verifier::rlimit(100)]
#[verifier::spinoff_prover]
fn generate_king_moves(board: &Board, from: u16, moves: &mut Vec<Move>)
    requires
        board@.ready(),
        from < 64,
        board@.squares[from as int] == Some(Piece::King(board@.side_to_move)),
    ensures
        final(moves)@ == old(moves)@ + king_step_moves(board@, from) + castle_moves(board@, from),
        forall|i: int|
            old(moves)@.len() <= i < final(moves)@.len() ==> pseudo_legal(
                board@,
                #[trigger] final(moves)@[i],
            ),
{
    generate_short_moves(board, from, 1, 1, moves);
    generate_short_moves(board, from, 1, -1, moves);
    generate_short_moves(board, from, -1, 1, moves);
    generate_short_moves(board, from, -1, -1, moves);
    generate_short_moves(board, from, 1, 0, moves);
    generate_short_moves(board, from, -1, 0, moves);
    generate_short_moves(board, from, 0, 1, moves);
    generate_short_moves(board, from, 0, -1, moves);
    generate_castles(board, from, moves);
    proof {
        assert(moves@ =~= old(moves)@ + king_step_moves(board@, from) + castle_moves(
            board@,
            from,
        ));
    }
}

/// A single pawn advance onto an empty square meets `make_move`'s
/// demands.
proof fn lemma_pawn_push_applicable(v: BoardModel, from: u16, to: int)
    requires
        v.wf(),
        from < 64,
        0 <= to < 64,
        v.squares[from as int] == Some(Piece::Pawn(v.side_to_move)),
        v.squares[to] is None,
        v.side_to_move == Color::White ==> to == from + 8,
        v.side_to_move == Color::Black ==> to == from - 8,
    ensures
        v.applicable(Move::enc(from, to as u16, FLAG_NORMAL)),
{
    reveal(BoardModel::applicable);
    let m = Move::enc(from, to as u16, FLAG_NORMAL);
    assert(m.spec_from() == from && m.spec_to() == to && m.spec_flag() == FLAG_NORMAL);
}

/// A double pawn advance from the starting rank over two empty squares
/// meets `make_move`'s demands.
proof fn lemma_pawn_double_applicable(v: BoardModel, from: u16, to: int)
    requires
        v.wf(),
        from < 64,
        0 <= to < 64,
        v.squares[from as int] == Some(Piece::Pawn(v.side_to_move)),
        v.squares[to] is None,
        v.side_to_move == Color::White ==> to == from + 16 && from / 8 == 1 && v.squares[from
            + 8] is None,
        v.side_to_move == Color::Black ==> to == from - 16 && from / 8 == 6 && v.squares[from as int
            - 8] is None,
    ensures
        v.applicable(Move::enc(from, to as u16, FLAG_NORMAL)),
{
    reveal(BoardModel::applicable);
    let m = Move::enc(from, to as u16, FLAG_NORMAL);
    assert(m.spec_from() == from && m.spec_to() == to && m.spec_flag() == FLAG_NORMAL);
}

/// A promotion, quiet or capturing, meets `make_move`'s demands.
proof fn lemma_pawn_promo_applicable(v: BoardModel, from: u16, to: int, pt: u16, cap: bool)
    requires
        v.wf(),
        from < 64,
        0 <= to < 64,
        from as int != to,
        pt < 4,
        v.squares[from as int] == Some(Piece::Pawn(v.side_to_move)),
        !cap ==> v.squares[to] is None,
        cap ==> (v.squares[to] matches Some(q) && q.spec_color() == v.side_to_move.spec_opposite()
            && !(q matches Piece::King(_))),
    ensures
        v.applicable(
            Move::enc(
                from,
                to as u16,
                (if cap {
                    FLAG_PROMOTION_CAPTURE_QUEEN + pt
                } else {
                    FLAG_PROMOTION_QUEEN + pt
                }) as u16,
            ),
        ),
{
    reveal(BoardModel::applicable);
    let flag = (if cap {
        FLAG_PROMOTION_CAPTURE_QUEEN + pt
    } else {
        FLAG_PROMOTION_QUEEN + pt
    }) as u16;
    let m = Move::enc(from, to as u16, flag);
    assert(m.spec_from() == from && m.spec_to() == to && m.spec_flag() == flag);
}

/// An ordinary pawn capture of an enemy piece other than a king meets
/// `make_move`'s demands.
proof fn lemma_pawn_capture_applicable(v: BoardModel, from: u16, to: int)
    requires
        v.wf(),
        from < 64,
        0 <= to < 64,
        from as int != to,
        to - from != 16 && from - to != 16,
        v.squares[from as int] == Some(Piece::Pawn(v.side_to_move)),
        v.squares[to] matches Some(q) && q.spec_color() == v.side_to_move.spec_opposite() && !(
        q matches Piece::King(_)),
    ensures
        v.applicable(Move::enc(from, to as u16, FLAG_CAPTURE)),
{
    reveal(BoardModel::applicable);
    let m = Move::enc(from, to as u16, FLAG_CAPTURE);
    assert(m.spec_from() == from && m.spec_to() == to && m.spec_flag() == FLAG_CAPTURE);
}

/// An en-passant capture onto the recorded target square meets
/// `make_move`'s demands on any position whose target is answerable.
proof fn lemma_pawn_ep_applicable(v: BoardModel, from: u16, to: int)
    requires
        v.wf(),
        v.ep_answerable_by(v.side_to_move),
        from < 64,
        0 <= to < 64,
        v.squares[from as int] == Some(Piece::Pawn(v.side_to_move)),
        v.en_passant_square == Some(to as u8),
        to - from != 16 && from - to != 16,
    ensures
        v.applicable(Move::enc(from, to as u16, FLAG_EP_CAPTURE)),
{
    reveal(BoardModel::applicable);
    let m = Move::enc(from, to as u16, FLAG_EP_CAPTURE);
    assert(m.spec_from() == from && m.spec_to() == to && m.spec_flag() == FLAG_EP_CAPTURE);
    assert(v.squares[to] is None);
}

/// Emits the captures of the pawn on `from` toward file offset `df`: a
/// capture of an enemy piece (as four promotions on the last rank), then
/// an en-passant capture onto the recorded target square.
#[verifier::rlimit(100)]
#[verifier::spinoff_prover]
fn pawn_captures_into(board: &Board, from: u16, df: i32, moves: &mut Vec<Move>)
    requires
        board@.ready(),
        from < 64,
        df == 1 || df == -1,
        board@.squares[from as int] == Some(Piece::Pawn(board@.side_to_move)),
    ensures
        final(moves)@ == old(moves)@ + pawn_capture_moves(board@, from, df as int),
        forall|i: int|
            old(moves)@.len() <= i < final(moves)@.len() ==> board@.applicable(
                #[trigger] final(moves)@[i],
            ) && !final(moves)@[i].spec_is_castle(),
{
    proof {
        reveal(pawn_capture_moves);
    }
    let ghost v = board@;
    let side = board.side_to_move;
    let fi: i32 = (from % 8) as i32;
    let ri: i32 = (from / 8) as i32;
    let dir: i32 = if side == Color::White {
        1
    } else {
        -1
    };
    let promo: i32 = if side == Color::White {
        7
    } else {
        0
    };
    let nf = fi + df;
    let nr = ri + dir;
    if nf < 0 || nf >= 8 || nr < 0 || nr >= 8 {
        proof {
            assert(moves@ =~= moves@ + pawn_capture_moves(v, from, df as int));
        }
        return ;
    }
    let to_idx = (nr * 8 + nf) as usize;
    let to16 = to_idx as u16;
    proof {
        assert(sq_at(nf as int, nr as int) == to_idx as int);
        assert(from as int == sq_at(fi as int, ri as int));
        assert(from as int != to_idx as int);
        assert(piece_attacks(
            v.squares,
            Piece::Pawn(side),
            fi as int,
            ri as int,
            nf as int,
            nr as int,
        ));
    }
    if let Some(piece) = board.squares[to_idx] {
        if is_enemy(piece, side) {
            proof {
                lemma_no_king_target(v, from as int, to_idx as int);
            }
            if nr == promo {
                proof {
                    lemma_pawn_promo_applicable(v, from, to_idx as int, 0, true);
                    lemma_pawn_promo_applicable(v, from, to_idx as int, 1, true);
                    lemma_pawn_promo_applicable(v, from, to_idx as int, 2, true);
                    lemma_pawn_promo_applicable(v, from, to_idx as int, 3, true);
                }
                moves.push(Move::promotion(from, to16, 0, true));
                moves.push(Move::promotion(from, to16, 1, true));
                moves.push(Move::promotion(from, to16, 2, true));
                moves.push(Move::promotion(from, to16, 3, true));
            } else {
                proof {
                    lemma_pawn_capture_applicable(v, from, to_idx as int);
                }
                moves.push(Move::capture(from, to16));
            }
        }
    }
    if let Some(ep) = board.en_passant_square {
        if ep as i32 == nr * 8 + nf {
            proof {
                lemma_pawn_ep_applicable(v, from, to_idx as int);
            }
            moves.push(Move::en_passant_capture(from, to16));
        }
    }
    proof {
        assert(moves@ =~= old(moves)@ + pawn_capture_moves(v, from, df as int));
    }
}

/// Emits the moves of the pawn on `from`: the single and double pushes,
/// then the captures toward the lower and the higher file, with the
/// four promotion variants substituted on the last rank.
#[verifier::rlimit(100)]
#[verifier::spinoff_prover]
fn generate_one_pawn_moves(board: &Board, from: u16, moves: &mut Vec<Move>)
    requires
        board@.ready(),
        from < 64,
        board@.squares[from as int] == Some(Piece::Pawn(board@.side_to_move)),
    ensures
        final(moves)@ == old(moves)@ + pawn_moves(board@, from),
        forall|i: int|
            old(moves)@.len() <= i < final(moves)@.len() ==> board@.applicable(
                #[trigger] final(moves)@[i],
            ) && !final(moves)@[i].spec_is_castle(),
{
    proof {
        reveal(pawn_push_moves);
    }
    let ghost v = board@;
    let side = board.side_to_move;
    let fi: i32 = (from % 8) as i32;
    let ri: i32 = (from / 8) as i32;
    let dir: i32 = if side == Color::White {
        1
    } else {
        -1
    };
    let promo: i32 = if side == Color::White {
        7
    } else {
        0
    };
    let start: i32 = if side == Color::White {
        1
    } else {
        6
    };

    let nr = ri + dir;
    if nr >= 0 && nr < 8 {
        let to_idx = (nr * 8 + fi) as usize;
        let to16 = to_idx as u16;
        proof {
            assert(sq_at(fi as int, nr as int) == to_idx as int);
            assert(from as int == sq_at(fi as int, ri as int));
            assert(from as int != to_idx as int);
        }
        if board.squares[to_idx].is_none() {
            if nr == promo {
                proof {
                    lemma_pawn_promo_applicable(v, from, to_idx as int, 0, false);
                    lemma_pawn_promo_applicable(v, from, to_idx as int, 1, false);
                    lemma_pawn_promo_applicable(v, from, to_idx as int, 2, false);
                    lemma_pawn_promo_applicable(v, from, to_idx as int, 3, false);
                }
                moves.push(Move::promotion(from, to16, 0, false));
                moves.push(Move::promotion(from, to16, 1, false));
                moves.push(Move::promotion(from, to16, 2, false));
                moves.push(Move::promotion(from, to16, 3, false));
            } else {
                proof {
                    lemma_pawn_push_applicable(v, from, to_idx as int);
                }
                moves.push(Move::normal(from, to16));
                if ri == start {
                    let nr2 = ri + 2 * dir;
                    let to2_idx = (nr2 * 8 + fi) as usize;
                    proof {
                        assert(sq_at(fi as int, nr2 as int) == to2_idx as int);
                    }
                    if board.squares[to2_idx].is_none() {
                        proof {
                            lemma_pawn_double_applicable(v, from, to2_idx as int);
                        }
                        moves.push(Move::normal(from, to2_idx as u16));
                    }
                }
            }
        }
    }
    proof {
        assert(moves@ =~= old(moves)@ + pawn_push_moves(v, from));
        assert(forall|i: int|
            old(moves)@.len() <= i < moves@.len() ==> v.applicable(#[trigger] moves@[i])
                && !moves@[i].spec_is_castle());
    }
    pawn_captures_into(board, from, -1, moves);
    pawn_captures_into(board, from, 1, moves);
    proof {
        assert(moves@ =~= old(moves)@ + pawn_moves(v, from));
    }
}

/// Emits every pseudo-legal move of the side to move, scanning the
/// squares in ascending order.
#[verifier::rlimit(100)]
#[verifier::spinoff_prover]
fn generate_all_moves(board: &Board, moves: &mut Vec<Move>)
    requires
        board@.ready(),
    ensures
        final(moves)@ == old(moves)@ + model_moves(board@),
        forall|i: int|
            old(moves)@.len() <= i < final(moves)@.len() ==> pseudo_legal(
                board@,
                #[trigger] final(moves)@[i],
            ),
{
    let ghost v = board@;
    let mut square: usize = 0;
    while square < 64
        invariant
            board@.ready(),
            v == board@,
            square <= 64,
            moves@ == old(moves)@ + moves_upto(v, square as int),
            forall|i: int|
                old(moves)@.len() <= i < moves@.len() ==> pseudo_legal(v, #[trigger] moves@[i]),
        decreases 64 - square,
    {
        let from16 = square as u16;
        if let Some(piece) = board.squares[square] {
            if piece.color() == board.side_to_move {
                match piece {
                    Piece::Pawn(_) => generate_one_pawn_moves(board, from16, moves),
                    Piece::Rook(_) => generate_one_rook_moves(board, from16, moves),
                    Piece::Bishop(_) => generate_one_bishop_moves(board, from16, moves),
                    Piece::Knight(_) => generate_one_knight_moves(board, from16, moves),
                    Piece::Queen(_) => generate_queen_moves(board, from16, moves),
                    Piece::King(_) => generate_king_moves(board, from16, moves),
                }
            }
        }
        proof {
            assert(moves@ =~= old(moves)@ + moves_upto(v, square as int + 1));
        }
        square += 1;
    }
    proof {
        assert(moves@ =~= old(moves)@ + model_moves(v));
    }
}

/// Whether a pseudo-legal move survives the legality filter.  A castle
/// is kept when the king's start, transit and landing squares are
/// unattacked and every square between king and rook is empty; any other
/// move is kept when it does not leave the mover's own king attacked.
pub open spec fn spec_valid(v: BoardModel, m: Move) -> bool {
    if m.spec_is_castle() {
        let k = v.own_king() as int;
        if m.spec_is_castle_kingside() {
            &&& !attacked(v, k)
            &&& !attacked(v, k + 1)
            &&& v.squares[k + 1] is None
            &&& !attacked(v, k + 2)
            &&& v.squares[k + 2] is None
        } else {
            &&& !attacked(v, k)
            &&& !attacked(v, k - 1)
            &&& v.squares[k - 1] is None
            &&& !attacked(v, k - 2)
            &&& v.squares[k - 2] is None
            &&& v.squares[k - 3] is None
        }
    } else {
        !attacked(v.apply_move(m), v.apply_move(m).own_king() as int)
    }
}

/// The legal moves of a position: the pseudo-legal moves that survive
/// the legality filter, in generation order.
pub open spec fn model_legal_moves(v: BoardModel) -> Seq<Move> {
    model_moves(v).filter(|m: Move| spec_valid(v, m))
}

/// A pseudo-legal move kept by the filter meets all of `make_move`'s
/// demands: for castles, the filter's emptiness checks supply the
/// transit squares that the generator left unchecked.
pub proof fn lemma_legal_applicable(v: BoardModel, m: Move)
    requires
        v.wf(),
        pseudo_legal(v, m),
        spec_valid(v, m),
    ensures
        v.applicable(m),
{
    reveal(BoardModel::applicable);
    if m.spec_is_castle() {
        assert(v.own_king() as int == m.spec_from() as int);
    }
}

/// Tests one pseudo-legal move: a castle must have its king's start,
/// transit and landing squares unattacked and the squares between king
/// and rook empty; any other move is applied to a scratch copy, judged
/// by whether the mover's king is attacked, and undone again.
pub fn is_valid_move(board: &Board, movement: Move) -> (r: bool)
    requires
        board@.ready(),
        board@.halfmove_clock < 0xffff_ffffu32,
        pseudo_legal(board@, movement),
    ensures
        r == spec_valid(board@, movement),
{
    let mut new_board: Board = *board;

    let old_king_position = match board.side_to_move {
        Color::White => board.white_king,
        Color::Black => board.black_king,
    };

    if movement.is_castle() {
        if movement.is_castle_kingside() {
            return !is_square_attacked(board, old_king_position) && !is_square_attacked(
                board,
                old_king_position + 1,
            ) && board.squares[(old_king_position + 1) as usize].is_none() && !is_square_attacked(
                board,
                old_king_position + 2,
            ) && board.squares[(old_king_position + 2) as usize].is_none();
        }
        return !is_square_attacked(board, old_king_position) && !is_square_attacked(
            board,
            old_king_position - 1,
        ) && board.squares[(old_king_position - 1) as usize].is_none() && !is_square_attacked(
            board,
            old_king_position - 2,
        ) && board.squares[(old_king_position - 2) as usize].is_none()
            && board.squares[(old_king_position - 3) as usize].is_none();
    }
    let undo_info = new_board.make_move(movement);

    let king_is_safe = !new_board.is_check();

    new_board.unmake_move(movement, undo_info);
    king_is_safe
}

/// Keeps exactly the pseudo-legal moves that survive the legality
/// filter, in their given order.
pub fn filter(board: &Board, moves: Vec<Move>) -> (valid_moves: Vec<Move>)
    requires
        board@.ready(),
        board@.halfmove_clock < 0xffff_ffffu32,
        forall|i: int| 0 <= i < moves@.len() ==> pseudo_legal(board@, #[trigger] moves@[i]),
    ensures
        valid_moves@ == moves@.filter(|m: Move| spec_valid(board@, m)),
        forall|i: int|
            0 <= i < valid_moves@.len() ==> pseudo_legal(board@, #[trigger] valid_moves@[i])
                && spec_valid(board@, valid_moves@[i]) && board@.applicable(valid_moves@[i]),
{
    let ghost v = board@;
    let ghost pred = |m: Move| spec_valid(v, m);
    let mut valid_moves: Vec<Move> = Vec::with_capacity(moves.len());
    let mut i: usize = 0;
    while i < moves.len()
        invariant
            board@.ready(),
            board@.halfmove_clock < 0xffff_ffffu32,
            v == board@,
            pred == (|m: Move| spec_valid(v, m)),
            i <= moves@.len(),
            forall|j: int| 0 <= j < moves@.len() ==> pseudo_legal(v, #[trigger] moves@[j]),
            valid_moves@ == moves@.subrange(0, i as int).filter(pred),
            forall|j: int|
                0 <= j < valid_moves@.len() ==> pseudo_legal(v, #[trigger] valid_moves@[j])
                    && spec_valid(v, valid_moves@[j]) && v.applicable(valid_moves@[j]),
        decreases moves@.len() - i,
    {
        let movement = moves[i];
        let keep = is_valid_move(board, movement);
        proof {
            reveal(Seq::filter);
            assert(moves@.subrange(0, i as int + 1).drop_last() =~= moves@.subrange(0, i as int));
            assert(moves@.subrange(0, i as int + 1).last() == moves@[i as int]);
            if keep {
                lemma_legal_applicable(v, movement);
            }
        }
        if keep {
            valid_moves.push(movement);
        }
        i += 1;
    }
    proof {
        assert(moves@.subrange(0, moves@.len() as int) =~= moves@);
    }
    valid_moves
}

/// The single legal-move entry point: every pseudo-legal move of the
/// side to move that survives the legality filter, in generation order.
pub fn generate_moves(board: &Board) -> (legal_moves: Vec<Move>)
    requires
        board@.ready(),
        board@.halfmove_clock < 0xffff_ffffu32,
    ensures
        legal_moves@ == model_legal_moves(board@),
        forall|i: int|
            0 <= i < legal_moves@.len() ==> pseudo_legal(board@, #[trigger] legal_moves@[i])
                && spec_valid(board@, legal_moves@[i]) && board@.applicable(legal_moves@[i]),
{
    let mut moves: Vec<Move> = Vec::new();

    generate_all_moves(board, &mut moves);
    filter(board, moves)
}

/// A legal castle leaves the king's landing square unattacked in the
/// position after the move: the vacated king and rook squares lie on the
/// landing square's rank, and every ray opened there is either blocked
/// by the castled rook or runs off the board.
#[verifier::rlimit(100)]
#[verifier::spinoff_prover]
proof fn lemma_castle_landing_safe(v: BoardModel, m: Move)
    requires
        v.ready(),
        pseudo_legal(v, m),
        spec_valid(v, m),
        m.spec_is_castle(),
    ensures
        !attacked(v.apply_move(m), v.apply_move(m).own_king() as int),
{
    reveal(attacked_by);
    let side = v.side_to_move;
    let w = v.apply_move(m);
    let s = v.squares;
    let sp = w.squares;
    let from = m.spec_from() as int;
    let to = m.spec_to() as int;
    let tox = to % 8;
    let toy = to / 8;
    let rf = castle_rook_from(side, m.spec_is_castle_kingside()) as int;
    let rt = castle_rook_to(side, m.spec_is_castle_kingside()) as int;
    assert(v.own_king() as int == from);
    assert(w.own_king() as int == to);
    assert(sp =~= s.update(from, None).update(to, Some(Piece::King(side))).update(rf, None).update(
        rt,
        Some(Piece::Rook(side)),
    ));
    assert(!attacked(v, to));

    assert forall|f: int, r: int|
        on_board(f, r) implies !(#[trigger] sp[sq_at(f, r)] matches Some(p) && p.spec_color()
        == side.spec_opposite() && piece_attacks(sp, p, f, r, to % 8, to / 8)) by {
        let i = sq_at(f, r);
        if sp[i] is Some && sp[i]->Some_0.spec_color() == side.spec_opposite() && piece_attacks(
            sp,
            sp[i]->Some_0,
            f,
            r,
            tox,
            toy,
        ) {
            let p = sp[i]->Some_0;
            assert(i != from && i != rf && i != rt && i != to);
            assert(s[i] == sp[i]);
            match p {
                Piece::Pawn(_) => {
                    assert(piece_attacks(s, p, f, r, tox, toy));
                },
                Piece::Knight(_) => {
                    assert(piece_attacks(s, p, f, r, tox, toy));
                },
                Piece::King(_) => {
                    assert(piece_attacks(s, p, f, r, tox, toy));
                },
                _ => {
                    if straight_attack(sp, f, r, tox, toy) {
                        if p matches Piece::Bishop(_) {
                            lemma_slider_geometry(sp, f, r, tox, toy);
                            assert(false);
                        }
                        let (dx, dy, kk) = choose|dx: int, dy: int, kk: int|
                            rook_dir(dx, dy) && kk >= 1 && tox == f + kk * dx && toy == r + kk * dy
                                && ray_clear(sp, f, r, dx, dy, kk);
                        if dy == 0 {
                            // a horizontal ray to the landing square:
                            // blocked by the castled rook or off the board
                            assert(r == toy);
                            if dx == 1 {
                                assert(f == tox - kk) by (nonlinear_arith)
                                    requires
                                        tox == f + kk * dx,
                                        dx == 1,
                                ;
                                if m.spec_is_castle_kingside() || kk >= 3 {
                                    let j = kk - 1;
                                    if j >= 1 {
                                        assert(f + j * dx == tox - 1 && r + j * dy == toy)
                                            by (nonlinear_arith)
                                            requires
                                                f == tox - kk,
                                                j == kk - 1,
                                                dx == 1,
                                                dy == 0,
                                                r == toy,
                                        ;
                                        assert(sp[sq_at(f + j * dx, r + j * dy)] is None);
                                        assert(sq_at(tox - 1, toy) == to - 1);
                                        assert(false);
                                    } else {
                                        assert(kk == 1 && i == sq_at(tox - 1, toy));
                                        assert(false);
                                    }
                                } else {
                                    // queenside, a short ray from the west:
                                    // those squares are empty or vacated
                                    assert(i == sq_at(tox - kk, toy));
                                    assert(sp[i] is None);
                                    assert(false);
                                }
                            } else {
                                assert(dx == -1);
                                assert(f == tox + kk) by (nonlinear_arith)
                                    requires
                                        tox == f + kk * dx,
                                        dx == -1,
                                ;
                                if m.spec_is_castle_kingside() {
                                    if kk == 1 {
                                        assert(i == sq_at(tox + 1, toy));
                                        assert(sp[i] is None);
                                        assert(false);
                                    } else {
                                        assert(!on_board(f, r));
                                        assert(false);
                                    }
                                } else {
                                    let j = kk - 1;
                                    if j >= 1 {
                                        assert(f + j * dx == tox + 1 && r + j * dy == toy)
                                            by (nonlinear_arith)
                                            requires
                                                f == tox + kk,
                                                j == kk - 1,
                                                dx == -1,
                                                dy == 0,
                                                r == toy,
                                        ;
                                        assert(sp[sq_at(f + j * dx, r + j * dy)] is None);
                                        assert(sq_at(tox + 1, toy) == to + 1);
                                        assert(false);
                                    } else {
                                        assert(kk == 1 && i == sq_at(tox + 1, toy));
                                        assert(false);
                                    }
                                }
                            }
                        } else {
                            // a vertical ray: no vacated square lies on it
                            assert(dx == 0 && f == tox);
                            assert(ray_clear(s, f, r, dx, dy, kk)) by {
                                assert forall|j: int|
                                    1 <= j < kk implies s[#[trigger] sq_at(
                                    f + j * dx,
                                    r + j * dy,
                                )] is None by {
                                    assert(f + j * dx == tox) by (nonlinear_arith)
                                        requires
                                            dx == 0,
                                            f == tox,
                                    ;
                                    assert(r + j * dy != toy && 0 <= r + j * dy < 8)
                                        by (nonlinear_arith)
                                        requires
                                            toy == r + kk * dy,
                                            1 <= j < kk,
                                            dy == 1 || dy == -1,
                                            0 <= r < 8,
                                            0 <= toy < 8,
                                    ;
                                    assert(sq_at(f + j * dx, r + j * dy) != from && sq_at(
                                        f + j * dx,
                                        r + j * dy,
                                    ) != rf && sq_at(f + j * dx, r + j * dy) != rt && sq_at(
                                        f + j * dx,
                                        r + j * dy,
                                    ) != to);
                                }
                            }
                            assert(straight_attack(s, f, r, tox, toy));
                            assert(piece_attacks(s, p, f, r, tox, toy));
                            assert(false);
                        }
                    } else {
                        assert(diag_attack(sp, f, r, tox, toy));
                        let (dx, dy, kk) = choose|dx: int, dy: int, kk: int|
                            bishop_dir(dx, dy) && kk >= 1 && tox == f + kk * dx && toy == r + kk
                                * dy && ray_clear(sp, f, r, dx, dy, kk);
                        // a diagonal ray: every square strictly between
                        // leaves the landing square's rank, where all the
                        // vacated squares lie
                        assert(ray_clear(s, f, r, dx, dy, kk)) by {
                            assert forall|j: int|
                                1 <= j < kk implies s[#[trigger] sq_at(
                                f + j * dx,
                                r + j * dy,
                            )] is None by {
                                assert(r + j * dy != toy && 0 <= r + j * dy < 8 && 0 <= f + j * dx
                                    < 8) by (nonlinear_arith)
                                    requires
                                        toy == r + kk * dy,
                                        tox == f + kk * dx,
                                        1 <= j < kk,
                                        dy == 1 || dy == -1,
                                        dx == 1 || dx == -1,
                                        0 <= r < 8,
                                        0 <= toy < 8,
                                        0 <= f < 8,
                                        0 <= tox < 8,
                                ;
                                assert(sq_at(f + j * dx, r + j * dy) != from && sq_at(
                                    f + j * dx,
                                    r + j * dy,
                                ) != rf && sq_at(f + j * dx, r + j * dy) != rt && sq_at(
                                    f + j * dx,
                                    r + j * dy,
                                ) != to);
                            }
                        }
                        assert(diag_attack(s, f, r, tox, toy));
                        assert(piece_attacks(s, p, f, r, tox, toy));
                        assert(false);
                    }
                },
            }
        }
    }
}

/// A legal move, with the turn then passed to the opponent, leads to a
/// position that is again ready for the move generator.
pub proof fn lemma_apply_valid_ready(v: BoardModel, m: Move)
    requires
        v.ready(),
        pseudo_legal(v, m),
        spec_valid(v, m),
    ensures
        ({
            let w = BoardModel {
                side_to_move: v.side_to_move.spec_opposite(),
                ..v.apply_move(m)
            };
            w.ready()
        }),
{
    lemma_legal_applicable(v, m);
    crate::board::lemma_apply_wf(v, m);
    let u = v.apply_move(m);
    let w = BoardModel { side_to_move: v.side_to_move.spec_opposite(), ..u };
    assert(w.wf());
    assert(w.ep_answerable_by(w.side_to_move));
    if m.spec_is_castle() {
        lemma_castle_landing_safe(v, m);
    }
    assert(!attacked(u, u.own_king() as int));
    assert(w.enemy_king() == u.own_king());
    assert(!w.exposed_king());
}

/// Castling-safety law: a castling move is excluded from the legal moves
/// whenever the king's start square, its transit square, or its landing
/// square is attacked, whatever the castling rights and the occupancy of
/// the intervening squares.
pub proof fn lemma_castle_excluded_when_attacked(v: BoardModel, m: Move)
    requires
        m.spec_is_castle(),
        ({
            let k = v.own_king() as int;
            let d: int = if m.spec_is_castle_kingside() {
                1
            } else {
                -1
            };
            attacked(v, k) || attacked(v, k + d) || attacked(v, k + 2 * d)
        }),
    ensures
        !spec_valid(v, m),
        !model_legal_moves(v).contains(m),
{
    if model_legal_moves(v).contains(m) {
        let j = choose|j: int|
            0 <= j < model_legal_moves(v).len() && model_legal_moves(v)[j] == m;
        model_moves(v).lemma_filter_pred(|mm: Move| spec_valid(v, mm), j);
    }
}

} // verus!
