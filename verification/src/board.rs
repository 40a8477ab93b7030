//! The board: a 64-square array with side to move, castling rights,
//! en-passant target, clocks and cached king locations, together with the
//! reversible `make_move` / `unmake_move` state machine.

use vstd::prelude::*;

verus! {

use crate::movegen::Move;
use crate::movegen::FLAG_NORMAL;
use crate::movegen::FLAG_CAPTURE;
use crate::movegen::FLAG_EP_CAPTURE;
use crate::movegen::FLAG_CASTLE_KING;
use crate::movegen::FLAG_CASTLE_QUEEN;

pub const WHITE_KINGSIDE_CASTLING_RIGHTS: u8 = 0b1000;

pub const WHITE_QUEENSIDE_CASTLING_RIGHTS: u8 = 0b0100;

pub const BLACK_KINGSIDE_CASTLING_RIGHTS: u8 = 0b0010;

pub const BLACK_QUEENSIDE_CASTLING_RIGHTS: u8 = 0b0001;

#[derive(Clone, Copy, PartialEq, Eq, Structural, Debug)]
pub enum Color {
    Black,
    White,
}

impl Color {
    /// The other color.
    pub open spec fn spec_opposite(self) -> Color {
        match self {
            Color::Black => Color::White,
            Color::White => Color::Black,
        }
    }

    #[verifier::when_used_as_spec(spec_opposite)]
    pub fn opposite(self) -> (c: Color)
        ensures
            c == self.spec_opposite(),
    {
        match self {
            Color::Black => Color::White,
            Color::White => Color::Black,
        }
    }

    pub fn to_string(self) -> (s: String)
        ensures
            self == Color::Black ==> s@ == "Black"@,
            self == Color::White ==> s@ == "White"@,
    {
        match self {
            Color::Black => "Black".to_owned(),
            Color::White => "White".to_owned(),
        }
    }
}

#[derive(Clone, Copy, PartialEq, Eq, Structural, Debug)]
pub enum Piece {
    Pawn(Color),
    Knight(Color),
    Bishop(Color),
    Rook(Color),
    Queen(Color),
    King(Color),
}

impl Piece {
    /// The color owning this piece.
    pub open spec fn spec_color(&self) -> Color {
        match self {
            Piece::Pawn(color) => *color,
            Piece::Knight(color) => *color,
            Piece::Bishop(color) => *color,
            Piece::Rook(color) => *color,
            Piece::Queen(color) => *color,
            Piece::King(color) => *color,
        }
    }

    #[verifier::when_used_as_spec(spec_color)]
    pub fn color(&self) -> (c: Color)
        ensures
            c == self.spec_color(),
    {
        match self {
            Piece::Pawn(color) => *color,
            Piece::Knight(color) => *color,
            Piece::Bishop(color) => *color,
            Piece::Rook(color) => *color,
            Piece::Queen(color) => *color,
            Piece::King(color) => *color,
        }
    }
}

/// The mathematical model of a position: every field of `Board` as a
/// specification-level value, with the squares as a sequence.
#[verifier::ext_equal]
pub ghost struct BoardModel {
    pub squares: Seq<Option<Piece>>,
    pub side_to_move: Color,
    pub castling_rights: u8,
    pub en_passant_square: Option<u8>,
    pub halfmove_clock: u32,
    pub fullmove_number: u32,
    pub white_king: u16,
    pub black_king: u16,
}

#[derive(Clone, Copy, Debug)]
pub struct Board {
    pub squares: [Option<Piece>; 64],
    pub side_to_move: Color,
    pub castling_rights: u8,
    pub en_passant_square: Option<u8>,
    pub halfmove_clock: u32,
    pub fullmove_number: u32,
    pub white_king: u16,
    pub black_king: u16,
}

impl View for Board {
    type V = BoardModel;

    open spec fn view(&self) -> BoardModel {
        BoardModel {
            squares: self.squares@,
            side_to_move: self.side_to_move,
            castling_rights: self.castling_rights,
            en_passant_square: self.en_passant_square,
            halfmove_clock: self.halfmove_clock,
            fullmove_number: self.fullmove_number,
            white_king: self.white_king,
            black_king: self.black_king,
        }
    }
}

/// Whether `rights` contains the castling right selected by `mask`.
pub open spec fn has_right(rights: u8, mask: u8) -> bool {
    rights & mask != 0
}

impl BoardModel {
    /// The square of the king of the side to move.
    pub open spec fn own_king(self) -> u16 {
        match self.side_to_move {
            Color::White => self.white_king,
            Color::Black => self.black_king,
        }
    }

    /// Well-formedness: 64 squares, a king of each color exactly at its
    /// cached square, an in-range en-passant target, and each castling
    /// right only while the king and the corresponding rook stand on
    /// their home squares.
    pub open spec fn wf(self) -> bool {
        &&& self.squares.len() == 64
        &&& self.white_king < 64
        &&& self.black_king < 64
        &&& self.squares[self.white_king as int] == Some(Piece::King(Color::White))
        &&& self.squares[self.black_king as int] == Some(Piece::King(Color::Black))
        &&& forall|i: int|
            0 <= i < 64 && self.squares[i] == Some(Piece::King(Color::White)) ==> i
                == self.white_king as int
        &&& forall|i: int|
            0 <= i < 64 && self.squares[i] == Some(Piece::King(Color::Black)) ==> i
                == self.black_king as int
        &&& (self.en_passant_square matches Some(e) ==> e < 64)
        &&& (has_right(self.castling_rights, WHITE_KINGSIDE_CASTLING_RIGHTS) ==> self.white_king
            == 4 && self.squares[7] == Some(Piece::Rook(Color::White)))
        &&& (has_right(self.castling_rights, WHITE_QUEENSIDE_CASTLING_RIGHTS) ==> self.white_king
            == 4 && self.squares[0] == Some(Piece::Rook(Color::White)))
        &&& (has_right(self.castling_rights, BLACK_KINGSIDE_CASTLING_RIGHTS) ==> self.black_king
            == 60 && self.squares[63] == Some(Piece::Rook(Color::Black)))
        &&& (has_right(self.castling_rights, BLACK_QUEENSIDE_CASTLING_RIGHTS) ==> self.black_king
            == 60 && self.squares[56] == Some(Piece::Rook(Color::Black)))
    }

    /// The en-passant target, if set, records a double pawn advance that
    /// the side `mover` may answer: the target square is empty and the
    /// advanced enemy pawn stands directly behind it.
    pub open spec fn ep_answerable_by(self, mover: Color) -> bool {
        self.en_passant_square matches Some(e) ==> {
            &&& self.squares[e as int] is None
            &&& (mover == Color::White ==> e / 8 == 5 && self.squares[e as int - 8] == Some(
                Piece::Pawn(Color::Black),
            ))
            &&& (mover == Color::Black ==> e / 8 == 2 && self.squares[e as int + 8] == Some(
                Piece::Pawn(Color::White),
            ))
        }
    }

    /// The square of the king of the side not to move.
    pub open spec fn enemy_king(self) -> u16 {
        match self.side_to_move {
            Color::White => self.black_king,
            Color::Black => self.white_king,
        }
    }

    /// Whether the side to move attacks the opposing king — a position
    /// that legal play never reaches, since the opponent's previous move
    /// may not leave their own king attacked.
    pub open spec fn exposed_king(self) -> bool {
        crate::movegen::attacked_by(self.squares, self.side_to_move, self.enemy_king() as int)
    }

    /// The same position with `c` to move.
    pub open spec fn with_side(self, c: Color) -> BoardModel {
        BoardModel { side_to_move: c, ..self }
    }

    /// A position on which the move generator may be run: well-formed,
    /// any en-passant target answerable by the side to move, and the
    /// opposing king not already attacked.
    pub open spec fn ready(self) -> bool {
        self.wf() && self.ep_answerable_by(self.side_to_move) && !self.exposed_king()
    }
}

/// The piece standing on square `i` in the standard starting position.
pub open spec fn start_piece(i: int) -> Option<Piece> {
    if i == 0 || i == 7 {
        Some(Piece::Rook(Color::White))
    } else if i == 1 || i == 6 {
        Some(Piece::Knight(Color::White))
    } else if i == 2 || i == 5 {
        Some(Piece::Bishop(Color::White))
    } else if i == 3 {
        Some(Piece::Queen(Color::White))
    } else if i == 4 {
        Some(Piece::King(Color::White))
    } else if 8 <= i && i < 16 {
        Some(Piece::Pawn(Color::White))
    } else if 48 <= i && i < 56 {
        Some(Piece::Pawn(Color::Black))
    } else if i == 56 || i == 63 {
        Some(Piece::Rook(Color::Black))
    } else if i == 57 || i == 62 {
        Some(Piece::Knight(Color::Black))
    } else if i == 58 || i == 61 {
        Some(Piece::Bishop(Color::Black))
    } else if i == 59 {
        Some(Piece::Queen(Color::Black))
    } else if i == 60 {
        Some(Piece::King(Color::Black))
    } else {
        None
    }
}

impl Board {
    /// An empty board: no pieces, White to move, all castling rights,
    /// clocks at zero, king caches at the standard starting squares.
    pub fn new() -> (b: Board)
        ensures
            b@.squares == Seq::new(64, |i: int| None::<Piece>),
            b@.side_to_move == Color::White,
            b@.castling_rights == 0b1111u8,
            b@.en_passant_square is None,
            b@.halfmove_clock == 0,
            b@.fullmove_number == 0,
            b@.white_king == 4,
            b@.black_king == 60,
    {
        let squares: [Option<Piece>; 64] = [None;64];
        let castling_rights = 0b1111u8;
        let en_passant_square = None;
        let halfmove_clock = 0u32;
        let fullmove_number = 0u32;
        let board = Board {
            squares,
            side_to_move: Color::White,
            castling_rights,
            en_passant_square,
            halfmove_clock,
            fullmove_number,
            black_king: 60,
            white_king: 4,
        };
        proof {
            assert(board@.squares =~= Seq::new(64, |i: int| None::<Piece>));
        }
        board
    }

    /// The standard starting position.
    pub fn default() -> (b: Board)
        ensures
            b@.squares == Seq::new(64, |i: int| start_piece(i)),
            b@.side_to_move == Color::White,
            b@.castling_rights == 0b1111u8,
            b@.en_passant_square is None,
            b@.halfmove_clock == 0,
            b@.fullmove_number == 0,
            b@.white_king == 4,
            b@.black_king == 60,
            b@.ready(),
    {
        let mut board = Self::new();
        board.setup_initial_position();
        proof {
            assert(board@.squares =~= Seq::new(64, |i: int| start_piece(i)));
            assert(board@.wf());
            assert(!board@.exposed_king()) by {
                lemma_start_position_quiet(board@);
            }
        }
        board
    }

    /// Places the canonical 32 pieces; squares outside the two armies'
    /// starting ranks and every other field are unchanged.
    pub fn setup_initial_position(&mut self)
        ensures
            final(self)@.squares == Seq::new(
                64,
                |i: int|
                    if start_piece(i) is Some {
                        start_piece(i)
                    } else {
                        old(self)@.squares[i]
                    },
            ),
            final(self)@.side_to_move == old(self)@.side_to_move,
            final(self)@.castling_rights == old(self)@.castling_rights,
            final(self)@.en_passant_square == old(self)@.en_passant_square,
            final(self)@.halfmove_clock == old(self)@.halfmove_clock,
            final(self)@.fullmove_number == old(self)@.fullmove_number,
            final(self)@.white_king == old(self)@.white_king,
            final(self)@.black_king == old(self)@.black_king,
    {
        let mut i: usize = 0;
        while i < 8
            invariant
                i <= 8,
                self.squares@.len() == 64,
                forall|j: int|
                    8 <= j < 8 + i ==> #[trigger] self.squares@[j] == Some(
                        Piece::Pawn(Color::White),
                    ),
                forall|j: int|
                    48 <= j < 48 + i ==> #[trigger] self.squares@[j] == Some(
                        Piece::Pawn(Color::Black),
                    ),
                forall|j: int|
                    0 <= j < 64 && !(8 <= j < 8 + i) && !(48 <= j < 48 + i)
                        ==> #[trigger] self.squares@[j] == old(self).squares@[j],
                self.side_to_move == old(self).side_to_move,
                self.castling_rights == old(self).castling_rights,
                self.en_passant_square == old(self).en_passant_square,
                self.halfmove_clock == old(self).halfmove_clock,
                self.fullmove_number == old(self).fullmove_number,
                self.white_king == old(self).white_king,
                self.black_king == old(self).black_king,
            decreases 8 - i,
        {
            self.squares[8 + i] = Some(Piece::Pawn(Color::White));
            self.squares[48 + i] = Some(Piece::Pawn(Color::Black));
            i += 1;
        }

        self.squares[0] = Some(Piece::Rook(Color::White));
        self.squares[7] = Some(Piece::Rook(Color::White));
        self.squares[56] = Some(Piece::Rook(Color::Black));
        self.squares[63] = Some(Piece::Rook(Color::Black));

        self.squares[1] = Some(Piece::Knight(Color::White));
        self.squares[6] = Some(Piece::Knight(Color::White));
        self.squares[57] = Some(Piece::Knight(Color::Black));
        self.squares[62] = Some(Piece::Knight(Color::Black));

        self.squares[2] = Some(Piece::Bishop(Color::White));
        self.squares[5] = Some(Piece::Bishop(Color::White));
        self.squares[58] = Some(Piece::Bishop(Color::Black));
        self.squares[61] = Some(Piece::Bishop(Color::Black));

        self.squares[3] = Some(Piece::Queen(Color::White));
        self.squares[59] = Some(Piece::Queen(Color::Black));

        self.squares[4] = Some(Piece::King(Color::White));
        self.squares[60] = Some(Piece::King(Color::Black));

        proof {
            assert(self@.squares =~= Seq::new(
                64,
                |i: int|
                    if start_piece(i) is Some {
                        start_piece(i)
                    } else {
                        old(self)@.squares[i]
                    },
            ));
        }
    }

    /// The letter conventionally printed for a piece: upper case for
    /// White, lower case for Black.
    pub open spec fn spec_piece_char(piece: Piece) -> char {
        match piece {
            Piece::Pawn(Color::White) => 'P',
            Piece::Knight(Color::White) => 'N',
            Piece::Bishop(Color::White) => 'B',
            Piece::Rook(Color::White) => 'R',
            Piece::Queen(Color::White) => 'Q',
            Piece::King(Color::White) => 'K',
            Piece::Pawn(Color::Black) => 'p',
            Piece::Knight(Color::Black) => 'n',
            Piece::Bishop(Color::Black) => 'b',
            Piece::Rook(Color::Black) => 'r',
            Piece::Queen(Color::Black) => 'q',
            Piece::King(Color::Black) => 'k',
        }
    }

    pub fn piece_to_char(piece: &Piece) -> (c: char)
        ensures
            c == Self::spec_piece_char(*piece),
    {
        match piece {
            Piece::Pawn(Color::White) => 'P',
            Piece::Knight(Color::White) => 'N',
            Piece::Bishop(Color::White) => 'B',
            Piece::Rook(Color::White) => 'R',
            Piece::Queen(Color::White) => 'Q',
            Piece::King(Color::White) => 'K',
            Piece::Pawn(Color::Black) => 'p',
            Piece::Knight(Color::Black) => 'n',
            Piece::Bishop(Color::Black) => 'b',
            Piece::Rook(Color::Black) => 'r',
            Piece::Queen(Color::Black) => 'q',
            Piece::King(Color::Black) => 'k',
        }
    }

    /// The piece denoted by a letter, or `None` for any other character.
    pub open spec fn spec_char_piece(ch: char) -> Option<Piece> {
        match ch {
            'P' => Some(Piece::Pawn(Color::White)),
            'N' => Some(Piece::Knight(Color::White)),
            'B' => Some(Piece::Bishop(Color::White)),
            'R' => Some(Piece::Rook(Color::White)),
            'Q' => Some(Piece::Queen(Color::White)),
            'K' => Some(Piece::King(Color::White)),
            'p' => Some(Piece::Pawn(Color::Black)),
            'n' => Some(Piece::Knight(Color::Black)),
            'b' => Some(Piece::Bishop(Color::Black)),
            'r' => Some(Piece::Rook(Color::Black)),
            'q' => Some(Piece::Queen(Color::Black)),
            'k' => Some(Piece::King(Color::Black)),
            _ => None,
        }
    }

    pub fn char_to_piece(ch: char) -> (r: Result<Piece, String>)
        ensures
            Self::spec_char_piece(ch) matches Some(p) ==> r == Ok::<Piece, String>(p),
            Self::spec_char_piece(ch) is None ==> r is Err,
    {
        match ch {
            'P' => Ok(Piece::Pawn(Color::White)),
            'N' => Ok(Piece::Knight(Color::White)),
            'B' => Ok(Piece::Bishop(Color::White)),
            'R' => Ok(Piece::Rook(Color::White)),
            'Q' => Ok(Piece::Queen(Color::White)),
            'K' => Ok(Piece::King(Color::White)),
            'p' => Ok(Piece::Pawn(Color::Black)),
            'n' => Ok(Piece::Knight(Color::Black)),
            'b' => Ok(Piece::Bishop(Color::Black)),
            'r' => Ok(Piece::Rook(Color::Black)),
            'q' => Ok(Piece::Queen(Color::Black)),
            'k' => Ok(Piece::King(Color::Black)),
            _ => Err("invalid piece character".to_owned()),
        }
    }

    /// Whether the king of the side to move is attacked.
    pub fn is_check(&self) -> (r: bool)
        requires
            self@.own_king() < 64,
        ensures
            r == crate::movegen::attacked(self@, self@.own_king() as int),
    {
        let king_pos = match self.side_to_move {
            Color::White => self.white_king,
            Color::Black => self.black_king,
        };
        crate::movegen::is_square_attacked(&self, king_pos)
    }

    /// Reads a coordinate such as `e4` from the first two characters:
    /// file letter `a` to `h`, then rank digit `1` to `8`.
    pub fn str_to_square(coords: &str) -> (r: Result<usize, String>)
        requires
            coords@.len() >= 2,
        ensures
            ({
                let file = coords@[0];
                let rank = coords@[1];
                if 'a' <= file && file <= 'h' && '1' <= rank && rank <= '8' {
                    r == Ok::<usize, String>(
                        ((rank as int - '1' as int) * 8 + (file as int - 'a' as int)) as usize,
                    )
                } else {
                    r is Err
                }
            }),
    {
        let file_char = coords.get_char(0);
        let rank_char = coords.get_char(1);
        let f = file_char as u32;
        let k = rank_char as u32;
        if !(97 <= f && f <= 104) || !(49 <= k && k <= 56) {
            return Err("invalid square".to_owned());
        }

        let file_from = (f - 97) as usize;
        let rank_from = (k - 49) as usize;

        let square = rank_from * 8 + file_from;
        Ok(square)
    }
}

/// Everything `unmake_move` needs to invert exactly one `make_move`.
#[derive(Clone, Copy, PartialEq, Eq, Structural, Debug)]
pub struct UndoInfo {
    pub captured_piece: Option<Piece>,
    pub en_passant_square: Option<u8>,
    pub castling_rights: u8,
    pub halfmove_clock: u32,
    pub special_info: SpecialInfo,
    pub white_king: u16,
    pub black_king: u16,
}

/// Which special-case inversion `unmake_move` must run.
#[derive(Clone, Copy, PartialEq, Eq, Structural, Debug)]
pub enum SpecialInfo {
    Plain,
    Castle { rook_from: u16, rook_to: u16 },
    EnPassant { en_passant_square: u16 },
    Promotion,
}

/// The home square of the rook taking part in a castle.
pub open spec fn castle_rook_from(side: Color, kingside: bool) -> u16 {
    match side {
        Color::White => if kingside { 7 } else { 0 },
        Color::Black => if kingside { 63 } else { 56 },
    }
}

/// The square the castling rook lands on.
pub open spec fn castle_rook_to(side: Color, kingside: bool) -> u16 {
    match side {
        Color::White => if kingside { 5 } else { 3 },
        Color::Black => if kingside { 61 } else { 59 },
    }
}

/// The castling rights remaining after a piece leaves square `from` and a
/// rook leaves (or is captured on) square `rook_from`, exactly as
/// `update_castling_rights` computes them: a king forfeits both of its
/// side's rights and nobody else's, a rook leaving a home corner forfeits
/// that corner's right.  A value of 64 or more stands for no square, so
/// that square a1 (index 0) is never mistaken for "no rook moved".
pub open spec fn rights_update(
    squares: Seq<Option<Piece>>,
    rights: u8,
    from: int,
    rook_from: int,
) -> u8 {
    if rights == 0 {
        rights
    } else {
        let r1 = if 0 <= from < 64 {
            match squares[from] {
                Some(Piece::King(Color::Black)) => rights & !BLACK_QUEENSIDE_CASTLING_RIGHTS
                    & !BLACK_KINGSIDE_CASTLING_RIGHTS,
                Some(Piece::King(Color::White)) => rights & !WHITE_QUEENSIDE_CASTLING_RIGHTS
                    & !WHITE_KINGSIDE_CASTLING_RIGHTS,
                _ => rights,
            }
        } else {
            rights
        };
        if rook_from == 0 {
            r1 & !WHITE_QUEENSIDE_CASTLING_RIGHTS
        } else if rook_from == 7 {
            r1 & !WHITE_KINGSIDE_CASTLING_RIGHTS
        } else if rook_from == 56 {
            r1 & !BLACK_QUEENSIDE_CASTLING_RIGHTS
        } else if rook_from == 63 {
            r1 & !BLACK_KINGSIDE_CASTLING_RIGHTS
        } else {
            r1
        }
    }
}

impl BoardModel {
    /// The square of the pawn removed by an en-passant capture landing
    /// on `to`: directly behind the target square from the mover's side.
    pub open spec fn ep_victim(self, m: Move) -> int {
        if self.side_to_move == Color::White {
            m.spec_to() as int - 8
        } else {
            m.spec_to() as int + 8
        }
    }

    /// Whether `m` moves a pawn of the side to move two squares from its
    /// starting rank (the only move that sets an en-passant target).
    pub open spec fn is_double_push(self, m: Move) -> bool {
        let from = m.spec_from() as int;
        let to = m.spec_to() as int;
        &&& self.squares[from] == Some(Piece::Pawn(self.side_to_move))
        &&& !m.spec_is_promotion()
        &&& (from - to == 16 || to - from == 16)
    }

    /// What `make_move` demands of a move: the conditions a pseudo-legal
    /// move established by the generator (for castles, additionally the
    /// emptiness checks of the legality filter) — enough for the move to
    /// be applied and inverted exactly, and for well-formedness to be
    /// preserved.
    #[verifier::opaque]
    pub open spec fn applicable(self, m: Move) -> bool {
        let from = m.spec_from() as int;
        let to = m.spec_to() as int;
        let side = self.side_to_move;
        &&& self.wf()
        &&& from != to
        &&& (self.squares[from] matches Some(p) && p.spec_color() == side)
        &&& m.spec_flag() <= 12
        &&& (m.spec_flag() == FLAG_NORMAL ==> self.squares[to] is None)
        &&& (self.is_double_push(m) ==> {
            &&& (side == Color::White ==> to == from + 16 && from / 8 == 1 && self.squares[from
                + 8] is None)
            &&& (side == Color::Black ==> to == from - 16 && from / 8 == 6 && self.squares[from
                - 8] is None)
        })
        &&& (m.spec_flag() == FLAG_CAPTURE ==> (self.squares[to] matches Some(q)
            && q.spec_color() == side.spec_opposite() && !(q matches Piece::King(_))))
        &&& (m.spec_flag() == FLAG_EP_CAPTURE ==> {
            let victim = self.ep_victim(m);
            &&& self.squares[from] == Some(Piece::Pawn(side))
            &&& self.en_passant_square == Some(m.spec_to() as u8)
            &&& self.squares[to] is None
            &&& 0 <= victim < 64
            &&& self.squares[victim] == Some(Piece::Pawn(side.spec_opposite()))
            &&& victim != from
        })
        &&& (m.spec_flag() == FLAG_CASTLE_KING ==> {
            &&& has_right(
                self.castling_rights,
                if side == Color::White {
                    WHITE_KINGSIDE_CASTLING_RIGHTS
                } else {
                    BLACK_KINGSIDE_CASTLING_RIGHTS
                },
            )
            &&& from == (if side == Color::White { 4int } else { 60 })
            &&& to == from + 2
            &&& self.squares[from + 1] is None
            &&& self.squares[from + 2] is None
        })
        &&& (m.spec_flag() == FLAG_CASTLE_QUEEN ==> {
            &&& has_right(
                self.castling_rights,
                if side == Color::White {
                    WHITE_QUEENSIDE_CASTLING_RIGHTS
                } else {
                    BLACK_QUEENSIDE_CASTLING_RIGHTS
                },
            )
            &&& from == (if side == Color::White { 4int } else { 60 })
            &&& to == from - 2
            &&& self.squares[from - 1] is None
            &&& self.squares[from - 2] is None
            &&& self.squares[from - 3] is None
        })
        &&& (m.spec_is_promotion() ==> {
            &&& self.squares[from] == Some(Piece::Pawn(side))
            &&& (m.spec_flag() <= 8 ==> self.squares[to] is None)
            &&& (m.spec_flag() >= 9 ==> (self.squares[to] matches Some(q) && q.spec_color()
                == side.spec_opposite() && !(q matches Piece::King(_))))
        })
    }

    /// The piece a promotion move places on the board.
    pub open spec fn promoted_piece(self, m: Move) -> Piece {
        let side = self.side_to_move;
        match m.spec_promotion_piece() {
            Some(1u16) => Piece::Rook(side),
            Some(2u16) => Piece::Bishop(side),
            Some(3u16) => Piece::Knight(side),
            _ => Piece::Queen(side),
        }
    }

    /// The squares after `m` is applied, before any promotion overlay.
    pub open spec fn moved_squares(self, m: Move) -> Seq<Option<Piece>> {
        let s = self.squares;
        let from = m.spec_from() as int;
        let to = m.spec_to() as int;
        let side = self.side_to_move;
        if m.spec_is_capture() {
            if m.spec_is_en_passant() {
                s.update(self.ep_victim(m), None).update(to, s[from]).update(from, None)
            } else {
                s.update(to, s[from]).update(from, None)
            }
        } else if m.spec_is_castle() {
            let rf = castle_rook_from(side, m.spec_is_castle_kingside()) as int;
            let rt = castle_rook_to(side, m.spec_is_castle_kingside()) as int;
            s.update(from, None).update(to, Some(Piece::King(side))).update(rf, None).update(
                rt,
                Some(Piece::Rook(side)),
            )
        } else {
            s.update(to, s[from]).update(from, None)
        }
    }

    /// The squares after `m` is applied.
    pub open spec fn squares_after(self, m: Move) -> Seq<Option<Piece>> {
        let from = m.spec_from() as int;
        let to = m.spec_to() as int;
        let s1 = self.moved_squares(m);
        if m.spec_is_promotion() {
            s1.update(from, None).update(to, Some(self.promoted_piece(m)))
        } else {
            s1
        }
    }

    /// The castling rights after `m` is applied.
    pub open spec fn rights_after(self, m: Move) -> u8 {
        let s = self.squares;
        let from = m.spec_from() as int;
        let to = m.spec_to() as int;
        let r1 = match s[from] {
            Some(Piece::King(_)) => rights_update(s, self.castling_rights, from, 64),
            Some(Piece::Rook(_)) => rights_update(s, self.castling_rights, 64, from),
            _ => self.castling_rights,
        };
        let r2 = if m.spec_is_capture() && (s[to] matches Some(Piece::Rook(_))) {
            rights_update(s, r1, 64, to)
        } else {
            r1
        };
        if m.spec_is_castle() {
            rights_update(
                s,
                r2,
                from,
                castle_rook_from(self.side_to_move, m.spec_is_castle_kingside()) as int,
            )
        } else {
            r2
        }
    }

    /// The en-passant target after `m` is applied: the square passed over
    /// by a double pawn advance, and nothing otherwise.
    pub open spec fn ep_after(self, m: Move) -> Option<u8> {
        let from = m.spec_from() as int;
        if self.is_double_push(m) {
            if self.side_to_move == Color::White {
                Some((from + 8) as u8)
            } else {
                Some((from - 8) as u8)
            }
        } else {
            None
        }
    }

    /// The half-move clock after `m`: reset by any capture, pawn move or
    /// promotion, incremented by everything else.
    pub open spec fn clock_after(self, m: Move) -> u32 {
        let from = m.spec_from() as int;
        if m.spec_is_capture() || m.spec_is_promotion() || self.squares[from] == Some(
            Piece::Pawn(self.side_to_move),
        ) {
            0u32
        } else {
            (self.halfmove_clock + 1) as u32
        }
    }

    /// The full position after `m` is applied.  Side to move and the
    /// full-move number are left for the driver, as `make_move` does.
    pub open spec fn apply_move(self, m: Move) -> BoardModel {
        let from = m.spec_from() as int;
        let to = m.spec_to();
        BoardModel {
            squares: self.squares_after(m),
            side_to_move: self.side_to_move,
            castling_rights: self.rights_after(m),
            en_passant_square: self.ep_after(m),
            halfmove_clock: self.clock_after(m),
            fullmove_number: self.fullmove_number,
            white_king: if self.squares[from] == Some(Piece::King(Color::White)) {
                to
            } else {
                self.white_king
            },
            black_king: if self.squares[from] == Some(Piece::King(Color::Black)) {
                to
            } else {
                self.black_king
            },
        }
    }

    /// The undo record `make_move` returns for `m`.
    pub open spec fn undo_for(self, m: Move) -> UndoInfo {
        let from = m.spec_from() as int;
        let to = m.spec_to() as int;
        UndoInfo {
            captured_piece: if m.spec_is_en_passant() {
                self.squares[self.ep_victim(m)]
            } else if m.spec_is_capture() {
                self.squares[to]
            } else {
                None
            },
            en_passant_square: self.en_passant_square,
            castling_rights: self.castling_rights,
            halfmove_clock: self.halfmove_clock,
            special_info: if m.spec_is_en_passant() {
                SpecialInfo::EnPassant { en_passant_square: self.ep_victim(m) as u16 }
            } else if m.spec_is_castle() {
                SpecialInfo::Castle {
                    rook_from: castle_rook_from(self.side_to_move, m.spec_is_castle_kingside()),
                    rook_to: castle_rook_to(self.side_to_move, m.spec_is_castle_kingside()),
                }
            } else if m.spec_is_promotion() {
                SpecialInfo::Promotion
            } else {
                SpecialInfo::Plain
            },
            white_king: self.white_king,
            black_king: self.black_king,
        }
    }

    /// The position `unmake_move` restores from `m` and `undo`, exactly
    /// as the executable code computes it, square update by square
    /// update.
    pub open spec fn unapply_move(self, m: Move, undo: UndoInfo) -> BoardModel {
        let s = self.squares;
        let from = m.spec_from() as int;
        let to = m.spec_to() as int;
        let squares = match undo.special_info {
            SpecialInfo::EnPassant { en_passant_square } => {
                let s1 = s.update(from, s[to]);
                let s2 = s1.update(to, None);
                s2.update(en_passant_square as int, undo.captured_piece)
            },
            SpecialInfo::Castle { rook_from, rook_to } => {
                let s1 = s.update(from, s[to]);
                let s2 = s1.update(to, None);
                let s3 = s2.update(rook_from as int, s2[rook_to as int]);
                s3.update(rook_to as int, None)
            },
            SpecialInfo::Promotion => {
                let s1 = s.update(from, Some(Piece::Pawn(self.side_to_move)));
                s1.update(to, undo.captured_piece)
            },
            SpecialInfo::Plain => {
                let s1 = s.update(from, s[to]);
                s1.update(to, undo.captured_piece)
            },
        };
        BoardModel {
            squares,
            side_to_move: self.side_to_move,
            castling_rights: undo.castling_rights,
            en_passant_square: undo.en_passant_square,
            halfmove_clock: undo.halfmove_clock,
            fullmove_number: self.fullmove_number,
            white_king: undo.white_king,
            black_king: undo.black_king,
        }
    }
}

/// A bit cleared in `r` stays cleared after masking, and a bit set in
/// `r & x` was set in `r`.
proof fn lemma_and_mono(r: u8, x: u8, mask: u8)
    ensures
        (r & x) & mask != 0 ==> r & mask != 0,
        r & mask == 0 ==> (r & x) & mask == 0,
{
    assert(((r & x) & mask != 0 ==> r & mask != 0) && (r & mask == 0 ==> (r & x) & mask == 0))
        by (bit_vector);
}

/// Masking with the complement of `m1` clears exactly the bits of `m1`.
proof fn lemma_clear_mask(r: u8, m1: u8)
    ensures
        (r & !m1) & m1 == 0,
{
    assert((r & !m1) & m1 == 0) by (bit_vector);
}

/// `rights_update` only ever forfeits rights, never grants one.
proof fn lemma_rights_update_mono(s: Seq<Option<Piece>>, r: u8, from: int, rf: int, mask: u8)
    ensures
        has_right(rights_update(s, r, from, rf), mask) ==> has_right(r, mask),
{
    if r != 0 {
        let r1 = if 0 <= from < 64 {
            match s[from] {
                Some(Piece::King(Color::Black)) => r & !BLACK_QUEENSIDE_CASTLING_RIGHTS
                    & !BLACK_KINGSIDE_CASTLING_RIGHTS,
                Some(Piece::King(Color::White)) => r & !WHITE_QUEENSIDE_CASTLING_RIGHTS
                    & !WHITE_KINGSIDE_CASTLING_RIGHTS,
                _ => r,
            }
        } else {
            r
        };
        lemma_and_mono(r, !BLACK_QUEENSIDE_CASTLING_RIGHTS, mask);
        lemma_and_mono(r & !BLACK_QUEENSIDE_CASTLING_RIGHTS, !BLACK_KINGSIDE_CASTLING_RIGHTS, mask);
        lemma_and_mono(r, !WHITE_QUEENSIDE_CASTLING_RIGHTS, mask);
        lemma_and_mono(r & !WHITE_QUEENSIDE_CASTLING_RIGHTS, !WHITE_KINGSIDE_CASTLING_RIGHTS, mask);
        lemma_and_mono(r1, !WHITE_QUEENSIDE_CASTLING_RIGHTS, mask);
        lemma_and_mono(r1, !WHITE_KINGSIDE_CASTLING_RIGHTS, mask);
        lemma_and_mono(r1, !BLACK_QUEENSIDE_CASTLING_RIGHTS, mask);
        lemma_and_mono(r1, !BLACK_KINGSIDE_CASTLING_RIGHTS, mask);
    }
}

/// After `rights_update`, a king seen leaving `from` has cost its side
/// both rights, and a rook square among the four corners has cost that
/// corner's right.
proof fn lemma_rights_update_kills(s: Seq<Option<Piece>>, r: u8, from: int, rf: int)
    ensures
        0 <= from < 64 && s[from] == Some(Piece::King(Color::White)) ==> !has_right(
            rights_update(s, r, from, rf),
            WHITE_KINGSIDE_CASTLING_RIGHTS,
        ) && !has_right(rights_update(s, r, from, rf), WHITE_QUEENSIDE_CASTLING_RIGHTS),
        0 <= from < 64 && s[from] == Some(Piece::King(Color::Black)) ==> !has_right(
            rights_update(s, r, from, rf),
            BLACK_KINGSIDE_CASTLING_RIGHTS,
        ) && !has_right(rights_update(s, r, from, rf), BLACK_QUEENSIDE_CASTLING_RIGHTS),
        rf == 0 ==> !has_right(rights_update(s, r, from, rf), WHITE_QUEENSIDE_CASTLING_RIGHTS),
        rf == 7 ==> !has_right(rights_update(s, r, from, rf), WHITE_KINGSIDE_CASTLING_RIGHTS),
        rf == 56 ==> !has_right(rights_update(s, r, from, rf), BLACK_QUEENSIDE_CASTLING_RIGHTS),
        rf == 63 ==> !has_right(rights_update(s, r, from, rf), BLACK_KINGSIDE_CASTLING_RIGHTS),
{
    assert(0u8 & 0x08u8 == 0 && 0u8 & 0x04u8 == 0 && 0u8 & 0x02u8 == 0 && 0u8 & 0x01u8 == 0)
        by (bit_vector);
    if r != 0 {
        let r1 = if 0 <= from < 64 {
            match s[from] {
                Some(Piece::King(Color::Black)) => r & !BLACK_QUEENSIDE_CASTLING_RIGHTS
                    & !BLACK_KINGSIDE_CASTLING_RIGHTS,
                Some(Piece::King(Color::White)) => r & !WHITE_QUEENSIDE_CASTLING_RIGHTS
                    & !WHITE_KINGSIDE_CASTLING_RIGHTS,
                _ => r,
            }
        } else {
            r
        };
        assert((r & !0x04u8 & !0x08u8) & 0x08u8 == 0 && (r & !0x04u8 & !0x08u8) & 0x04u8 == 0)
            by (bit_vector);
        assert((r & !0x01u8 & !0x02u8) & 0x02u8 == 0 && (r & !0x01u8 & !0x02u8) & 0x01u8 == 0)
            by (bit_vector);
        lemma_clear_mask(r1, WHITE_QUEENSIDE_CASTLING_RIGHTS);
        lemma_clear_mask(r1, WHITE_KINGSIDE_CASTLING_RIGHTS);
        lemma_clear_mask(r1, BLACK_QUEENSIDE_CASTLING_RIGHTS);
        lemma_clear_mask(r1, BLACK_KINGSIDE_CASTLING_RIGHTS);
        lemma_and_mono(r1, !WHITE_QUEENSIDE_CASTLING_RIGHTS, WHITE_KINGSIDE_CASTLING_RIGHTS);
        lemma_and_mono(r1, !WHITE_QUEENSIDE_CASTLING_RIGHTS, WHITE_QUEENSIDE_CASTLING_RIGHTS);
        lemma_and_mono(r1, !WHITE_KINGSIDE_CASTLING_RIGHTS, WHITE_KINGSIDE_CASTLING_RIGHTS);
        lemma_and_mono(r1, !WHITE_KINGSIDE_CASTLING_RIGHTS, WHITE_QUEENSIDE_CASTLING_RIGHTS);
        lemma_and_mono(r1, !BLACK_QUEENSIDE_CASTLING_RIGHTS, BLACK_KINGSIDE_CASTLING_RIGHTS);
        lemma_and_mono(r1, !BLACK_QUEENSIDE_CASTLING_RIGHTS, BLACK_QUEENSIDE_CASTLING_RIGHTS);
        lemma_and_mono(r1, !BLACK_KINGSIDE_CASTLING_RIGHTS, BLACK_KINGSIDE_CASTLING_RIGHTS);
        lemma_and_mono(r1, !BLACK_KINGSIDE_CASTLING_RIGHTS, BLACK_QUEENSIDE_CASTLING_RIGHTS);
        lemma_and_mono(r1, !WHITE_QUEENSIDE_CASTLING_RIGHTS, BLACK_KINGSIDE_CASTLING_RIGHTS);
        lemma_and_mono(r1, !WHITE_QUEENSIDE_CASTLING_RIGHTS, BLACK_QUEENSIDE_CASTLING_RIGHTS);
        lemma_and_mono(r1, !WHITE_KINGSIDE_CASTLING_RIGHTS, BLACK_KINGSIDE_CASTLING_RIGHTS);
        lemma_and_mono(r1, !WHITE_KINGSIDE_CASTLING_RIGHTS, BLACK_QUEENSIDE_CASTLING_RIGHTS);
        lemma_and_mono(r1, !BLACK_QUEENSIDE_CASTLING_RIGHTS, WHITE_KINGSIDE_CASTLING_RIGHTS);
        lemma_and_mono(r1, !BLACK_QUEENSIDE_CASTLING_RIGHTS, WHITE_QUEENSIDE_CASTLING_RIGHTS);
        lemma_and_mono(r1, !BLACK_KINGSIDE_CASTLING_RIGHTS, WHITE_KINGSIDE_CASTLING_RIGHTS);
        lemma_and_mono(r1, !BLACK_KINGSIDE_CASTLING_RIGHTS, WHITE_QUEENSIDE_CASTLING_RIGHTS);
    }
}

/// Applying a move the board admits keeps the position well-formed, and
/// leaves any new en-passant target answerable by the opponent of the
/// side that just moved.
pub proof fn lemma_apply_wf(v: BoardModel, m: Move)
    requires
        v.applicable(m),
    ensures
        v.apply_move(m).wf(),
        v.apply_move(m).ep_answerable_by(v.side_to_move.spec_opposite()),
{
    reveal(BoardModel::applicable);
    let w = v.apply_move(m);
    let s = v.squares;
    let sq = w.squares;
    let from = m.spec_from() as int;
    let to = m.spec_to() as int;
    let side = v.side_to_move;
    let r = v.castling_rights;

    let r1 = match s[from] {
        Some(Piece::King(_)) => rights_update(s, r, from, 64),
        Some(Piece::Rook(_)) => rights_update(s, r, 64, from),
        _ => r,
    };
    let r2 = if m.spec_is_capture() && (s[to] matches Some(Piece::Rook(_))) {
        rights_update(s, r1, 64, to)
    } else {
        r1
    };
    let crf = castle_rook_from(side, m.spec_is_castle_kingside()) as int;
    let crt = castle_rook_to(side, m.spec_is_castle_kingside()) as int;

    lemma_rights_update_mono(s, r, from, 64, WHITE_KINGSIDE_CASTLING_RIGHTS);
    lemma_rights_update_mono(s, r, 64, from, WHITE_KINGSIDE_CASTLING_RIGHTS);
    lemma_rights_update_mono(s, r1, 64, to, WHITE_KINGSIDE_CASTLING_RIGHTS);
    lemma_rights_update_mono(s, r2, from, crf, WHITE_KINGSIDE_CASTLING_RIGHTS);
    lemma_rights_update_mono(s, r, from, 64, WHITE_QUEENSIDE_CASTLING_RIGHTS);
    lemma_rights_update_mono(s, r, 64, from, WHITE_QUEENSIDE_CASTLING_RIGHTS);
    lemma_rights_update_mono(s, r1, 64, to, WHITE_QUEENSIDE_CASTLING_RIGHTS);
    lemma_rights_update_mono(s, r2, from, crf, WHITE_QUEENSIDE_CASTLING_RIGHTS);
    lemma_rights_update_mono(s, r, from, 64, BLACK_KINGSIDE_CASTLING_RIGHTS);
    lemma_rights_update_mono(s, r, 64, from, BLACK_KINGSIDE_CASTLING_RIGHTS);
    lemma_rights_update_mono(s, r1, 64, to, BLACK_KINGSIDE_CASTLING_RIGHTS);
    lemma_rights_update_mono(s, r2, from, crf, BLACK_KINGSIDE_CASTLING_RIGHTS);
    lemma_rights_update_mono(s, r, from, 64, BLACK_QUEENSIDE_CASTLING_RIGHTS);
    lemma_rights_update_mono(s, r, 64, from, BLACK_QUEENSIDE_CASTLING_RIGHTS);
    lemma_rights_update_mono(s, r1, 64, to, BLACK_QUEENSIDE_CASTLING_RIGHTS);
    lemma_rights_update_mono(s, r2, from, crf, BLACK_QUEENSIDE_CASTLING_RIGHTS);

    lemma_rights_update_kills(s, r, from, 64);
    lemma_rights_update_kills(s, r, 64, from);
    lemma_rights_update_kills(s, r1, 64, to);
    lemma_rights_update_kills(s, r2, from, crf);

    // The mover's piece stands on `from`, so `from` is not the other
    // color's king square; targets of captures are never kings, and all
    // other written squares start empty or hold the castling rook.
    assert(forall|i: int|
        0 <= i < 64 && sq[i] == Some(Piece::King(Color::White)) ==> i == w.white_king as int);
    assert(forall|i: int|
        0 <= i < 64 && sq[i] == Some(Piece::King(Color::Black)) ==> i == w.black_king as int);
    assert(sq[w.white_king as int] == Some(Piece::King(Color::White)));
    assert(sq[w.black_king as int] == Some(Piece::King(Color::Black)));
    assert(w.wf());
    assert(w.ep_answerable_by(side.spec_opposite()));
}

/// In the standard starting position White does not attack the square of
/// the black king.
proof fn lemma_start_position_quiet(v: BoardModel)
    requires
        v.squares == Seq::new(64, |i: int| start_piece(i)),
        v.side_to_move == Color::White,
        v.black_king == 60,
    ensures
        !crate::movegen::attacked_by(v.squares, Color::White, 60int),
{
    reveal(crate::movegen::attacked_by);
    assert forall|f: int, r: int|
        crate::movegen::on_board(f, r) implies !(#[trigger] v.squares[crate::movegen::sq_at(f, r)]
        matches Some(p) && p.spec_color() == Color::White && crate::movegen::piece_attacks(
        v.squares,
        p,
        f,
        r,
        60int % 8,
        60int / 8,
    )) by {
        let i = crate::movegen::sq_at(f, r);
        if v.squares[i] matches Some(p) && p.spec_color() == Color::White {
            assert(i < 16);
            assert(r <= 1);
            crate::movegen::lemma_slider_geometry(v.squares, f, r, 4, 7);
        }
    }
}

/// Clearing one or two of the four castling-right bits leaves every
/// other right bit exactly as it was.
proof fn lemma_clear_keeps_disjoint(r: u8)
    ensures
        (r & !0x04u8 & !0x08u8) & 0x02u8 == r & 0x02u8,
        (r & !0x04u8 & !0x08u8) & 0x01u8 == r & 0x01u8,
        (r & !0x01u8 & !0x02u8) & 0x08u8 == r & 0x08u8,
        (r & !0x01u8 & !0x02u8) & 0x04u8 == r & 0x04u8,
        (r & !0x08u8) & 0x02u8 == r & 0x02u8,
        (r & !0x08u8) & 0x01u8 == r & 0x01u8,
        (r & !0x04u8) & 0x02u8 == r & 0x02u8,
        (r & !0x04u8) & 0x01u8 == r & 0x01u8,
        (r & !0x02u8) & 0x08u8 == r & 0x08u8,
        (r & !0x02u8) & 0x04u8 == r & 0x04u8,
        (r & !0x01u8) & 0x08u8 == r & 0x08u8,
        (r & !0x01u8) & 0x04u8 == r & 0x04u8,
        (r & !0x01u8) & 0x02u8 == r & 0x02u8,
        (r & !0x02u8) & 0x01u8 == r & 0x01u8,
        (r & !0x08u8) & 0x04u8 == r & 0x04u8,
        (r & !0x04u8) & 0x08u8 == r & 0x08u8,
{
    assert((r & !0x04u8 & !0x08u8) & 0x02u8 == r & 0x02u8 && (r & !0x04u8 & !0x08u8) & 0x01u8 == r
        & 0x01u8 && (r & !0x01u8 & !0x02u8) & 0x08u8 == r & 0x08u8 && (r & !0x01u8 & !0x02u8)
        & 0x04u8 == r & 0x04u8 && (r & !0x08u8) & 0x02u8 == r & 0x02u8 && (r & !0x08u8) & 0x01u8
        == r & 0x01u8 && (r & !0x04u8) & 0x02u8 == r & 0x02u8 && (r & !0x04u8) & 0x01u8 == r
        & 0x01u8 && (r & !0x02u8) & 0x08u8 == r & 0x08u8 && (r & !0x02u8) & 0x04u8 == r & 0x04u8
        && (r & !0x01u8) & 0x08u8 == r & 0x08u8 && (r & !0x01u8) & 0x04u8 == r & 0x04u8 && (r
        & !0x01u8) & 0x02u8 == r & 0x02u8 && (r & !0x02u8) & 0x01u8 == r & 0x01u8 && (r & !0x08u8)
        & 0x04u8 == r & 0x04u8 && (r & !0x04u8) & 0x08u8 == r & 0x08u8) by (bit_vector);
}

/// Castling-rights law: a king move forfeits exactly the mover's two
/// rights — never the opponent's — and a move that captures nothing
/// leaves the opponent's rights untouched altogether.
pub proof fn lemma_rights_forfeited_by_mover(v: BoardModel, m: Move)
    requires
        v.applicable(m),
    ensures
        v.squares[m.spec_from() as int] matches Some(Piece::King(_)) ==> (if v.side_to_move
            == Color::White {
            !has_right(v.apply_move(m).castling_rights, WHITE_KINGSIDE_CASTLING_RIGHTS)
                && !has_right(v.apply_move(m).castling_rights, WHITE_QUEENSIDE_CASTLING_RIGHTS)
        } else {
            !has_right(v.apply_move(m).castling_rights, BLACK_KINGSIDE_CASTLING_RIGHTS)
                && !has_right(v.apply_move(m).castling_rights, BLACK_QUEENSIDE_CASTLING_RIGHTS)
        }),
        !m.spec_is_capture() ==> (if v.side_to_move == Color::White {
            has_right(v.apply_move(m).castling_rights, BLACK_KINGSIDE_CASTLING_RIGHTS)
                == has_right(v.castling_rights, BLACK_KINGSIDE_CASTLING_RIGHTS) && has_right(
                v.apply_move(m).castling_rights,
                BLACK_QUEENSIDE_CASTLING_RIGHTS,
            ) == has_right(v.castling_rights, BLACK_QUEENSIDE_CASTLING_RIGHTS)
        } else {
            has_right(v.apply_move(m).castling_rights, WHITE_KINGSIDE_CASTLING_RIGHTS)
                == has_right(v.castling_rights, WHITE_KINGSIDE_CASTLING_RIGHTS) && has_right(
                v.apply_move(m).castling_rights,
                WHITE_QUEENSIDE_CASTLING_RIGHTS,
            ) == has_right(v.castling_rights, WHITE_QUEENSIDE_CASTLING_RIGHTS)
        }),
{
    reveal(BoardModel::applicable);
    assert(0u8 & 0x08u8 == 0 && 0u8 & 0x04u8 == 0 && 0u8 & 0x02u8 == 0 && 0u8 & 0x01u8 == 0)
        by (bit_vector);
    let s = v.squares;
    let r = v.castling_rights;
    let from = m.spec_from() as int;
    let to = m.spec_to() as int;
    let side = v.side_to_move;
    let crf = castle_rook_from(side, m.spec_is_castle_kingside()) as int;
    let r1 = match s[from] {
        Some(Piece::King(_)) => rights_update(s, r, from, 64),
        Some(Piece::Rook(_)) => rights_update(s, r, 64, from),
        _ => r,
    };
    let r2 = if m.spec_is_capture() && (s[to] matches Some(Piece::Rook(_))) {
        rights_update(s, r1, 64, to)
    } else {
        r1
    };

    lemma_clear_keeps_disjoint(r);
    lemma_clear_keeps_disjoint(r1);
    lemma_clear_keeps_disjoint(r2);
    lemma_clear_keeps_disjoint(r & !WHITE_QUEENSIDE_CASTLING_RIGHTS & !WHITE_KINGSIDE_CASTLING_RIGHTS);
    lemma_clear_keeps_disjoint(r & !BLACK_QUEENSIDE_CASTLING_RIGHTS & !BLACK_KINGSIDE_CASTLING_RIGHTS);
    lemma_clear_keeps_disjoint(r2 & !WHITE_QUEENSIDE_CASTLING_RIGHTS & !WHITE_KINGSIDE_CASTLING_RIGHTS);
    lemma_clear_keeps_disjoint(r2 & !BLACK_QUEENSIDE_CASTLING_RIGHTS & !BLACK_KINGSIDE_CASTLING_RIGHTS);

    if s[from] matches Some(Piece::King(_)) {
        lemma_rights_update_kills(s, r, from, 64);
        lemma_rights_update_mono(s, r1, 64, to, WHITE_KINGSIDE_CASTLING_RIGHTS);
        lemma_rights_update_mono(s, r1, 64, to, WHITE_QUEENSIDE_CASTLING_RIGHTS);
        lemma_rights_update_mono(s, r1, 64, to, BLACK_KINGSIDE_CASTLING_RIGHTS);
        lemma_rights_update_mono(s, r1, 64, to, BLACK_QUEENSIDE_CASTLING_RIGHTS);
        lemma_rights_update_kills(s, r2, from, crf);
        lemma_rights_update_mono(s, r2, from, crf, WHITE_KINGSIDE_CASTLING_RIGHTS);
        lemma_rights_update_mono(s, r2, from, crf, WHITE_QUEENSIDE_CASTLING_RIGHTS);
        lemma_rights_update_mono(s, r2, from, crf, BLACK_KINGSIDE_CASTLING_RIGHTS);
        lemma_rights_update_mono(s, r2, from, crf, BLACK_QUEENSIDE_CASTLING_RIGHTS);
    }
    if !m.spec_is_capture() {
        let a = v.apply_move(m).castling_rights;
        assert(r2 == r1);
        if s[from] matches Some(Piece::King(_)) {
            if m.spec_is_castle() {
                assert(a == rights_update(s, r2, from, crf));
            } else {
                assert(a == r1);
            }
            if side == Color::White {
                assert(has_right(r1, BLACK_KINGSIDE_CASTLING_RIGHTS) == has_right(
                    r,
                    BLACK_KINGSIDE_CASTLING_RIGHTS,
                ) && has_right(r1, BLACK_QUEENSIDE_CASTLING_RIGHTS) == has_right(
                    r,
                    BLACK_QUEENSIDE_CASTLING_RIGHTS,
                ));
                if m.spec_is_castle() {
                    assert(has_right(a, BLACK_KINGSIDE_CASTLING_RIGHTS) == has_right(
                        r1,
                        BLACK_KINGSIDE_CASTLING_RIGHTS,
                    ) && has_right(a, BLACK_QUEENSIDE_CASTLING_RIGHTS) == has_right(
                        r1,
                        BLACK_QUEENSIDE_CASTLING_RIGHTS,
                    ));
                }
            } else {
                assert(has_right(r1, WHITE_KINGSIDE_CASTLING_RIGHTS) == has_right(
                    r,
                    WHITE_KINGSIDE_CASTLING_RIGHTS,
                ) && has_right(r1, WHITE_QUEENSIDE_CASTLING_RIGHTS) == has_right(
                    r,
                    WHITE_QUEENSIDE_CASTLING_RIGHTS,
                ));
                if m.spec_is_castle() {
                    assert(has_right(a, WHITE_KINGSIDE_CASTLING_RIGHTS) == has_right(
                        r1,
                        WHITE_KINGSIDE_CASTLING_RIGHTS,
                    ) && has_right(a, WHITE_QUEENSIDE_CASTLING_RIGHTS) == has_right(
                        r1,
                        WHITE_QUEENSIDE_CASTLING_RIGHTS,
                    ));
                }
            }
        }
        // a rook of the mover standing on the opponent's home corner is
        // impossible while the opponent still holds that corner's right,
        // so the corner arm never flips a held opposing right
        if s[from] matches Some(Piece::Rook(c)) && c == side {
            assert(!m.spec_is_castle());
            assert(a == r1);
            if side == Color::White {
                if from == 56 {
                    assert(!has_right(r, BLACK_QUEENSIDE_CASTLING_RIGHTS));
                    lemma_clear_mask(r, BLACK_QUEENSIDE_CASTLING_RIGHTS);
                }
                if from == 63 {
                    assert(!has_right(r, BLACK_KINGSIDE_CASTLING_RIGHTS));
                    lemma_clear_mask(r, BLACK_KINGSIDE_CASTLING_RIGHTS);
                }
                assert(has_right(a, BLACK_KINGSIDE_CASTLING_RIGHTS) == has_right(
                    r,
                    BLACK_KINGSIDE_CASTLING_RIGHTS,
                ) && has_right(a, BLACK_QUEENSIDE_CASTLING_RIGHTS) == has_right(
                    r,
                    BLACK_QUEENSIDE_CASTLING_RIGHTS,
                ));
            } else {
                if from == 0 {
                    assert(!has_right(r, WHITE_QUEENSIDE_CASTLING_RIGHTS));
                    lemma_clear_mask(r, WHITE_QUEENSIDE_CASTLING_RIGHTS);
                }
                if from == 7 {
                    assert(!has_right(r, WHITE_KINGSIDE_CASTLING_RIGHTS));
                    lemma_clear_mask(r, WHITE_KINGSIDE_CASTLING_RIGHTS);
                }
                assert(has_right(a, WHITE_KINGSIDE_CASTLING_RIGHTS) == has_right(
                    r,
                    WHITE_KINGSIDE_CASTLING_RIGHTS,
                ) && has_right(a, WHITE_QUEENSIDE_CASTLING_RIGHTS) == has_right(
                    r,
                    WHITE_QUEENSIDE_CASTLING_RIGHTS,
                ));
            }
        }
        if !(s[from] matches Some(Piece::King(_))) && !(s[from] matches Some(Piece::Rook(_))) {
            assert(!m.spec_is_castle());
            assert(a == r);
        }
    }
}

/// En-passant law: a two-square pawn advance leaves the square it passed
/// over as the en-passant target, and every other move clears the target.
pub proof fn lemma_en_passant_lifecycle(v: BoardModel, m: Move)
    requires
        v.applicable(m),
    ensures
        v.is_double_push(m) ==> v.apply_move(m).en_passant_square == Some(
            ((m.spec_from() + m.spec_to()) / 2) as u8,
        ),
        !v.is_double_push(m) ==> v.apply_move(m).en_passant_square is None,
{
    reveal(BoardModel::applicable);
}

/// Round-trip law: undoing a move that was just applied restores the
/// position exactly — squares, castling rights, en-passant target, both
/// clocks and the cached king squares.
pub proof fn lemma_make_unmake_roundtrip(v: BoardModel, m: Move)
    requires
        v.applicable(m),
    ensures
        v.apply_move(m).unapply_move(m, v.undo_for(m)) == v,
{
    reveal(BoardModel::applicable);
    let w = v.apply_move(m);
    let u = v.undo_for(m);
    let z = w.unapply_move(m, u);
    assert(z.squares =~= v.squares);
    assert(z =~= v);
}

/// King-tracking law: a king of each color stands exactly on the cached
/// king squares after a move is applied, and again after it is undone.
pub proof fn lemma_kings_tracked(v: BoardModel, m: Move)
    requires
        v.applicable(m),
    ensures
        v.apply_move(m).wf(),
        v.apply_move(m).squares[v.apply_move(m).white_king as int] == Some(
            Piece::King(Color::White),
        ),
        v.apply_move(m).squares[v.apply_move(m).black_king as int] == Some(
            Piece::King(Color::Black),
        ),
        v.apply_move(m).unapply_move(m, v.undo_for(m)).wf(),
{
    reveal(BoardModel::applicable);
    lemma_apply_wf(v, m);
    lemma_make_unmake_roundtrip(v, m);
}

impl Board {
    /// Forfeits castling rights after a piece leaves square `from` or a
    /// rook leaves (or is captured on) square `rook_from`.  A king seen on
    /// `from` costs its own side both rights and nobody else's; a value of
    /// 64 or more stands for no square, so that square a1 (index 0) is
    /// never mistaken for "no rook moved".
    pub fn update_castling_rights(&mut self, from: usize, rook_from: usize)
        ensures
            final(self).castling_rights == rights_update(
                old(self).squares@,
                old(self).castling_rights,
                from as int,
                rook_from as int,
            ),
            final(self).squares == old(self).squares,
            final(self).side_to_move == old(self).side_to_move,
            final(self).en_passant_square == old(self).en_passant_square,
            final(self).halfmove_clock == old(self).halfmove_clock,
            final(self).fullmove_number == old(self).fullmove_number,
            final(self).white_king == old(self).white_king,
            final(self).black_king == old(self).black_king,
    {
        if self.castling_rights == 0 {
            return ;
        }
        if from < 64 {
            if let Some(Piece::King(color)) = self.squares[from] {
                match color {
                    Color::Black => self.castling_rights = self.castling_rights
                        & !BLACK_QUEENSIDE_CASTLING_RIGHTS & !BLACK_KINGSIDE_CASTLING_RIGHTS,
                    Color::White => self.castling_rights = self.castling_rights
                        & !WHITE_QUEENSIDE_CASTLING_RIGHTS & !WHITE_KINGSIDE_CASTLING_RIGHTS,
                };
            }
        }
        if rook_from == 0 {
            self.castling_rights = self.castling_rights & !WHITE_QUEENSIDE_CASTLING_RIGHTS;
        } else if rook_from == 7 {
            self.castling_rights = self.castling_rights & !WHITE_KINGSIDE_CASTLING_RIGHTS;
        } else if rook_from == 56 {
            self.castling_rights = self.castling_rights & !BLACK_QUEENSIDE_CASTLING_RIGHTS;
        } else if rook_from == 63 {
            self.castling_rights = self.castling_rights & !BLACK_KINGSIDE_CASTLING_RIGHTS;
        }
    }

    /// Applies `m` to the board and returns the record `unmake_move`
    /// needs to invert it.  Side to move and the full-move number are the
    /// driver's to update, uniformly after every accepted move.
    pub fn make_move(&mut self, m: Move) -> (undo_info: UndoInfo)
        requires
            old(self)@.applicable(m),
            old(self)@.halfmove_clock < 0xffff_ffffu32,
        ensures
            final(self)@ == old(self)@.apply_move(m),
            undo_info == old(self)@.undo_for(m),
            final(self)@.wf(),
            final(self)@.ep_answerable_by(old(self)@.side_to_move.spec_opposite()),
            undo_info.special_info matches SpecialInfo::EnPassant { en_passant_square }
                ==> en_passant_square < 64,
            undo_info.special_info matches SpecialInfo::Castle { rook_from, rook_to } ==> rook_from
                < 64 && rook_to < 64,
    {
        proof {
            reveal(BoardModel::applicable);
        }
        let mut undo_info = UndoInfo {
            captured_piece: None,
            en_passant_square: self.en_passant_square,
            castling_rights: self.castling_rights,
            halfmove_clock: self.halfmove_clock,
            special_info: SpecialInfo::Plain,
            white_king: self.white_king,
            black_king: self.black_king,
        };

        let from = m.get_from() as usize;
        let to = m.get_to() as usize;

        let moving_piece = self.squares[from];

        self.en_passant_square = None;

        if let Some(Piece::King(color)) = self.squares[from] {
            match color {
                Color::White => self.white_king = m.get_to(),
                Color::Black => self.black_king = m.get_to(),
            }
        }

        if let Some(piece) = self.squares[from] {
            match piece {
                Piece::King(_) => self.update_castling_rights(from, 64),
                Piece::Rook(_) => self.update_castling_rights(64, from),
                _ => {},
            }
        }

        if m.is_capture() {
            if let Some(Piece::Rook(_)) = self.squares[to] {
                self.update_castling_rights(64, to);
            }
            if m.is_en_passant() {
                let captured_pawn_square = if self.side_to_move == Color::White {
                    to - 8
                } else {
                    to + 8
                };
                undo_info.captured_piece = self.squares[captured_pawn_square];
                undo_info.special_info = SpecialInfo::EnPassant {
                    en_passant_square: captured_pawn_square as u16,
                };
                self.squares[captured_pawn_square] = None;
                self.squares[to] = self.squares[from];
                self.squares[from] = None;
            } else {
                undo_info.captured_piece = self.squares[to];
                self.squares[to] = self.squares[from];
                self.squares[from] = None;
            }
        } else if m.is_castle() {
            let (rook_from, rook_to): (u16, u16) = if m.is_castle_kingside() {
                match self.side_to_move {
                    Color::White => (7, 5),
                    Color::Black => (63, 61),
                }
            } else {
                match self.side_to_move {
                    Color::White => (0, 3),
                    Color::Black => (56, 59),
                }
            };
            undo_info.special_info = SpecialInfo::Castle { rook_from, rook_to };
            self.update_castling_rights(from, rook_from as usize);
            self.squares[from] = None;
            self.squares[to] = Some(Piece::King(self.side_to_move));
            self.squares[rook_from as usize] = None;
            self.squares[rook_to as usize] = Some(Piece::Rook(self.side_to_move));
        } else {
            self.squares[to] = self.squares[from];
            self.squares[from] = None;
        }

        if m.is_promotion() {
            let promoted = match m.promotion_piece() {
                Some(1) => Piece::Rook(self.side_to_move),
                Some(2) => Piece::Bishop(self.side_to_move),
                Some(3) => Piece::Knight(self.side_to_move),
                _ => Piece::Queen(self.side_to_move),
            };
            undo_info.special_info = SpecialInfo::Promotion;
            self.squares[from] = None;
            self.squares[to] = Some(promoted);
        }

        let pawn_moved = if let Some(Piece::Pawn(c)) = moving_piece {
            c == self.side_to_move
        } else {
            false
        };

        if !m.is_promotion() && pawn_moved {
            let diff = if from > to {
                from - to
            } else {
                to - from
            };
            if diff == 16 {
                let ep_square = if self.side_to_move == Color::White {
                    from + 8
                } else {
                    from - 8
                };
                self.en_passant_square = Some(ep_square as u8);
            }
        }

        if m.is_capture() || m.is_promotion() || pawn_moved {
            self.halfmove_clock = 0;
        } else {
            self.halfmove_clock = self.halfmove_clock + 1;
        }

        proof {
            assert(self@.squares =~= old(self)@.squares_after(m));
            assert(self@ =~= old(self)@.apply_move(m));
            lemma_apply_wf(old(self)@, m);
        }
        undo_info
    }

    /// Restores the position `make_move` started from, given the move and
    /// the undo record that `make_move` returned for it.
    pub fn unmake_move(&mut self, m: Move, undo: UndoInfo)
        requires
            undo.special_info matches SpecialInfo::EnPassant { en_passant_square } ==> en_passant_square < 64,
            undo.special_info matches SpecialInfo::Castle { rook_from, rook_to } ==> rook_from < 64
                && rook_to < 64,
        ensures
            final(self)@ == old(self)@.unapply_move(m, undo),
    {
        let from = m.get_from() as usize;
        let to = m.get_to() as usize;
        self.castling_rights = undo.castling_rights;
        self.en_passant_square = undo.en_passant_square;
        self.halfmove_clock = undo.halfmove_clock;
        self.white_king = undo.white_king;
        self.black_king = undo.black_king;

        match undo.special_info {
            SpecialInfo::EnPassant { en_passant_square } => {
                self.squares[from] = self.squares[to];
                self.squares[to] = None;
                self.squares[en_passant_square as usize] = undo.captured_piece;
            },
            SpecialInfo::Castle { rook_from, rook_to } => {
                self.squares[from] = self.squares[to];
                self.squares[to] = None;
                self.squares[rook_from as usize] = self.squares[rook_to as usize];
                self.squares[rook_to as usize] = None;
            },
            SpecialInfo::Promotion => {
                self.squares[from] = Some(Piece::Pawn(self.side_to_move));
                self.squares[to] = undo.captured_piece;
            },
            SpecialInfo::Plain => {
                self.squares[from] = self.squares[to];
                self.squares[to] = undo.captured_piece;
            },
        }
        proof {
            assert(final(self)@.squares =~= old(self)@.unapply_move(m, undo).squares);
            assert(final(self)@ =~= old(self)@.unapply_move(m, undo));
        }
    }
}

} // verus!
