use chess_engine_rust::board::Board;
use chess_engine_rust::board::Color;
use chess_engine_rust::board::Piece;
use chess_engine_rust::eval::eval;
use chess_engine_rust::eval::piece_value;
use chess_engine_rust::movegen::generate_moves;
use chess_engine_rust::movegen::Move;
use chess_engine_rust::movegen::MoveType;
use chess_engine_rust::search::minimax;
use chess_engine_rust::search::minimax_best_move;
use chess_engine_rust::select_color;

fn boards_equal(a: &Board, b: &Board) -> bool {
    a.squares == b.squares
        && a.side_to_move == b.side_to_move
        && a.castling_rights == b.castling_rights
        && a.en_passant_square == b.en_passant_square
        && a.halfmove_clock == b.halfmove_clock
        && a.fullmove_number == b.fullmove_number
        && a.white_king == b.white_king
        && a.black_king == b.black_king
}

#[test]
fn test_make_unmake_roundtrip() {
    let fen = "r3k2r/pppq1ppp/2n2n2/3pp3/1b1PP1b1/2NB1N2/PPPQ1PPP/R3K2R w KQkq - 4 8";
    let board = Board::from_fen(fen).unwrap();
    let moves = generate_moves(&board);
    assert!(moves.len() > 0);
    for movement in moves {
        let mut scratch = board;
        let undo = scratch.make_move(movement);
        scratch.unmake_move(movement, undo);
        assert!(boards_equal(&scratch, &board));
    }
}

#[test]
fn test_kings_tracked_after_apply() {
    let board = Board::default();
    for movement in generate_moves(&board) {
        let mut scratch = board;
        scratch.make_move(movement);
        assert_eq!(
            scratch.squares[scratch.white_king as usize],
            Some(Piece::King(Color::White))
        );
        assert_eq!(
            scratch.squares[scratch.black_king as usize],
            Some(Piece::King(Color::Black))
        );
    }
}

#[test]
fn test_double_push_sets_en_passant() {
    let board = Board::default();
    let movement = Move::string_to_move("e2e4", &board).unwrap();
    let mut scratch = board;
    scratch.make_move(movement);
    // the square passed over is e3
    assert_eq!(scratch.en_passant_square, Some(20));

    // any other move clears it
    scratch.side_to_move = Color::Black;
    let reply = Move::string_to_move("g8f6", &scratch).unwrap();
    scratch.make_move(reply);
    assert_eq!(scratch.en_passant_square, None);
}

#[test]
fn test_en_passant_capture_removes_victim() {
    let fen = "rnbqkbnr/ppp1pppp/8/3pP3/8/5N2/PPPP1PPP/RNBQKB1R w KQkq d6 0 1";
    let mut board = Board::from_fen(fen).unwrap();
    let moves = generate_moves(&board);
    let ep = moves
        .iter()
        .find(|m| m.is_en_passant())
        .copied()
        .expect("an en-passant capture must be available");
    assert_eq!(ep.get_from(), 36); // e5
    assert_eq!(ep.get_to(), 43); // d6
    board.make_move(ep);
    assert_eq!(board.squares[43], Some(Piece::Pawn(Color::White)));
    assert_eq!(board.squares[35], None); // the d5 pawn is gone
    assert_eq!(board.squares[36], None);
}

#[test]
fn test_castle_allowed_when_path_safe() {
    let fen = "4k3/8/8/8/8/8/8/4K2R w K - 0 1";
    let board = Board::from_fen(fen).unwrap();
    let moves = generate_moves(&board);
    assert!(moves.iter().any(|m| m.is_castle_kingside()));
}

#[test]
fn test_castle_excluded_when_landing_attacked() {
    // the rook on g8 attacks the king's landing square g1
    let fen = "4k1r1/8/8/8/8/8/8/4K2R w K - 0 1";
    let board = Board::from_fen(fen).unwrap();
    let moves = generate_moves(&board);
    assert!(!moves.iter().any(|m| m.is_castle()));
}

#[test]
fn test_castle_excluded_when_transit_occupied() {
    let fen = "4k3/8/8/8/8/8/8/4KB1R w K - 0 1";
    let board = Board::from_fen(fen).unwrap();
    let moves = generate_moves(&board);
    assert!(!moves.iter().any(|m| m.is_castle()));
}

#[test]
fn test_castling_move_relocates_rook() {
    let fen = "4k3/8/8/8/8/8/8/4K2R w K - 0 1";
    let mut board = Board::from_fen(fen).unwrap();
    let castle = generate_moves(&board)
        .into_iter()
        .find(|m| m.is_castle_kingside())
        .unwrap();
    board.make_move(castle);
    assert_eq!(board.squares[6], Some(Piece::King(Color::White)));
    assert_eq!(board.squares[5], Some(Piece::Rook(Color::White)));
    assert_eq!(board.squares[4], None);
    assert_eq!(board.squares[7], None);
    assert_eq!(board.white_king, 6);
    assert_eq!(board.castling_rights, 0);
}

#[test]
fn test_promotion_variants() {
    let fen = "8/4P3/8/8/7k/8/8/7K w - - 0 1";
    let board = Board::from_fen(fen).unwrap();
    let moves = generate_moves(&board);
    let promos: Vec<Move> = moves.iter().filter(|m| m.is_promotion()).copied().collect();
    assert_eq!(promos.len(), 4);
    let mut scratch = board;
    scratch.make_move(promos[0]);
    assert_eq!(scratch.squares[60], Some(Piece::Queen(Color::White)));
}

#[test]
fn test_checkmate_and_stalemate_reporting() {
    // checkmated: no legal move and the king is attacked
    let mate = Board::from_fen("k7/1Q6/1K6/8/8/8/8/8 b - - 0 1").unwrap();
    assert_eq!(minimax_best_move(&mate, 1), None);
    assert!(generate_moves(&mate).is_empty());
    assert!(mate.is_check());

    // stalemated: no legal move but the king is safe
    let stale = Board::from_fen("7k/5Q2/8/8/8/8/8/7K b - - 0 1").unwrap();
    assert_eq!(minimax_best_move(&stale, 1), None);
    assert!(generate_moves(&stale).is_empty());
    assert!(!stale.is_check());
}

#[test]
fn test_minimax_depth_zero_is_eval() {
    let boards = [
        Board::default(),
        Board::from_fen("4k3/8/8/8/8/8/4P3/4K3 w - - 0 1").unwrap(),
        Board::from_fen("r3k2r/pppq1ppp/2n2n2/3pp3/1b1PP1b1/2NB1N2/PPPQ1PPP/R3K2R b KQkq - 4 8")
            .unwrap(),
    ];
    for board in boards.iter() {
        assert_eq!(minimax(board, 0, true, board.side_to_move), eval(board));
        assert_eq!(minimax(board, 0, false, board.side_to_move), eval(board));
    }
}

#[test]
fn test_eval_exact_values() {
    // the starting position is symmetric
    assert_eq!(eval(&Board::default()), 0);

    // a lone white pawn on e2: value 100, positional bonus -20
    let board = Board::from_fen("4k3/8/8/8/8/8/4P3/4K3 w - - 0 1").unwrap();
    assert_eq!(eval(&board), 80);
}

#[test]
fn test_piece_values() {
    assert_eq!(piece_value(&Piece::Pawn(Color::White)), 100);
    assert_eq!(piece_value(&Piece::Knight(Color::Black)), 300);
    assert_eq!(piece_value(&Piece::Bishop(Color::White)), 300);
    assert_eq!(piece_value(&Piece::Rook(Color::Black)), 500);
    assert_eq!(piece_value(&Piece::Queen(Color::White)), 900);
    assert_eq!(piece_value(&Piece::King(Color::Black)), 0);
}

#[test]
fn test_search_takes_hanging_queen() {
    let fen = "k7/8/8/8/8/5q2/6P1/7K w - - 0 1";
    let board = Board::from_fen(fen).unwrap();
    let best = minimax_best_move(&board, 1).unwrap();
    assert_eq!(best.get_from(), 14); // g2
    assert_eq!(best.get_to(), 21); // f3
    assert!(best.is_capture());
}

#[test]
fn test_halfmove_clock_updates() {
    let mut board = Board::default();
    let knight = Move::string_to_move("g1f3", &board).unwrap();
    board.make_move(knight);
    assert_eq!(board.halfmove_clock, 1);

    board.side_to_move = Color::Black;
    let pawn = Move::string_to_move("e7e5", &board).unwrap();
    board.make_move(pawn);
    assert_eq!(board.halfmove_clock, 0);
}

#[test]
fn test_update_castling_rights() {
    let mut board = Board::default();
    board.update_castling_rights(4, 64);
    assert_eq!(board.castling_rights, 0b0011);

    let mut board = Board::default();
    board.update_castling_rights(8, 63);
    assert_eq!(board.castling_rights, 0b1101);
}

#[test]
fn test_king_move_keeps_opponent_rights() {
    // a Black king move forfeits Black's rights and nobody else's
    let board = Board::from_fen("r3k2r/8/8/8/8/8/8/R3K2R b KQkq - 0 1").unwrap();
    let movement = Move::string_to_move("e8d8", &board).unwrap();
    let mut scratch = board;
    scratch.make_move(movement);
    assert_eq!(scratch.castling_rights, 0b1100);

    // and symmetrically for a White king move
    let board = Board::from_fen("r3k2r/8/8/8/8/8/8/R3K2R w KQkq - 0 1").unwrap();
    let movement = Move::string_to_move("e1d1", &board).unwrap();
    let mut scratch = board;
    scratch.make_move(movement);
    assert_eq!(scratch.castling_rights, 0b0011);
}

#[test]
fn test_rook_move_forfeits_one_right() {
    let board = Board::from_fen("r3k2r/8/8/8/8/8/8/R3K2R w KQkq - 0 1").unwrap();
    let movement = Move::string_to_move("a1b1", &board).unwrap();
    let mut scratch = board;
    scratch.make_move(movement);
    assert_eq!(scratch.castling_rights, 0b1011);
}

#[test]
fn test_shallower_mate_scores_more() {
    // Black is checkmated; detecting the mate with more remaining depth
    // (fewer plies from the root) must give the more extreme score
    let mate = Board::from_fen("k7/1Q6/1K6/8/8/8/8/8 b - - 0 1").unwrap();
    let shallow = minimax(&mate, 3, false, Color::Black);
    let deep = minimax(&mate, 1, false, Color::Black);
    assert!(shallow > deep);
    assert_eq!(deep, i32::MAX - 255);
    assert_eq!(shallow, i32::MAX - 253);
}

#[test]
fn test_string_to_move_coordinates() {
    let board = Board::default();
    let movement = Move::string_to_move("b1c3", &board).unwrap();
    assert_eq!(movement.get_from(), 1);
    assert_eq!(movement.get_to(), 18);
    assert!(Move::string_to_move("e2e5", &board).is_err());
    assert!(Move::string_to_move("xx", &board).is_err());
}

#[test]
fn test_move_encoding() {
    let m = Move::new(12, 28, 0);
    assert_eq!(m.get_from(), 12);
    assert_eq!(m.get_to(), 28);
    assert_eq!(m.get_flag(), 0);
    assert_eq!(m.get_move_type(), MoveType::Normal);
    assert!(!m.is_capture());

    let c = Move::capture(3, 59);
    assert!(c.is_capture());
    assert_eq!(c.get_move_type(), MoveType::Capture);

    let p = Move::promotion(52, 60, 2, false);
    assert!(p.is_promotion());
    assert_eq!(p.promotion_piece(), Some(2));
    assert_eq!(p.get_move_type(), MoveType::Promotion);

    let pc = Move::promotion(52, 61, 3, true);
    assert!(pc.is_capture());
    assert_eq!(pc.promotion_piece(), Some(3));
    assert_eq!(pc.get_move_type(), MoveType::PromotionCapture);

    assert!(Move::castle_kingside(4, 6).is_castle_kingside());
    assert!(Move::castle_queenside(4, 2).is_castle_queenside());
    assert!(Move::en_passant_capture(36, 43).is_en_passant());
}

#[test]
fn test_move_to_string() {
    let board = Board::default();
    let pawn = Move::string_to_move("e2e4", &board).unwrap();
    assert_eq!(pawn.to_string(&board), "e4");
    let knight = Move::string_to_move("g1f3", &board).unwrap();
    assert_eq!(knight.to_string(&board), "Nf3");

    let castle_board = Board::from_fen("4k3/8/8/8/8/8/8/4K2R w K - 0 1").unwrap();
    let castle = generate_moves(&castle_board)
        .into_iter()
        .find(|m| m.is_castle_kingside())
        .unwrap();
    assert_eq!(castle.to_string(&castle_board), "0-0");

    // two knights can reach the same square: the file disambiguates
    let two = Board::from_fen("4k3/8/8/8/8/8/8/N1N1K3 w - - 0 1").unwrap();
    let jump = Move::string_to_move("a1b3", &two).unwrap();
    assert_eq!(jump.to_string(&two), "Nab3");
}

#[test]
fn test_fen_errors() {
    assert!(Board::from_fen("only three fields -").is_err());
    assert!(Board::from_fen("8/8/8/8/8/8/8/8 w - - 0 1").is_err()); // no kings
    assert!(Board::from_fen("4k3/8/8/8/8/8/8/4K3 x - - 0 1").is_err()); // bad color
    assert!(Board::from_fen("4k3/8/8/8/8/8/8/4K3 w K - 0 1").is_err()); // no rook for the right
    assert!(Board::from_fen("4k3/8/8/8/8/8/8/4K3 w - e6 0 1").is_err()); // no pawn behind the target
    assert!(Board::from_fen("4k3/8/8/8/8/8/4R3/4K3 w - - 0 1").is_err()); // enemy king en prise
    assert!(Board::from_fen("4k3/8/8/8/8/8/8/4K3 w - - x 1").is_err()); // bad clock
    assert!(Board::from_fen("9/8/8/8/8/8/8/4K3 w - - 0 1").is_err()); // bad rank
}

#[test]
fn test_char_and_square_parsing() {
    assert_eq!(Board::char_to_piece('N'), Ok(Piece::Knight(Color::White)));
    assert_eq!(Board::char_to_piece('q'), Ok(Piece::Queen(Color::Black)));
    assert!(Board::char_to_piece('5').is_err());

    assert_eq!(Board::string_to_square("a1"), Ok(0));
    assert_eq!(Board::string_to_square("h8"), Ok(63));
    assert!(Board::string_to_square("i9").is_err());
    assert!(Board::string_to_square("e").is_err());

    assert!(Board::str_to_square("z9").is_err());
    assert_eq!(Board::str_to_square("e4"), Ok(28));
}

#[test]
fn test_color_helpers() {
    assert_eq!(Color::White.opposite(), Color::Black);
    assert_eq!(Color::Black.opposite(), Color::White);
    assert_eq!(Color::White.to_string(), "White");
    assert_eq!(Color::Black.to_string(), "Black");
    assert_eq!(select_color(), Color::White);
    assert_eq!(Piece::Bishop(Color::Black).color(), Color::Black);
}
