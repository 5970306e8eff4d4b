use chess_engine::board::{Board, Color, Piece};
use chess_engine::movegen::{GameState, Move, MoveGenerator};

fn perft(board: &Board, generator: &MoveGenerator, depth: u32) -> u64 {
    if depth == 0 {
        return 1;
    }
    let moves = generator.generate_moves(board);
    if depth == 1 {
        return moves.len() as u64;
    }
    let mut nodes = 0;
    for mv in moves {
        let mut new_board = board.clone();
        new_board.make_move(mv);
        nodes += perft(&new_board, generator, depth - 1);
    }
    nodes
}

#[test]
fn test_initial_position() {
    let board = Board::new();
    let generator = MoveGenerator::new();
    let moves = generator.generate_moves(&board);

    // White has 20 legal moves in the initial position
    assert_eq!(moves.len(), 20);

    for mv in moves {
        assert!(generator.is_move_valid(&board, &mv));
    }
}

#[test]
fn test_pawn_moves() {
    let mut board = Board::new();
    let generator = MoveGenerator::new();

    let moves = generator.generate_moves(&board);
    let double_push = moves.iter().find(|mv| mv.piece == Piece::Pawn && mv.from / 8 == 1 && mv.to / 8 == 3);
    assert!(double_push.is_some());

    for i in 0..6 {
        board.white_pieces[i] = 0;
        board.black_pieces[i] = 0;
    }
    board.white_pieces[0] = 0x0000000000001000;
    board.black_pieces[0] = 0x0000000000080000;
    board.side_to_move = Color::White;

    let moves = generator.generate_moves(&board);
    let capture = moves.iter().find(|mv| mv.piece == Piece::Pawn && mv.captured_piece.is_some());
    assert!(capture.is_some());
}

#[test]
fn test_castling() {
    let mut board = Board::new();
    let generator = MoveGenerator::new();

    for i in 0..6 {
        board.white_pieces[i] = 0;
        board.black_pieces[i] = 0;
    }
    board.white_pieces[5] = 0x10;
    board.white_pieces[3] = 0x81;
    board.castling_rights = 0b0011;
    board.side_to_move = Color::White;

    let moves = generator.generate_moves(&board);
    let kingside_castle = moves.iter().find(|mv| mv.is_castling && mv.from == 4 && mv.to == 6);
    let queenside_castle = moves.iter().find(|mv| mv.is_castling && mv.from == 4 && mv.to == 2);

    assert!(kingside_castle.is_some());
    assert!(queenside_castle.is_some());
}

#[test]
fn test_en_passant() {
    let mut board = Board::new();
    let generator = MoveGenerator::new();

    board.make_move(Move::new(12, 28, Piece::Pawn));
    board.make_move(Move::new(51, 35, Piece::Pawn));
    board.make_move(Move::new(28, 36, Piece::Pawn));
    board.make_move(Move::new(53, 37, Piece::Pawn));

    let moves = generator.generate_moves(&board);
    let en_passant = moves.iter().find(|mv| mv.is_en_passant && mv.from == 36 && mv.to == 45);
    assert!(en_passant.is_some());
}

#[test]
fn test_promotion() {
    let mut board = Board::new();
    let generator = MoveGenerator::new();

    for i in 0..6 {
        board.white_pieces[i] = 0;
        board.black_pieces[i] = 0;
    }
    board.white_pieces[0] = 0x0080000000000000;
    board.side_to_move = Color::White;

    let moves = generator.generate_moves(&board);
    let promotions = moves.iter().filter(|mv| mv.piece == Piece::Pawn && mv.promotion.is_some()).count();

    // Queen, rook, bishop and knight
    assert_eq!(promotions, 4);
}

#[test]
fn test_check() {
    let mut board = Board::new();
    let generator = MoveGenerator::new();

    board.white_pieces[4] = 0x0000000000000004;
    board.white_pieces[5] = 0x0000000000000008;
    board.black_pieces[5] = 0x0000000000000010;

    assert!(generator.is_king_in_check(&board, Color::Black));
}

#[test]
fn test_checkmate() {
    let mut board = Board::new();
    let generator = MoveGenerator::new();

    for i in 0..6 {
        board.white_pieces[i] = 0;
        board.black_pieces[i] = 0;
    }
    board.white_pieces[4] = 0x0000000000000002;
    board.white_pieces[5] = 0x0000000000000004;
    board.black_pieces[5] = 0x0000000000000001;
    board.side_to_move = Color::Black;

    println!("White queen: 0x{:016x}", board.white_pieces[4]);
    println!("White king: 0x{:016x}", board.white_pieces[5]);
    println!("Black king: 0x{:016x}", board.black_pieces[5]);

    println!("Black king in check: {}", generator.is_king_in_check(&board, Color::Black));
    let moves = generator.generate_moves(&board);
    println!("Legal moves for black king:");
    for mv in &moves {
        println!("  From: {}, To: {}", mv.from, mv.to);
        println!("    Square {} under attack: {}", mv.to, generator.is_square_under_attack(&board, mv.to, Color::White));
        let mut board_copy = board.clone();
        board_copy.make_move(*mv);
        println!("    After move, king in check: {}", generator.is_king_in_check(&board_copy, Color::Black));
    }
    assert!(moves.is_empty());

    let state = generator.get_game_state(&board, &[]);
    assert_eq!(state, GameState::Checkmate(Color::White));
}

#[test]
fn test_stalemate() {
    let mut board = Board::new();
    let generator = MoveGenerator::new();

    for i in 0..6 {
        board.white_pieces[i] = 0;
        board.black_pieces[i] = 0;
    }
    board.white_pieces[5] = 0x0000000000000001;
    board.black_pieces[5] = 0x0000000000000400;
    board.black_pieces[4] = 0x0000000000020000;
    board.side_to_move = Color::White;

    assert!(!generator.is_king_in_check(&board, Color::White));
    let moves = generator.generate_moves(&board);
    assert!(moves.is_empty());

    let state = generator.get_game_state(&board, &[]);
    assert_eq!(state, GameState::Stalemate);
}

#[test]
fn test_insufficient_material() {
    let mut board = Board::new();
    let generator = MoveGenerator::new();

    // King vs king
    board.white_pieces[5] = 0x0000000000000008;
    board.black_pieces[5] = 0x0000000000000010;
    for i in 0..5 {
        board.white_pieces[i] = 0;
        board.black_pieces[i] = 0;
    }

    let state = generator.get_game_state(&board, &[]);
    assert_eq!(state, GameState::InsufficientMaterial);

    // King and bishop vs king
    board.white_pieces[2] = 0x0000000000000004;
    let state = generator.get_game_state(&board, &[]);
    assert_eq!(state, GameState::InsufficientMaterial);
}

#[test]
fn test_fifty_move_rule() {
    let mut board = Board::new();
    let generator = MoveGenerator::new();

    // Fifty moves are a hundred plies
    board.halfmove_clock = 100;

    let state = generator.get_game_state(&board, &[]);
    assert_eq!(state, GameState::FiftyMoveRule);
}

#[test]
fn test_threefold_repetition() {
    let board = Board::new();
    let generator = MoveGenerator::new();

    let move_history = vec![
        (board.clone(), Move::new(12, 28, Piece::Pawn)),
        (board.clone(), Move::new(52, 36, Piece::Pawn)),
        (board.clone(), Move::new(28, 12, Piece::Pawn)),
        (board.clone(), Move::new(36, 52, Piece::Pawn)),
        (board.clone(), Move::new(12, 28, Piece::Pawn)),
        (board.clone(), Move::new(52, 36, Piece::Pawn)),
    ];

    let state = generator.get_game_state(&board, &move_history);
    assert_eq!(state, GameState::ThreefoldRepetition);
}

#[test]
fn test_move_validation() {
    let mut board = Board::new();
    let generator = MoveGenerator::new();

    board.white_pieces[4] = 0x0000000000000004;
    board.white_pieces[5] = 0x0000000000000008;
    board.black_pieces[5] = 0x0000000000000010;

    let invalid_move = Move::new(8, 0, Piece::Rook);
    assert!(!generator.is_move_valid(&board, &invalid_move));
}

#[test]
fn test_perft_initial_position() {
    let board = Board::new();
    let generator = MoveGenerator::new();

    assert_eq!(perft(&board, &generator, 1), 20);
    assert_eq!(perft(&board, &generator, 2), 400);
    assert_eq!(perft(&board, &generator, 3), 8902);
}
