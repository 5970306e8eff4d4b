use chess_engine::board::{Board, Color, Piece};
use chess_engine::evaluation::Evaluator;
use chess_engine::movegen::{GameState, Move, MoveGenerator};
use chess_engine::notation::{apply_move, format_move, is_move_legal, parse_move, parse_number, split_words, MoveError};
use chess_engine::search::{move_to_u64, Search};
use chess_engine::transposition::{NodeType, TranspositionEntry, TranspositionTable};
use chess_engine::uci::UciHandler;
use chess_engine::zobrist::hash_board;

const START_FEN: &str = "rnbqkbnr/pppppppp/8/8/8/8/PPPPPPPP/RNBQKBNR w KQkq - 0 1";

fn empty_board() -> Board {
    let mut board = Board::new();
    for i in 0..6 {
        board.white_pieces[i] = 0;
        board.black_pieces[i] = 0;
    }
    board.castling_rights = 0;
    board
}

fn play(board: &mut Board, lan: &str) {
    let mv = parse_move(board, lan).expect("a legal move");
    board.make_move(mv);
}

fn perft(board: &Board, generator: &MoveGenerator, depth: u32) -> u64 {
    if depth == 0 {
        return 1;
    }
    let moves = generator.generate_moves(board);
    if depth == 1 {
        return moves.len() as u64;
    }
    let mut nodes = 0;
    for mv in moves {
        let mut next = board.clone();
        next.make_move(mv);
        nodes += perft(&next, generator, depth - 1);
    }
    nodes
}

#[test]
fn perft_depth_four() {
    let generator = MoveGenerator::new();
    assert_eq!(perft(&Board::new(), &generator, 4), 197281);
}

#[test]
fn generated_moves_are_valid_and_distinct_after_some_play() {
    let generator = MoveGenerator::new();
    let mut board = Board::new();
    for lan in ["e2e4", "d7d5", "e4d5", "g8f6", "f1b5", "c7c6"] {
        play(&mut board, lan);
    }
    let moves = generator.generate_moves(&board);
    assert!(!moves.is_empty());
    for (i, mv) in moves.iter().enumerate() {
        assert!(generator.is_move_valid(&board, mv));
        let mut next = board.clone();
        next.make_move(*mv);
        assert!(!generator.is_king_in_check(&next, board.side_to_move));
        assert_eq!(board.get_piece_at(mv.from), Some((mv.piece, board.side_to_move)));
        for other in &moves[i + 1..] {
            assert_ne!(mv, other);
        }
    }
}

#[test]
fn piece_at_reads_the_piece_sets() {
    let board = Board::new();
    assert_eq!(board.get_piece_at(0), Some((Piece::Rook, Color::White)));
    assert_eq!(board.get_piece_at(4), Some((Piece::King, Color::White)));
    assert_eq!(board.get_piece_at(59), Some((Piece::Queen, Color::Black)));
    assert_eq!(board.get_piece_at(27), None);
}

#[test]
fn castling_rights_only_shrink() {
    let mut board = Board::new();
    for lan in ["e2e4", "e7e5", "g1f3", "b8c6", "f1c4", "g8f6"] {
        let before = board.castling_rights;
        play(&mut board, lan);
        assert_eq!(board.castling_rights & !before, 0);
    }
    assert_eq!(board.castling_rights, 0b1111);
    play(&mut board, "e1g1");
    assert_eq!(board.castling_rights, 0b1100);
    assert_eq!(board.get_piece_at(5), Some((Piece::Rook, Color::White)));
    assert_eq!(board.get_piece_at(6), Some((Piece::King, Color::White)));
}

#[test]
fn capturing_a_rook_on_its_corner_clears_that_right() {
    let mut board = empty_board();
    board.white_pieces[5] = 1 << 4;
    board.white_pieces[3] = 1 << 0;
    board.black_pieces[5] = 1 << 60;
    board.black_pieces[3] = 1 << 56;
    board.castling_rights = 0b1010;
    play(&mut board, "a1a8");
    assert_eq!(board.castling_rights, 0);
}

#[test]
fn en_passant_target_follows_a_double_push() {
    let mut board = Board::new();
    play(&mut board, "e2e4");
    assert_eq!(board.en_passant_square, Some(20));
    play(&mut board, "g8f6");
    assert_eq!(board.en_passant_square, None);
}

#[test]
fn make_move_on_a_clone_leaves_the_source() {
    let board = Board::new();
    let generator = MoveGenerator::new();
    for mv in generator.generate_moves(&board) {
        let mut first = board.clone();
        first.make_move(mv);
        let mut second = board.clone();
        second.make_move(mv);
        assert_eq!(first.white_pieces, second.white_pieces);
        assert_eq!(first.black_pieces, second.black_pieces);
        assert_eq!(board.white_pieces, Board::new().white_pieces);
        assert_eq!(board.black_pieces, Board::new().black_pieces);
        assert_eq!(board.side_to_move, Color::White);
    }
}

#[test]
fn hash_is_stable_and_ignores_clocks() {
    let a = Board::new();
    let mut b = Board::new();
    b.halfmove_clock = 7;
    b.fullmove_number = 12;
    assert_eq!(hash_board(&a), hash_board(&b));
    let mut c = Board::new();
    play(&mut c, "e2e4");
    assert_ne!(hash_board(&a), hash_board(&c));
}

#[test]
fn promotion_menu_with_kings() {
    let generator = MoveGenerator::new();
    let mut board = empty_board();
    board.white_pieces[0] = 1 << 48;
    board.white_pieces[5] = 1 << 7;
    board.black_pieces[5] = 1 << 39;
    let moves = generator.generate_moves(&board);
    let promotions: Vec<_> = moves.iter().filter(|mv| mv.from == 48 && mv.to == 56).collect();
    assert_eq!(promotions.len(), 4);
    for kind in [Piece::Queen, Piece::Rook, Piece::Bishop, Piece::Knight] {
        assert!(promotions.iter().any(|mv| mv.promotion == Some(kind)));
    }
}

#[test]
fn checkmate_in_the_corner() {
    let generator = MoveGenerator::new();
    let mut board = empty_board();
    board.white_pieces[5] = 1 << 2;
    board.white_pieces[4] = 1 << 1;
    board.black_pieces[5] = 1 << 0;
    board.side_to_move = Color::Black;
    assert!(generator.generate_moves(&board).is_empty());
    assert_eq!(generator.get_game_state(&board, &[]), GameState::Checkmate(Color::White));
}

#[test]
fn stalemate_without_check() {
    let generator = MoveGenerator::new();
    let mut board = empty_board();
    board.white_pieces[5] = 1 << 0;
    board.black_pieces[5] = 1 << 10;
    board.black_pieces[4] = 1 << 17;
    assert!(!generator.is_king_in_check(&board, Color::White));
    assert!(generator.generate_moves(&board).is_empty());
    assert_eq!(generator.get_game_state(&board, &[]), GameState::Stalemate);
}

#[test]
fn en_passant_capture_is_offered() {
    let generator = MoveGenerator::new();
    let mut board = Board::new();
    for lan in ["e2e4", "d7d5", "e4e5", "f7f5"] {
        play(&mut board, lan);
    }
    let moves = generator.generate_moves(&board);
    let ep = moves.iter().find(|mv| mv.from == 36 && mv.to == 45).expect("e5f6");
    assert!(ep.is_en_passant);
    assert_eq!(ep.captured_piece, Some(Piece::Pawn));
    let mut after = board.clone();
    after.make_move(*ep);
    assert_eq!(after.get_piece_at(37), None);
    assert_eq!(after.get_piece_at(45), Some((Piece::Pawn, Color::White)));
}

#[test]
fn no_castling_out_of_check() {
    let generator = MoveGenerator::new();
    let mut board = empty_board();
    board.white_pieces[5] = 1 << 4;
    board.white_pieces[3] = (1 << 0) | (1 << 7);
    board.black_pieces[3] = 1 << 60;
    board.black_pieces[5] = 1 << 63;
    board.castling_rights = 0b0011;
    let moves = generator.generate_moves(&board);
    assert!(!moves.iter().any(|mv| mv.is_castling));
}

#[test]
fn insufficient_material_cases() {
    let generator = MoveGenerator::new();
    let base = {
        let mut b = empty_board();
        b.white_pieces[5] = 1 << 4;
        b.black_pieces[5] = 1 << 60;
        b
    };
    assert_eq!(generator.get_game_state(&base, &[]), GameState::InsufficientMaterial);
    let mut bishop = base.clone();
    bishop.white_pieces[2] = 1 << 2;
    assert_eq!(generator.get_game_state(&bishop, &[]), GameState::InsufficientMaterial);
    let mut knight = base.clone();
    knight.white_pieces[1] = 1 << 1;
    assert_eq!(generator.get_game_state(&knight, &[]), GameState::InsufficientMaterial);
    // c1 and f8 are both dark squares
    let mut same = bishop.clone();
    same.black_pieces[2] = 1 << 61;
    assert_eq!(generator.get_game_state(&same, &[]), GameState::InsufficientMaterial);
    // c1 is dark, c8 is light
    let mut opposite = bishop.clone();
    opposite.black_pieces[2] = 1 << 58;
    assert_eq!(generator.get_game_state(&opposite, &[]), GameState::Ongoing);
}

#[test]
fn fifty_move_rule_counts_plies() {
    let generator = MoveGenerator::new();
    let mut board = Board::new();
    board.halfmove_clock = 99;
    assert_eq!(generator.get_game_state(&board, &[]), GameState::Ongoing);
    board.halfmove_clock = 100;
    assert_eq!(generator.get_game_state(&board, &[]), GameState::FiftyMoveRule);
}

#[test]
fn two_occurrences_are_not_a_repetition() {
    let generator = MoveGenerator::new();
    let board = Board::new();
    let history = vec![(board.clone(), Move::new(12, 28, Piece::Pawn))];
    assert_eq!(generator.get_game_state(&board, &history), GameState::Ongoing);
}

#[test]
fn evaluation_of_the_initial_position() {
    // Material, structure and king safety cancel; white's 16 pawn and 4 knight moves remain.
    assert_eq!(Evaluator::new().evaluate(&Board::new()), 24);
}

#[test]
fn evaluation_counts_material() {
    let mut board = empty_board();
    board.white_pieces[5] = 1 << 4;
    board.black_pieces[5] = 1 << 60;
    let evaluator = Evaluator::new();
    let kings = evaluator.evaluate(&board);
    board.white_pieces[4] = 1 << 27;
    assert!(evaluator.evaluate(&board) - kings > 800);
}

#[test]
fn search_returns_a_legal_move() {
    let mut search = Search::new();
    search.set_max_depth(2);
    search.set_max_time(2000);
    let board = Board::new();
    let best = search.find_best_move(&board).expect("a move");
    assert!(is_move_legal(&board, &best));
    assert!(search.get_nodes_searched() > 0);
}

#[test]
fn search_takes_the_hanging_queen() {
    let mut search = Search::new();
    search.set_max_depth(2);
    search.set_max_time(5000);
    let mut board = empty_board();
    board.white_pieces[5] = 1 << 4;
    board.white_pieces[3] = 1 << 0;
    board.black_pieces[5] = 1 << 62;
    board.black_pieces[4] = 1 << 56;
    let best = search.find_best_move(&board).expect("a move");
    assert_eq!((best.from, best.to), (0, 56));
}

#[test]
fn search_without_moves_gives_none() {
    let mut board = empty_board();
    board.white_pieces[5] = 1 << 2;
    board.white_pieces[4] = 1 << 1;
    board.black_pieces[5] = 1 << 0;
    board.side_to_move = Color::Black;
    assert!(Search::new().find_best_move(&board).is_none());
}

#[test]
fn transposition_probe_respects_depth_and_bounds() {
    let mut table = TranspositionTable::new(1024);
    let entry = TranspositionEntry { hash: 5, depth: 4, score: 30, node_type: NodeType::LowerBound, best_move: Some(77) };
    table.store(5, entry);
    assert_eq!(table.probe(5, 4, -100, 20), Some(30));
    assert_eq!(table.probe(5, 4, -100, 50), None);
    assert_eq!(table.probe(5, 5, -100, 20), None);
    assert_eq!(table.get_best_move(5), Some(77));
    assert_eq!(table.probe(6, 1, -100, 20), None);
    let exact = TranspositionEntry { hash: 0, depth: 2, score: -7, node_type: NodeType::Exact, best_move: None };
    table.store(5 + 1024, exact);
    assert_eq!(table.probe(5, 0, -100, 100), None);
    assert_eq!(table.probe(5 + 1024, 2, -100, 100), Some(-7));
    let upper = TranspositionEntry { hash: 9, depth: 3, score: -40, node_type: NodeType::UpperBound, best_move: None };
    table.store(9, upper);
    assert_eq!(table.probe(9, 3, -40, 10), Some(-40));
    assert_eq!(table.probe(9, 3, -41, 10), None);
}

#[test]
fn moves_pack_into_fields() {
    let mv = Move::new_promotion_capture(52, 61, Piece::Rook, Piece::Queen);
    assert_eq!(move_to_u64(mv), 52 | (61 << 6) | (0 << 12) | (3 << 15) | (4 << 18));
}

#[test]
fn long_algebraic_round_trip() {
    let board = Board::new();
    let mv = parse_move(&board, "g1f3").expect("a legal move");
    assert_eq!((mv.from, mv.to, mv.piece), (6, 21, Piece::Knight));
    assert_eq!(format_move(&mv), "g1f3");
    assert!(parse_move(&board, "e2e5").is_none());
    assert!(parse_move(&board, "e2").is_none());
    assert!(parse_move(&board, "e2e4x").is_none());
    let promo = Move::new_promotion(52, 60, Piece::Knight);
    assert_eq!(format_move(&promo), "e7e8n");
}

#[test]
fn numbers_and_words() {
    assert_eq!(parse_number(b"1234"), Some(1234));
    assert_eq!(parse_number(b"18446744073709551615"), Some(u64::MAX));
    assert_eq!(parse_number(b"18446744073709551616"), None);
    assert_eq!(parse_number(b"12a"), None);
    assert_eq!(parse_number(b""), None);
    let words = split_words(b"  go  wtime 100\tdepth 3\n");
    assert_eq!(words, vec![b"go".to_vec(), b"wtime".to_vec(), b"100".to_vec(), b"depth".to_vec(), b"3".to_vec()]);
}

#[test]
fn fen_round_trip() {
    let board = Board::from_fen(START_FEN).expect("the initial position");
    assert_eq!(board.white_pieces, Board::new().white_pieces);
    assert_eq!(board.black_pieces, Board::new().black_pieces);
    assert_eq!(board.castling_rights, 0b1111);
    assert_eq!(Board::new().to_fen(), START_FEN);
    let mut moved = Board::new();
    play(&mut moved, "e2e4");
    assert_eq!(moved.to_fen(), "rnbqkbnr/pppppppp/8/8/4P3/8/PPPP1PPP/RNBQKBNR b KQkq e3 0 1");
    let back = Board::from_fen(&moved.to_fen()).expect("its own FEN");
    assert_eq!(back.to_fen(), moved.to_fen());
}

#[test]
fn fen_errors() {
    assert!(Board::from_fen("").is_err());
    assert!(Board::from_fen("rnbqkbnr/pppppppp/8/8/8/8/PPPPPPPP/RNBQKBNR w KQkq - 0").is_err());
    assert!(Board::from_fen("rnbqkbnr/pppppppp/9/8/8/8/PPPPPPPP/RNBQKBNR w KQkq - 0 1").is_err());
    assert!(Board::from_fen("rnbqkbnr/pppppppp/8/8/8/8/PPPPPPPP/RNBQKBNR x KQkq - 0 1").is_err());
    assert!(Board::from_fen("rnbqkbnr/pppppppp/8/8/8/8/PPPPPPPP/RNBQKBNR w KQxq - 0 1").is_err());
    assert!(Board::from_fen("rnbqkbnr/pppppppp/8/8/8/8/PPPPPPPP/RNBQKBNR w KQkq e4 0 1").is_err());
    assert!(Board::from_fen("rnbqkbnr/pppppppp/8/8/8/8/PPPPPPPP/RNBQKBNR w KQkq - 256 1").is_err());
}

#[test]
fn protocol_commands() {
    let mut uci = UciHandler::new();
    assert_eq!(uci.handle_command("uci"), "id name Three Salmons\nid author Magnus Torvund\nuciok\n");
    assert_eq!(uci.handle_command("isready"), "readyok\n");
    assert_eq!(uci.handle_command(""), "");
    assert_eq!(uci.handle_command("position startpos moves e2e4 e7e5 e1g1"), "");
    let board = uci.board();
    assert_eq!(board.side_to_move, Color::White);
    assert_eq!(board.get_piece_at(28), Some((Piece::Pawn, Color::White)));
    assert_eq!(board.get_piece_at(36), Some((Piece::Pawn, Color::Black)));
    assert_eq!(uci.handle_command("position fen 7k/8/8/8/8/8/8/K6R w - - 0 1"), "");
    assert_eq!(uci.board().get_piece_at(7), Some((Piece::Rook, Color::White)));
    let reply = uci.handle_command("go depth 1 movetime 2000");
    assert!(reply.starts_with("bestmove "));
    assert!(reply.ends_with('\n'));
    assert_eq!(uci.handle_command("ucinewgame"), "");
    assert_eq!(uci.board().to_fen(), START_FEN);
}

#[test]
fn protocol_reports_no_move() {
    let mut uci = UciHandler::new();
    uci.handle_command("position fen 8/8/8/8/8/8/1Q6/k1K5 b - - 0 1");
    assert_eq!(uci.handle_command("go depth 2"), "bestmove (none)\n");
}

#[test]
fn board_as_text() {
    let text = Board::new().to_text();
    let expected = "r n b q k b n r\np p p p p p p p\n. . . . . . . .\n. . . . . . . .\n. . . . . . . .\n. . . . . . . .\nP P P P P P P P\nR N B Q K B N R\n";
    assert_eq!(text, expected);
}

#[test]
fn applying_moves_and_refusals() {
    let mut board = Board::new();
    let mv = apply_move(&mut board, "e2e4").expect("legal");
    assert_eq!((mv.from, mv.to), (12, 28));
    assert_eq!(board.side_to_move, Color::Black);
    let before = board.to_fen();
    assert_eq!(apply_move(&mut board, "e7e4"), Err(MoveError::Illegal));
    assert_eq!(board.to_fen(), before);
    assert_eq!(apply_move(&mut board, "e7-e5"), Err(MoveError::Malformed));
    assert_eq!(apply_move(&mut board, "e7e5k"), Err(MoveError::Malformed));
    assert_eq!(board.to_fen(), before);
}

#[test]
fn transposition_table_stays_within_capacity() {
    let mut table = TranspositionTable::new(2);
    for hash in 0..10u64 {
        let entry = TranspositionEntry { hash, depth: 1, score: hash as i32, node_type: NodeType::Exact, best_move: None };
        table.store(hash, entry);
        assert!(table.len() <= 2);
    }
    assert_eq!(table.len(), 2);
    assert_eq!(table.probe(9, 1, 0, 0), Some(9));
    assert_eq!(table.probe(8, 1, 0, 0), Some(8));
    assert_eq!(table.probe(7, 1, 0, 0), None);
}

#[test]
fn zobrist_keys_are_splitmix() {
    assert_eq!(chess_engine::zobrist::key(0), 16294208416658607535);
    assert_eq!(chess_engine::zobrist::key(768), 2051524347044285516);
}

#[test]
fn go_sets_the_search_limits() {
    let mut uci = UciHandler::new();
    uci.handle_command("go wtime 2000 btime 9000 depth 1");
    assert_eq!(uci.search_limits(), (1, 100));
    uci.handle_command("position startpos moves e2e4");
    uci.handle_command("go wtime 2000 btime 9000 depth 1");
    assert_eq!(uci.search_limits(), (1, 450));
    uci.handle_command("go movetime 30 depth 1");
    assert_eq!(uci.search_limits(), (1, 30));
    uci.handle_command("go movetime 20");
    assert_eq!(uci.search_limits(), (4, 20));
}
