use chess_engine::engine::Engine;
use chess_engine::api::{apply_moves, get_legal_moves, is_square_attacked};
use chess_engine::position::Position;
use chess_engine::time::{format_with_commas, TimeManager};
use chess_engine::types::{Difficulty, Piece, Side, Square};

const START: &str = "rnbqkbnr/pppppppp/8/8/8/8/PPPPPPPP/RNBQKBNR w KQkq - 0 1";

#[test]
fn start_position_has_twenty_moves() {
    let moves = get_legal_moves(START).unwrap();
    assert_eq!(moves.len(), 20);
    assert!(moves.contains(&"e2e4".to_string()));
    assert!(moves.contains(&"g1f3".to_string()));
}

#[test]
fn fen_roundtrip_start() {
    let p = Position::from_fen(START).unwrap();
    assert_eq!(p.to_fen(), START);
    assert_eq!(p.side, Side::White);
    assert_eq!(p.castle, 15);
    assert!(p.board.bit_pieces[Side::White as usize][Piece::King as usize].is_bit_set(Square::E1));
}

#[test]
fn fen_roundtrip_en_passant() {
    let fen = "rnbqkbnr/ppp1pppp/8/3p4/4P3/8/PPPP1PPP/RNBQKBNR w KQkq d6 0 2";
    let p = Position::from_fen(fen).unwrap();
    assert_eq!(p.to_fen(), fen);
    assert_eq!(p.ply_from_start_of_game, 2);
}

#[test]
fn fen_errors() {
    assert_eq!(Position::from_fen("8/8/8 w - - 0 1").err(), Some("Invalid FEN board: must have 8 ranks".to_string()));
    assert_eq!(
        Position::from_fen("rnbqkbnr/ppppxppp/8/8/8/8/PPPPPPPP/RNBQKBNR w KQkq - 0 1").err(),
        Some("Invalid piece character: x".to_string())
    );
    assert_eq!(
        Position::from_fen("rnbqkbnr/pppppppp/9/8/8/8/PPPPPPPP/RNBQKBNR w KQkq - 0 1").err(),
        Some("Invalid FEN: rank 6 has 9 squares instead of 8".to_string())
    );
    assert_eq!(
        Position::from_fen("rnbqkbnrp/pppppppp/8/8/8/8/PPPPPPPP/RNBQKBNR w KQkq - 0 1").err(),
        Some("Invalid FEN: too many squares in rank 8".to_string())
    );
    assert_eq!(
        Position::from_fen("rnbqkbnr/pppppppp/8/8/8/8/PPPPPPPP/RNBQKBNR w KQkq e3 0 1").err(),
        Some("Invalid en passant square e3 for side to move".to_string())
    );
    assert_eq!(
        Position::from_fen("rnbqkbnr/pppppppp/8/8/8/8/PPPPPPPP/RNBQKBNR w KQkq z9 0 1").err(),
        Some("Invalid en passant square: z9".to_string())
    );
    assert_eq!(
        Position::from_fen("rnbqkbnr/pppppppp/8/8/8/8/PPPPPPPP/RNBQKBNR w KQkq - x 1").err(),
        Some("Invalid halfmove clock: x".to_string())
    );
    assert_eq!(
        Position::from_fen("rnbqkbnr/pppppppp/8/8/8/8/PPPPPPPP/RNBQKBNR w KQkq - 0 0").err(),
        Some("Fullmove number must be at least 1".to_string())
    );
    assert_eq!(
        Position::from_fen("rnbqkbnr/pppppppp/8/8/8/8/PPPPPPPP/RNBQKBNR w KQkq - 0 y").err(),
        Some("Invalid fullmove number: y".to_string())
    );
}

#[test]
fn apply_moves_gives_fen() {
    let fen = apply_moves(START, &["e2e4", "c7c5"]).unwrap();
    assert_eq!(fen, "rnbqkbnr/pp1ppppp/8/2p5/4P3/8/PPPP1PPP/RNBQKBNR w KQkq c6 0 2");
    assert_eq!(apply_moves(START, &["e2e5"]), Err("Illegal move: e2e5".to_string()));
}

#[test]
fn checkmated_side_has_no_moves() {
    // Fool's mate.
    let fen = apply_moves(START, &["f2f3", "e7e5", "g2g4", "d8h4"]).unwrap();
    assert_eq!(get_legal_moves(&fen).unwrap().len(), 0);
}

#[test]
fn castling_and_promotion_moves_listed() {
    let moves = get_legal_moves("r3k2r/8/8/8/8/8/8/R3K2R w KQkq - 0 1").unwrap();
    assert!(moves.contains(&"e1g1".to_string()));
    assert!(moves.contains(&"e1c1".to_string()));
    let moves = get_legal_moves("8/P7/8/8/8/8/8/k6K w - - 0 1").unwrap();
    for m in ["a7a8q", "a7a8r", "a7a8b", "a7a8n"] {
        assert!(moves.contains(&m.to_string()));
    }
}

#[test]
fn square_attack_queries() {
    assert_eq!(is_square_attacked(START, "e3", "white"), Ok(true));
    assert_eq!(is_square_attacked(START, "e4", "WHITE"), Ok(false));
    assert_eq!(is_square_attacked(START, "f6", "b"), Ok(true));
    assert_eq!(
        is_square_attacked(START, "e4", "red"),
        Err("Invalid color: 'red'. Use 'white' or 'black'.".to_string())
    );
    assert_eq!(
        is_square_attacked(START, "e44", "white"),
        Err("Invalid square: 'e44'. Use algebraic notation like 'e4'.".to_string())
    );
    assert_eq!(
        is_square_attacked(START, "z4", "white"),
        Err("Invalid square: 'z4'. Files a-h, ranks 1-8.".to_string())
    );
}

#[test]
fn make_and_take_back_restore_position() {
    let mut p = Position::from_fen(START).unwrap();
    let key = p.board.hash.current_key;
    assert!(p.make_move(Square::E2, Square::E4));
    assert_eq!(p.to_fen(), "rnbqkbnr/pppppppp/8/8/4P3/8/PPPP1PPP/RNBQKBNR b KQkq e3 0 1");
    assert!(p.make_move(Square::G8, Square::F6));
    assert_eq!(p.to_fen(), "rnbqkb1r/pppppppp/5n2/8/4P3/8/PPPP1PPP/RNBQKBNR w KQkq - 1 2");
    p.take_back_move();
    p.take_back_move();
    assert_eq!(p.to_fen(), START);
    assert_eq!(p.board.hash.current_key, key);
}

#[test]
fn start_position_evaluates_to_zero() {
    let p = Position::from_fen(START).unwrap();
    assert_eq!(p.evaluate_position(), 0);
    let p = Position::from_fen("rnbqkbnr/pppppppp/8/8/8/8/1PPPPPPP/RNBQKBNR w KQkq - 0 1").unwrap();
    assert!(p.evaluate_position() < 0);
}

#[test]
fn evaluation_is_for_the_side_to_move() {
    let p = Position::from_fen("4k3/8/8/8/3N4/8/8/4K3 w - - 0 1").unwrap();
    assert_eq!(p.evaluate_position(), 308);
    let p = Position::from_fen("4k3/8/8/8/3N4/8/8/4K3 b - - 0 1").unwrap();
    assert_eq!(p.evaluate_position(), -308);
}

#[test]
fn time_limits() {
    let t = TimeManager::new(300_000, 300_000, 0, 0, None, true);
    assert_eq!(t.hard_limit, 10_000);
    assert_eq!(t.soft_limit, 7_500);
    assert!(!t.fixed_time);
    let t = TimeManager::new(300_000, 300_000, 0, 0, Some(1234), false);
    assert_eq!(t.hard_limit, 1234);
    assert_eq!(t.soft_limit, 1234);
    assert!(!t.is_soft_limit_reached());
    let t = TimeManager::new(400, 4000, 1000, 0, None, true);
    assert_eq!(t.hard_limit, 100);
}

#[test]
fn commas() {
    assert_eq!(format_with_commas(1234567), "1,234,567");
    assert_eq!(format_with_commas(999), "999");
    assert_eq!(format_with_commas(0), "0");
    assert_eq!(format_with_commas(1000), "1,000");
}

#[test]
fn difficulty_depths() {
    assert_eq!(Difficulty::Beginner.max_depth(), 1);
    assert_eq!(Difficulty::Master.max_depth(), 6);
}

#[test]
fn search_finds_back_rank_mate() {
    let mut engine = Engine::default();
    engine.position = Position::from_fen("6k1/5ppp/8/8/8/8/5PPP/R5K1 w - - 0 1").unwrap();
    engine.search_settings.max_depth = 3;
    engine.search_settings.movetime = Some(20_000);
    let result = engine.think();
    assert_eq!(result.best_move_from, Some(Square::A1));
    assert_eq!(result.best_move_to, Some(Square::A8));
    assert!(result.evaluation > 9000);
    assert_eq!(engine.position.to_fen(), "6k1/5ppp/8/8/8/8/5PPP/R5K1 w - - 0 1");
}

#[test]
fn quiescence_of_quiet_start_is_zero() {
    let mut p = Position::from_fen(START).unwrap();
    assert_eq!(p.quiescent_search(-10000, 10000), 0);
    assert_eq!(p.to_fen(), START);
}

#[test]
fn quiescence_sees_hanging_queen() {
    // White to move can take the undefended black queen on d5: the capture
    // lifts the score well above the stand-pat value (a queen down).
    let mut p = Position::from_fen("4k3/8/8/3q4/4P3/8/8/4K3 w - - 0 1").unwrap();
    let stand_pat = p.evaluate_position();
    let s = p.quiescent_search(-10000, 10000);
    assert!(stand_pat < -500);
    assert!(s > stand_pat + 500);
}

#[test]
fn lowest_value_attacker() {
    let p = Position::from_fen(START).unwrap();
    assert_eq!(p.get_square_of_lowest_value_attacker_of_square(Side::White, Square::E3), Some(Square::D2));
    assert_eq!(p.get_square_of_lowest_value_attacker_of_square(Side::White, Square::F3), Some(Square::E2));
    assert_eq!(p.get_square_of_lowest_value_attacker_of_square(Side::White, Square::C6), None);
    let p = Position::from_fen("4k3/8/8/3r4/8/2N5/8/3QK3 w - - 0 1").unwrap();
    assert_eq!(p.get_square_of_lowest_value_attacker_of_square(Side::White, Square::D5), Some(Square::C3));
}

#[test]
fn hash_move_is_marked_first() {
    let mut p = Position::from_fen(START).unwrap();
    p.generate_moves_and_captures(Side::White);
    p.hash_from = Some(Square::E2);
    p.hash_to = Some(Square::E4);
    p.set_hash_move();
    let lo = p.first_move[0] as usize;
    let hi = p.first_move[1] as usize;
    let marked: Vec<_> = (lo..hi)
        .filter_map(|i| p.move_list[i])
        .filter(|m| m.score == 100_000_000)
        .collect();
    assert_eq!(marked.len(), 1);
    assert_eq!(marked[0].from, Square::E2);
    assert_eq!(marked[0].to, Square::E4);
}

#[test]
fn new_position_key_matches_loaded_start() {
    let p = Position::new();
    let q = Position::from_fen(START).unwrap();
    assert_eq!(p.board.hash.current_key, q.board.hash.current_key);
}

#[test]
fn legal_moves_are_listed_once() {
    for fen in [START, "r3k2r/p1ppqpb1/bn2pnp1/3PN3/1p2P3/2N2Q1p/PPPBBPPP/R3K2R w KQkq - 0 1"] {
        let moves = get_legal_moves(fen).unwrap();
        let mut sorted = moves.clone();
        sorted.sort();
        sorted.dedup();
        assert_eq!(sorted.len(), moves.len());
    }
}
