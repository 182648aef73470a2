use chess_engine::engine::Engine;
use chess_engine::types::{Board, MoveData, Piece, Square};
use chess_engine::uci::{parse_go_command, parse_position_command};

#[test]
fn test_move_from_uci_string() {
    let result = Board::move_from_uci_string("e2e4");
    assert!(result.is_ok());
    let MoveData { from, to, promote } = result.unwrap();
    assert_eq!(from as usize, 12); // e2
    assert_eq!(to as usize, 28); // e4
    assert_eq!(promote, None);
}

#[test]
fn test_move_from_uci_string_promotion() {
    let result = Board::move_from_uci_string("e7e8q");
    assert!(result.is_ok());
    let MoveData { from, to, promote } = result.unwrap();
    assert_eq!(from as usize, 52); // e7
    assert_eq!(to as usize, 60); // e8
    assert_eq!(promote, Some(Piece::Queen));
}

#[test]
fn test_move_to_uci() {
    let from = Square::try_from(12u8).unwrap(); // e2
    let to = Square::try_from(28u8).unwrap(); // e4
    let uci = Board::move_to_uci_string(from, to, None, false);
    assert_eq!(uci, "e2e4");
}

#[test]
fn test_startpos_position() {
    let mut engine = Engine::default();
    let result = parse_position_command(&mut engine, "position startpos");
    assert!(result.is_ok());
}

#[test]
fn test_position_with_moves() {
    let mut engine = Engine::default();
    let result = parse_position_command(&mut engine, "position startpos moves e2e4 e7e5");
    assert!(result.is_ok());
}

#[test]
fn position_command_errors() {
    let mut engine = Engine::default();
    assert_eq!(parse_position_command(&mut engine, "position"), Err("Invalid position command".to_string()));
    assert_eq!(parse_position_command(&mut engine, "position foo"), Err("Unknown position type: foo".to_string()));
    assert_eq!(parse_position_command(&mut engine, "position fen"), Err("Missing FEN string".to_string()));
    assert_eq!(
        parse_position_command(&mut engine, "position startpos moves e2e5"),
        Err("Illegal move: e2e5".to_string())
    );
    assert_eq!(
        parse_position_command(&mut engine, "position startpos moves e2"),
        Err("Invalid move string length: e2".to_string())
    );
    assert_eq!(
        parse_position_command(&mut engine, "position startpos moves e7e8k"),
        Err("Invalid promotion piece: k".to_string())
    );
}

#[test]
fn position_command_with_fen_and_moves() {
    let mut engine = Engine::default();
    let r = parse_position_command(
        &mut engine,
        "position fen rnbqkbnr/pppppppp/8/8/4P3/8/PPPP1PPP/RNBQKBNR b KQkq e3 0 1 moves e7e5 g1f3",
    );
    assert!(r.is_ok());
    assert_eq!(engine.position.to_fen(), "rnbqkbnr/pppp1ppp/8/4p3/4P3/5N2/PPPP1PPP/RNBQKB1R b KQkq - 1 2");
}

#[test]
fn go_command_sets_limits() {
    let mut engine = Engine::default();
    parse_go_command(&mut engine, "go wtime 1000 btime 2000 winc 10 binc 20 movetime 500 depth 7 nodes 12345");
    assert_eq!(engine.search_settings.wtime, 1000);
    assert_eq!(engine.search_settings.btime, 2000);
    assert_eq!(engine.search_settings.winc, 10);
    assert_eq!(engine.search_settings.binc, 20);
    assert_eq!(engine.search_settings.movetime, Some(500));
    assert_eq!(engine.search_settings.max_depth, 7);
    assert_eq!(engine.search_settings.max_nodes, Some(12345));
    parse_go_command(&mut engine, "go infinite wtime x");
    assert_eq!(engine.search_settings.max_depth, 100);
    assert_eq!(engine.search_settings.wtime, 1000);
}

#[test]
fn position_command_state_after_moves() {
    let mut engine = Engine::default();
    assert_eq!(parse_position_command(&mut engine, "position startpos"), Ok(()));
    assert_eq!(engine.position.to_fen(), "rnbqkbnr/pppppppp/8/8/8/8/PPPPPPPP/RNBQKBNR w KQkq - 0 1");
    let mut engine = Engine::default();
    assert_eq!(parse_position_command(&mut engine, "position startpos moves e2e4 e7e5"), Ok(()));
    assert!(engine.position.to_fen().starts_with("rnbqkbnr/pppp1ppp/8/4p3/4P3/8/PPPP1PPP/RNBQKBNR w KQkq"));
    let mut engine = Engine::default();
    assert_eq!(
        parse_position_command(&mut engine, "position startpos moves e2e4 e2e5"),
        Err("Illegal move: e2e5".to_string())
    );
    assert_eq!(engine.position.side, chess_engine::types::Side::Black);
}

#[test]
fn short_multibyte_move_text_is_a_format_error() {
    for text in ["é1e", "e2€", "€a", "𝄞"] {
        match Board::move_from_uci_string(text) {
            Ok(_) => panic!("{} was read as a move", text),
            Err(e) => assert_eq!(e, format!("Invalid move format: {}", text)),
        }
    }
}
