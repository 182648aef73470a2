//! Search tests: best moves, mates, quiescence, move ordering, node counts and
//! determinism of the alpha-beta search.

use chess_engine::{
    engine::Engine,
    position::Position,
    types::{Piece, Square},
};

fn reset_move_state(position: &mut Position) {
    position.ply = 0;
    position.first_move.iter_mut().for_each(|entry| *entry = -1);
    position.first_move[0] = 0;
    position.move_list.iter_mut().for_each(|slot| *slot = None);
}

fn position_from_fen(fen: &str) -> Position {
    let mut position = Position::from_fen(fen).expect(&format!("Failed to load FEN: {}", fen));
    position.set_material_scores();
    reset_move_state(&mut position);
    position
}

fn engine_from_fen(fen: &str, depth: u16) -> Engine {
    let mut engine = Engine::new(None, None, None, None, None, Some(depth), None, None);
    engine.position = Position::from_fen(fen).expect(&format!("Failed to load FEN: {}", fen));
    engine.position.set_material_scores();
    reset_move_state(&mut engine.position);
    engine
}

/// Helper to run a search with fixed depth and return the best move
fn search_position(fen: &str, depth: u16) -> Option<(Square, Square)> {
    let mut engine = engine_from_fen(fen, depth);

    engine.think();

    match (engine.position.hash_from, engine.position.hash_to) {
        (Some(from), Some(to)) => Some((from, to)),
        _ => None,
    }
}


#[test]
fn test_search_finds_best_move_in_simple_position() {
    // Simple opening position
    let fen = "rnbqkbnr/pppppppp/8/8/4P3/8/PPPP1PPP/RNBQKBNR b KQkq e3 0 1";
    let result = search_position(fen, 3);
    assert!(result.is_some(), "Search should find a move");
}

#[test]
fn test_search_completes_within_depth_limit() {
    let fen = "rnbqkbnr/pppppppp/8/8/8/8/PPPPPPPP/RNBQKBNR w KQkq - 0 1";
    let mut engine = engine_from_fen(fen, 3);

    engine.think();

    // Should complete and find a move
    assert!(
        engine.position.hash_from.is_some() && engine.position.hash_to.is_some(),
        "Search should find a best move"
    );
}

#[test]
fn test_search_returns_legal_move() {
    let fen = "rnbqkbnr/pppppppp/8/8/8/8/PPPPPPPP/RNBQKBNR w KQkq - 0 1";
    let mut engine = engine_from_fen(fen, 2);

    engine.think();

    if let (Some(from), Some(to)) = (engine.position.hash_from, engine.position.hash_to) {
        // Generate legal moves and verify the returned move is legal
        let mut position = position_from_fen(fen);
        position.ply = 0;
        position.first_move[0] = 0;
        position.generate_moves_and_captures(position.side);

        let mut found = false;
        for i in 0..position.first_move[1] as usize {
            if let Some(mv) = position.move_list[i] {
                if mv.from == from && mv.to == to {
                    found = true;
                    break;
                }
            }
        }

        assert!(
            found,
            "Search returned move {:?}->{:?} should be legal",
            from, to
        );
    }
}


#[test]
fn test_finds_mate_in_one() {
    // Back rank mate setup: white queen can deliver mate
    let fen = "6k1/5ppp/8/8/8/8/5PPP/4Q1K1 w - - 0 1";
    let mut engine = engine_from_fen(fen, 3);
    engine.think();

    // The search should find a mating move
    assert!(
        engine.position.hash_from.is_some() && engine.position.hash_to.is_some(),
        "Should find mate in one"
    );
}

#[test]
fn test_avoids_hanging_piece() {
    // Opening position where white should develop pieces
    let fen = "rnbqkbnr/pppp1ppp/8/4p3/4P3/8/PPPP1PPP/RNBQKBNR w KQkq - 0 2";
    let mut engine = engine_from_fen(fen, 4);
    engine.think();

    // Should find a reasonable developing move
    assert!(engine.position.hash_from.is_some(), "Should find a move");
}

#[test]
fn test_finds_good_move_in_opening() {
    // Standard opening position
    let fen = "rnbqkbnr/pppppppp/8/8/4P3/8/PPPP1PPP/RNBQKBNR b KQkq e3 0 1";
    let result = search_position(fen, 4);

    assert!(result.is_some(), "Should find a good move in the opening");
}

#[test]
fn test_search_finds_forcing_move() {
    // Position from the Italian Game
    let fen = "r1bqkbnr/pppp1ppp/2n5/4p3/2B1P3/5N2/PPPP1PPP/RNBQK2R b KQkq - 3 3";
    let mut engine = engine_from_fen(fen, 4);
    engine.think();

    // Should find a move
    assert!(
        engine.position.hash_from.is_some(),
        "Should find a move in tactical position"
    );
}


#[test]
fn test_quiescence_search_evaluates_captures() {
    // Standard Sicilian Defense position with tactical possibilities
    let fen = "rnbqkb1r/pp1ppppp/5n2/2p5/4P3/5N2/PPPP1PPP/RNBQKB1R w KQkq - 2 3";
    let mut engine = engine_from_fen(fen, 2);
    engine.think();

    // Should consider the position
    assert!(engine.position.hash_from.is_some(), "Should find a move");
}

#[test]
fn test_quiescence_search_evaluates_stand_pat() {
    // Quiet position - standard starting position
    let fen = "rnbqkbnr/pppppppp/8/8/8/8/PPPPPPPP/RNBQKBNR w KQkq - 0 1";
    let mut engine = engine_from_fen(fen, 1);
    engine.think();

    // Should complete without hanging
    assert!(
        engine.position.hash_from.is_some(),
        "Should handle quiet positions"
    );
}


#[test]
fn test_handles_complex_position() {
    // Complex position for testing en passant and promotion
    let fen = "r3k2r/Pppp1ppp/1b3nbN/nP6/BBP1P3/q4N2/Pp1P2PP/R2Q1RK1 w kq - 0 1";
    let mut engine = engine_from_fen(fen, 4);
    engine.think();

    // Should not crash or infinite loop
    assert!(
        engine.position.hash_from.is_some(),
        "Should handle complex positions"
    );
}



#[test]
fn test_hash_moves_searched_first() {
    let fen = "rnbqkbnr/pppppppp/8/8/8/8/PPPPPPPP/RNBQKBNR w KQkq - 0 1";
    let mut engine = engine_from_fen(fen, 4);

    // First search to populate hash
    engine.think();

    let first_move = engine.position.hash_from;

    // Reset and search again - hash move should be tried first
    engine.position.ply = 0;
    engine.position.nodes = 0;
    engine
        .position
        .generate_moves_and_captures(engine.position.side);

    // Verify hash move is in the move list with high score
    if let Some(hash_from) = first_move {
        let mut _found_with_high_score = false;
        for i in 0..engine.position.first_move[1] as usize {
            if let Some(mv) = engine.position.move_list[i] {
                if mv.from == hash_from && mv.score > 1_000_000 {
                    _found_with_high_score = true;
                    break;
                }
            }
        }
        // Hash move should exist (might not always have high score on regeneration)
    }
}

#[test]
fn test_captures_searched_before_quiet_moves() {
    let fen = "rnbqkb1r/pppp1ppp/5n2/4p3/4P3/5N2/PPPP1PPP/RNBQKB1R w KQkq - 2 3";
    let mut position = position_from_fen(fen);

    position.ply = 0;
    position.first_move[0] = 0;
    position.generate_moves_and_captures(position.side);

    // Check that captures have higher scores than non-captures
    let mut capture_score = None;
    let mut quiet_score = None;

    for i in 0..position.first_move[1] as usize {
        if let Some(mv) = position.move_list[i] {
            let is_capture = position.board.value[mv.to as usize] != Piece::Empty;

            if is_capture && capture_score.is_none() {
                capture_score = Some(mv.score);
            } else if !is_capture && quiet_score.is_none() {
                quiet_score = Some(mv.score);
            }
        }
    }

    if let (Some(cap), Some(quiet)) = (capture_score, quiet_score) {
        assert!(cap > quiet, "Captures should score higher than quiet moves");
    }
}


#[test]
fn test_search_respects_depth_limit() {
    let fen = "rnbqkbnr/pppppppp/8/8/8/8/PPPPPPPP/RNBQKBNR w KQkq - 0 1";
    let mut engine = engine_from_fen(fen, 2);
    engine.think();

    // Should complete quickly with low depth
    assert!(
        engine.position.nodes < 100000,
        "Depth 2 should visit < 100k nodes"
    );
}

#[test]
fn test_deeper_search_visits_more_nodes() {
    let fen = "rnbqkbnr/pppppppp/8/8/8/8/PPPPPPPP/RNBQKBNR w KQkq - 0 1";

    let mut engine1 = engine_from_fen(fen, 2);
    engine1.think();
    let nodes_depth2 = engine1.position.nodes;

    let mut engine2 = engine_from_fen(fen, 3);
    engine2.think();
    let nodes_depth3 = engine2.position.nodes;

    assert!(
        nodes_depth3 > nodes_depth2,
        "Depth 3 should visit more nodes than depth 2"
    );
}


#[test]
fn test_search_is_deterministic() {
    let fen = "rnbqkbnr/pppppppp/8/8/8/8/PPPPPPPP/RNBQKBNR w KQkq - 0 1";

    let result1 = search_position(fen, 3);
    let result2 = search_position(fen, 3);

    // Same position and depth should give same result
    assert_eq!(result1, result2, "Search should be deterministic");
}

#[test]
fn test_search_handles_complex_position() {
    // Position 5 from perft - complex middlegame
    let fen = "rnbq1k1r/pp1Pbppp/2p5/8/2B5/8/PPP1NnPP/RNBQK2R w KQ - 1 8";
    let mut engine = engine_from_fen(fen, 4);
    engine.think();

    assert!(
        engine.position.hash_from.is_some(),
        "Should handle complex positions"
    );
    assert!(engine.position.nodes > 0, "Should visit nodes");
}

#[test]
fn test_search_handles_endgame() {
    // Position 3 from perft - endgame-like position
    let fen = "8/2p5/3p4/KP5r/1R3p1k/8/4P1P1/8 w - - 0 1";
    let mut engine = engine_from_fen(fen, 4);
    engine.think();

    assert!(
        engine.position.hash_from.is_some(),
        "Should handle endgames"
    );
}


#[test]
fn test_search_with_limited_mobility() {
    // Position with castling rights on both sides
    let fen = "r3k2r/pppppppp/8/8/8/8/PPPPPPPP/R3K2R w KQkq - 0 1";
    let mut engine = engine_from_fen(fen, 3);
    engine.think();

    assert!(
        engine.position.hash_from.is_some(),
        "Should handle positions with castling"
    );
}

#[test]
fn test_search_with_castling_rights() {
    let fen = "r3k2r/pppppppp/8/8/8/8/PPPPPPPP/R3K2R w KQkq - 0 1";
    let mut engine = engine_from_fen(fen, 4);
    engine.think();

    // Should consider castling
    assert!(
        engine.position.hash_from.is_some(),
        "Should handle castling positions"
    );
}

#[test]
fn test_search_in_opening() {
    let fen = "rnbqkbnr/pppppppp/8/8/8/8/PPPPPPPP/RNBQKBNR w KQkq - 0 1";
    let mut engine = engine_from_fen(fen, 3);
    engine.think();

    assert!(
        engine.position.hash_from.is_some(),
        "Should handle starting position"
    );
}

#[test]
fn test_search_after_pawn_push() {
    // After 1.e4
    let fen = "rnbqkbnr/pppppppp/8/8/4P3/8/PPPP1PPP/RNBQKBNR b KQkq e3 0 1";
    let mut engine = engine_from_fen(fen, 4);
    engine.think();

    assert!(
        engine.position.hash_from.is_some(),
        "Should handle en passant availability"
    );
}


#[test]
fn test_search_completes_in_reasonable_time() {
    let fen = "rnbqkbnr/pppppppp/8/8/8/8/PPPPPPPP/RNBQKBNR w KQkq - 0 1";
    let mut engine = engine_from_fen(fen, 4);

    let start = std::time::Instant::now();

    engine.think();

    let duration = start.elapsed();

    // Depth 4 from start should complete quickly (< 10 seconds)
    assert!(
        duration.as_secs() < 10,
        "Depth 4 search should complete in < 10 seconds, took {:?}",
        duration
    );
}

#[test]
fn test_node_count_is_reasonable() {
    let fen = "rnbqkbnr/pppppppp/8/8/8/8/PPPPPPPP/RNBQKBNR w KQkq - 0 1";
    let mut engine = engine_from_fen(fen, 3);
    engine.think();

    // Depth 3 should visit reasonable number of nodes
    assert!(
        engine.position.nodes > 100,
        "Should visit at least 100 nodes"
    );
    assert!(
        engine.position.nodes < 1_000_000,
        "Should visit fewer than 1M nodes at depth 3"
    );
}



/// Test Case 1: Must Recapture or Defend
/// After a piece is captured, engine should recapture or defend
#[test]
fn test_recaptures_piece() {
    // Black just captured on e4, White should recapture with pawn at d3
    let fen = "rnbqkbnr/pppp1ppp/8/8/4n3/3P4/PPP1PPPP/RNBQKBNR w KQkq - 0 1";
    let result = search_position(fen, 4);

    assert!(result.is_some(), "Engine should find a move");

    let (from, to) = result.unwrap();

    // White should recapture the knight on e4
    println!(
        "Engine played {:?} to {:?} (expecting recapture on e4)",
        from, to
    );

    assert_eq!(
        from,
        Square::D3,
        "White should have moved from d3, but moved from {:?}",
        from
    );
    assert_eq!(
        to,
        Square::E4,
        "White should recapture on e4, but moved to {:?}",
        to
    );
}

/// Test Case 2: Mate in 1 - Back Rank Mate
#[test]
fn test_finds_back_rank_mate() {
    // Black king trapped on back rank, White rook delivers mate
    let fen = "6k1/5ppp/8/8/8/8/5PPP/R5K1 w - - 0 1";
    let result = search_position(fen, 3);

    assert!(result.is_some(), "Engine should find back rank mate");

    let (from, to) = result.unwrap();

    // Rook should move to 8th rank for mate
    assert_eq!(
        from,
        Square::A1,
        "Rook should move from a1, but moved from {:?}",
        from
    );
    assert_eq!(
        to,
        Square::A8,
        "Rook should deliver mate on a8, but moved to {:?}",
        to
    );
}

/// Test Case 3: Forced Sequence
/// Engine should see forced win sequence
#[test]
fn test_finds_forced_sequence() {
    // White has forcing queen check leading to mate
    let fen = "r1bqkb1r/pppp1ppp/2n2n2/4p2Q/2B1P3/8/PPPP1PPP/RNB1K1NR w KQkq - 0 1";
    let result = search_position(fen, 4);

    assert!(result.is_some(), "Engine should find a forcing move");

    let (from, to) = result.unwrap();

    println!(
        "Engine played {:?} to {:?} in forced sequence position",
        from, to
    );

    assert_eq!(
        from,
        Square::H5,
        "Queen should move from h5, but moved from {:?}",
        from
    );
    assert_eq!(
        to,
        Square::F7,
        "Queen should move to f7 for mate, but moved to {:?}",
        to
    );

    // Scholar's mate pattern - Qxf7 is mate
    // At depth 4, engine should find this
    if from == Square::H5 && to == Square::F7 {
        println!("Found Scholar's mate: Qxf7#");
    }
}
