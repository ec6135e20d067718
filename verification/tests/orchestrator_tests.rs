//! Tests for the orchestrator: handshake tracking, turn dispatch, result
//! handling and the automatic draw policy.

use fishpond::game::{DeclareDrawReason, DrawReason, Outcome};
use fishpond::moves::Color;
use fishpond::orchestrator::{EngineReaction, GameState, Orchestrator};

const START_FEN: &str = "rnbqkbnr/pppppppp/8/8/8/8/PPPPPPPP/RNBQKBNR w KQkq - 0 1";

/// Brings both engines to ready and returns the orchestrator together
/// with the first search directive (to White).
fn ready_pair() -> (Orchestrator, Vec<Vec<u8>>) {
    let mut orch = Orchestrator::new(200);
    assert_eq!(
        orch.state(),
        GameState::PlayerInitialization { white: false, black: false }
    );
    assert_eq!(orch.on_channel_ready(Color::White), Some(b"uci".to_vec()));
    assert_eq!(orch.on_channel_ready(Color::Black), Some(b"uci".to_vec()));
    let first = orch.on_engine_line(Color::White, b"uciok");
    assert!(matches!(first, EngineReaction::Idle));
    assert_eq!(
        orch.state(),
        GameState::PlayerInitialization { white: true, black: false }
    );
    let second = orch.on_engine_line(Color::Black, b"uciok");
    match second {
        EngineReaction::Send { side, lines } => {
            assert_eq!(side, Color::White);
            (orch, lines)
        }
        _ => panic!("both engines ready: the opening search should go out"),
    }
}

#[test]
fn both_ready_dispatches_to_white_first() {
    let (orch, lines) = ready_pair();
    assert_eq!(orch.state(), GameState::WaitingForPlayer { player: Color::White });
    assert_eq!(lines.len(), 2);
    assert_eq!(lines[0], format!("position fen {}", START_FEN).into_bytes());
    assert_eq!(lines[1], b"go movetime 200".to_vec());
}

#[test]
fn results_alternate_between_sides() {
    let (mut orch, _) = ready_pair();
    let reaction = orch.on_engine_line(Color::White, b"bestmove e2e4");
    match reaction {
        EngineReaction::Send { side, lines } => {
            assert_eq!(side, Color::Black);
            assert_eq!(
                lines[0],
                format!("position fen {} moves e2e4", START_FEN).into_bytes()
            );
            assert_eq!(lines[1], b"go movetime 200".to_vec());
        }
        _ => panic!("a legal move should advance the game and dispatch the next search"),
    }
    assert_eq!(orch.state(), GameState::WaitingForPlayer { player: Color::Black });
    assert_eq!(orch.game().moves().len(), 1);
}

#[test]
fn stale_results_are_ignored() {
    let (mut orch, _) = ready_pair();
    // Black answers while White's search is in flight: ignored.
    let reaction = orch.on_engine_line(Color::Black, b"bestmove e7e5");
    assert!(matches!(reaction, EngineReaction::Idle));
    assert_eq!(orch.game().moves().len(), 0);
    assert_eq!(orch.state(), GameState::WaitingForPlayer { player: Color::White });
}

#[test]
fn results_before_initialization_are_ignored() {
    let mut orch = Orchestrator::new(200);
    orch.on_channel_ready(Color::White);
    let reaction = orch.on_engine_line(Color::White, b"bestmove e2e4");
    assert!(matches!(reaction, EngineReaction::Idle));
    assert_eq!(orch.game().moves().len(), 0);
}

#[test]
fn illegal_results_are_rejected_with_diagnostics() {
    let (mut orch, _) = ready_pair();
    let reaction = orch.on_engine_line(Color::White, b"bestmove e2e5");
    match reaction {
        EngineReaction::RejectedMove { token, fen } => {
            assert_eq!(token, b"e2e5".to_vec());
            assert_eq!(fen, START_FEN.as_bytes().to_vec());
        }
        _ => panic!("an illegal move must be rejected, not applied"),
    }
    // The game does not advance and no new search goes out: the stall is
    // deliberate.
    assert_eq!(orch.game().moves().len(), 0);
    assert_eq!(orch.state(), GameState::WaitingForPlayer { player: Color::White });
}

#[test]
fn noise_and_info_change_nothing() {
    let (mut orch, _) = ready_pair();
    assert!(matches!(
        orch.on_engine_line(Color::White, b"info depth 10 score cp 20"),
        EngineReaction::Idle
    ));
    assert!(matches!(
        orch.on_engine_line(Color::White, b"some banner text"),
        EngineReaction::Idle
    ));
    assert_eq!(orch.state(), GameState::WaitingForPlayer { player: Color::White });
}

#[test]
fn checkmate_finishes_the_game() {
    let (mut orch, _) = ready_pair();
    for (side, token) in [
        (Color::White, &b"bestmove f2f3"[..]),
        (Color::Black, b"bestmove e7e5"),
        (Color::White, b"bestmove g2g4"),
    ] {
        match orch.on_engine_line(side, token) {
            EngineReaction::Send { .. } => {}
            _ => panic!("the game should continue"),
        }
    }
    match orch.on_engine_line(Color::Black, b"bestmove d8h4") {
        EngineReaction::GameOver { outcome } => {
            assert!(matches!(outcome, Outcome::Decisive { winner: Color::Black, .. }));
        }
        _ => panic!("checkmate must finish the game"),
    }
    assert_eq!(orch.state(), GameState::Finished);
    // A further (stale) result is ignored.
    assert!(matches!(
        orch.on_engine_line(Color::White, b"bestmove a2a3"),
        EngineReaction::Idle
    ));
}

#[test]
fn fivefold_repetition_is_declared_automatically() {
    // P10: a threefold repetition is merely claimable, a fivefold one is
    // declared automatically.
    let (mut orch, _) = ready_pair();
    let shuffle = [
        (Color::White, &b"bestmove g1f3"[..]),
        (Color::Black, b"bestmove g8f6"),
        (Color::White, b"bestmove f3g1"),
        (Color::Black, b"bestmove f6g8"),
    ];
    // Three full cycles: the starting position has now occurred four
    // times; the claim exists but the game goes on.
    for _ in 0..3 {
        for (side, token) in shuffle {
            match orch.on_engine_line(side, token) {
                EngineReaction::Send { .. } => {}
                _ => panic!("the game should continue below the forced threshold"),
            }
        }
    }
    match orch.game().can_declare_draw() {
        Some(DeclareDrawReason::Repetition { count, .. }) => assert_eq!(count, 4),
        other => panic!("expected a claimable repetition, got {:?}", other),
    }
    // The fourth cycle reaches the fifth occurrence: declared outright.
    for (side, token) in shuffle.iter().take(3) {
        match orch.on_engine_line(*side, token) {
            EngineReaction::Send { .. } => {}
            _ => panic!("the game should continue until the fifth occurrence"),
        }
    }
    match orch.on_engine_line(Color::Black, b"bestmove f6g8") {
        EngineReaction::GameOver { outcome } => {
            assert_eq!(
                outcome,
                Outcome::Draw {
                    reason: DrawReason::Declared(DeclareDrawReason::Repetition {
                        count: 5,
                        claimed_by: Color::White,
                    })
                }
            );
        }
        _ => panic!("a fivefold repetition must end the game"),
    }
    assert_eq!(orch.state(), GameState::Finished);
}
