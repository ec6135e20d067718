//! Tests for the game-history rule engine.

use fishpond::game::{
    Action, DeclareDrawReason, DecisiveReason, DrawReason, Game, Outcome,
};
use fishpond::moves::Color;
use fishpond::position::chess_start;

const START_FEN: &str = "rnbqkbnr/pppppppp/8/8/8/8/PPPPPPPP/RNBQKBNR w KQkq - 0 1";

fn fresh() -> Game {
    Game::from_start_position(chess_start())
}

fn play(game: &mut Game, tokens: &[&[u8]]) {
    for token in tokens {
        game.play_token(token).expect("move should be legal");
    }
}

/// One knight-shuffle cycle: after these four plies the starting
/// position recurs, with White to move again.
const SHUFFLE: [&[u8]; 4] = [b"g1f3", b"g8f6", b"f3g1", b"f6g8"];

#[test]
fn fresh_game_state() {
    let game = fresh();
    assert_eq!(game.current_fen(), START_FEN.as_bytes().to_vec());
    assert_eq!(game.moves().len(), 0);
    assert_eq!(game.actions().len(), 0);
    assert_eq!(game.fifty_move_plies(), 0);
    assert_eq!(game.turn(), Color::White);
    assert_eq!(game.game_outcome(), None);
    assert_eq!(game.can_declare_draw(), None);
}

#[test]
fn opening_sequence() {
    // P7: e2e4 e7e5 g1f3 from the start position.
    let mut game = fresh();
    play(&mut game, &[b"e2e4", b"e7e5", b"g1f3"]);
    assert_eq!(
        game.current_fen(),
        b"rnbqkbnr/pppp1ppp/8/4p3/4P3/5N2/PPPP1PPP/RNBQKB1R b KQkq - 1 2".to_vec()
    );
    assert_eq!(game.moves().len(), 3);
    // The two pawn moves reset the counter; the knight move counts one.
    assert_eq!(game.fifty_move_plies(), 1);
    assert_eq!(game.turn(), Color::Black);
}

#[test]
fn ply_counter_resets_on_pawn_capture_and_castle() {
    // P3: the counter counts quiet moves and resets to zero exactly on a
    // capture, castle or pawn move.
    let mut game = fresh();
    play(&mut game, &[b"g1f3", b"g8f6"]);
    assert_eq!(game.fifty_move_plies(), 2);
    play(&mut game, &[b"e2e4"]);
    assert_eq!(game.fifty_move_plies(), 0);
    play(&mut game, &[b"d7d5"]);
    assert_eq!(game.fifty_move_plies(), 0);
    play(&mut game, &[b"b1c3"]);
    assert_eq!(game.fifty_move_plies(), 1);
    play(&mut game, &[b"d5e4"]);
    // A capture resets.
    assert_eq!(game.fifty_move_plies(), 0);
    play(&mut game, &[b"f1e2", b"b8c6", b"f3g1", b"c6b8", b"g1f3", b"b8c6"]);
    assert_eq!(game.fifty_move_plies(), 6);
    // Castling resets.
    play(&mut game, &[b"e1g1"]);
    assert_eq!(game.fifty_move_plies(), 0);
}

#[test]
fn illegal_moves_are_rejected_unchanged() {
    let mut game = fresh();
    assert!(game.play_token(b"e2e5").is_err());
    assert!(game.play_token(b"e7e5").is_err());
    assert!(game.play_token(b"zzz").is_err());
    assert_eq!(game.moves().len(), 0);
    assert_eq!(game.current_fen(), START_FEN.as_bytes().to_vec());
}

#[test]
fn replaying_actions_reproduces_position() {
    // P2: replaying the recorded actions onto a fresh game reproduces
    // the current position, for every prefix.
    let mut game = fresh();
    play(&mut game, &[b"e2e4", b"c7c5", b"g1f3", b"d7d6", b"d2d4", b"c5d4"]);
    let mut replayed = fresh();
    for (i, action) in game.actions().iter().enumerate() {
        match action {
            Action::Move(m) => {
                let mut prefix = fresh();
                for a in game.actions().iter().take(i + 1) {
                    if let Action::Move(pm) = a {
                        prefix.play_token(&pm.token).unwrap();
                    }
                }
                replayed.play_token(&m.token).unwrap();
                assert_eq!(prefix.current_fen(), replayed.current_fen());
            }
            _ => panic!("only moves were applied"),
        }
    }
    assert_eq!(replayed.current_fen(), game.current_fen());
}

#[test]
fn checkmate_outcome_and_finality() {
    let mut game = fresh();
    play(&mut game, &[b"f2f3", b"e7e5", b"g2g4", b"d8h4"]);
    assert_eq!(
        game.game_outcome(),
        Some(Outcome::Decisive { winner: Color::Black, reason: DecisiveReason::Checkmate })
    );
    // Once terminal, nothing more may happen.
    assert!(game.play_token(b"a2a3").is_err());
    assert!(game.offer_draw(Color::White).is_err());
    assert!(game.resign(Color::White).is_err());
    assert!(game.accept_draw().is_err());
    assert_eq!(game.can_declare_draw(), None);
}

#[test]
fn resign_gives_opponent_the_win() {
    let mut game = fresh();
    play(&mut game, &[b"e2e4"]);
    game.resign(Color::Black).unwrap();
    assert_eq!(
        game.game_outcome(),
        Some(Outcome::Decisive { winner: Color::White, reason: DecisiveReason::Resigned })
    );
}

#[test]
fn draw_offer_accept_immediately() {
    // P5: accepting directly after the offer succeeds.
    let mut game = fresh();
    play(&mut game, &[b"e2e4"]);
    game.offer_draw(Color::Black).unwrap();
    game.accept_draw().unwrap();
    assert_eq!(
        game.game_outcome(),
        Some(Outcome::Draw { reason: DrawReason::MutualAgreement })
    );
}

#[test]
fn draw_offer_survives_one_move_by_offerer() {
    // P5: the offer stands through exactly one move by the offering
    // side.
    let mut game = fresh();
    game.offer_draw(Color::White).unwrap();
    play(&mut game, &[b"e2e4"]);
    game.accept_draw().unwrap();
    assert_eq!(
        game.game_outcome(),
        Some(Outcome::Draw { reason: DrawReason::MutualAgreement })
    );
}

#[test]
fn draw_offer_expires_after_two_moves() {
    // P5: after two moves the offer is implicitly withdrawn.
    let mut game = fresh();
    game.offer_draw(Color::White).unwrap();
    play(&mut game, &[b"e2e4", b"e7e5"]);
    assert!(game.accept_draw().is_err());
}

#[test]
fn draw_accept_needs_an_offer() {
    let mut game = fresh();
    assert!(game.accept_draw().is_err());
    play(&mut game, &[b"e2e4"]);
    assert!(game.accept_draw().is_err());
    // An intervening non-move action other than the offer does not help.
    game.offer_draw(Color::White).unwrap();
    game.offer_draw(Color::White).unwrap();
    game.accept_draw().unwrap();
}

#[test]
fn threefold_repetition_is_claimable() {
    // P10: a position repeated for the third time yields a repetition
    // claim.
    let mut game = fresh();
    play(&mut game, &SHUFFLE);
    play(&mut game, &SHUFFLE);
    assert_eq!(
        game.can_declare_draw(),
        Some(DeclareDrawReason::Repetition { count: 3, claimed_by: Color::White })
    );
    game.declare_draw().unwrap();
    assert_eq!(
        game.game_outcome(),
        Some(Outcome::Draw {
            reason: DrawReason::Declared(DeclareDrawReason::Repetition {
                count: 3,
                claimed_by: Color::White,
            })
        })
    );
}

#[test]
fn repetition_visible_one_move_ahead() {
    // The player to move can claim a repetition they can complete with
    // their next move.
    let mut game = fresh();
    play(&mut game, &SHUFFLE);
    play(&mut game, &[b"g1f3", b"g8f6", b"f3g1"]);
    // Black to move; g8 retreat would complete the third occurrence of
    // the starting position.
    let claim = game.can_declare_draw();
    match claim {
        Some(DeclareDrawReason::Repetition { count, claimed_by }) => {
            assert_eq!(count, 3);
            assert_eq!(claimed_by, Color::Black);
        }
        other => panic!("expected a repetition claim, got {:?}", other),
    }
}

#[test]
fn fifty_move_rule_claim_at_fifty_plies() {
    // P4: the fifty-move claim appears exactly at fifty quiet plies.
    let mut game = fresh();
    for _ in 0..12 {
        play(&mut game, &SHUFFLE);
    }
    play(&mut game, &[b"g1f3"]);
    assert_eq!(game.fifty_move_plies(), 49);
    match game.can_declare_draw() {
        Some(DeclareDrawReason::FiftyMoveRule { .. }) => {
            panic!("no fifty-move claim below fifty plies")
        }
        _ => {}
    }
    play(&mut game, &[b"g8f6"]);
    assert_eq!(game.fifty_move_plies(), 50);
    assert_eq!(
        game.can_declare_draw(),
        Some(DeclareDrawReason::FiftyMoveRule { ply_count: 50 })
    );
}

#[test]
fn declare_draw_without_claim_fails() {
    let mut game = fresh();
    play(&mut game, &[b"e2e4"]);
    assert!(game.declare_draw().is_err());
}

#[test]
fn apply_validates_each_action() {
    let mut game = fresh();
    let mv = {
        let mut probe = fresh();
        probe.play_token(b"e2e4").unwrap();
        match &probe.actions()[0] {
            Action::Move(m) => m.clone(),
            _ => unreachable!(),
        }
    };
    game.apply(&Action::Move(mv)).unwrap();
    game.apply(&Action::OfferDraw(Color::Black)).unwrap();
    assert!(game.apply(&Action::DeclareDraw(DeclareDrawReason::FiftyMoveRule {
        ply_count: 50
    }))
    .is_err());
    game.apply(&Action::AcceptDraw).unwrap();
    assert_eq!(
        game.game_outcome(),
        Some(Outcome::Draw { reason: DrawReason::MutualAgreement })
    );
    assert!(game.apply(&Action::Resign(Color::White)).is_err());
}

#[test]
fn stalemate_is_a_draw() {
    // A fastest-known stalemate line.
    let mut game = fresh();
    play(
        &mut game,
        &[
            b"e2e3", b"a7a5", b"d1h5", b"a8a6", b"h5a5", b"h7h5", b"h2h4", b"a6h6", b"a5c7",
            b"f7f6", b"c7d7", b"e8f7", b"d7b7", b"d8d3", b"b7b8", b"d3h7", b"b8c8", b"f7g6",
            b"c8e6",
        ],
    );
    assert_eq!(
        game.game_outcome(),
        Some(Outcome::Draw { reason: DrawReason::Stalemate })
    );
}
