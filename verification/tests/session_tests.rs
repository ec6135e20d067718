//! Tests for the engine-session lifecycle state machine.

use fishpond::moves::{Role, Square, UciMove};
use fishpond::session::{EngineSession, EngineState, SessionEvent};

#[test]
fn handshake_fires_once() {
    // P6: the handshake command is emitted exactly once, on the first
    // channel-ready event.
    let mut session = EngineSession::new();
    assert_eq!(session.state(), EngineState::Startup);
    let line = session.on_channel_ready();
    assert_eq!(line, Some(b"uci".to_vec()));
    assert_eq!(session.state(), EngineState::UciInit);
    assert_eq!(session.on_channel_ready(), None);
    assert_eq!(session.state(), EngineState::UciInit);
}

#[test]
fn uciok_completes_the_handshake() {
    let mut session = EngineSession::new();
    session.on_channel_ready();
    assert!(!session.ready());
    let event = session.on_line(b"uciok");
    assert!(matches!(event, SessionEvent::Initialized));
    assert!(session.ready());
    assert_eq!(session.state(), EngineState::Ready);
}

#[test]
fn uciok_before_handshake_does_not_advance() {
    // P6: `uciok` before the handshake command was sent takes no
    // documented transition.
    let mut session = EngineSession::new();
    let event = session.on_line(b"uciok");
    assert!(matches!(event, SessionEvent::Noise));
    assert_eq!(session.state(), EngineState::Startup);
}

#[test]
fn id_lines_merge_identity() {
    let mut session = EngineSession::new();
    session.on_channel_ready();
    session.on_line(b"id name Stockfish 16");
    assert_eq!(session.name().as_deref(), Some(&b"Stockfish 16"[..]));
    assert_eq!(session.author(), &None);
    session.on_line(b"id author the Stockfish developers");
    assert_eq!(session.name().as_deref(), Some(&b"Stockfish 16"[..]));
    assert_eq!(
        session.author().as_deref(),
        Some(&b"the Stockfish developers"[..])
    );
    // A later name replaces the earlier one; the author stays.
    session.on_line(b"id name Stockfish 17");
    assert_eq!(session.name().as_deref(), Some(&b"Stockfish 17"[..]));
    assert_eq!(
        session.author().as_deref(),
        Some(&b"the Stockfish developers"[..])
    );
}

#[test]
fn bestmove_is_forwarded_in_any_state() {
    let mut session = EngineSession::new();
    let event = session.on_line(b"bestmove e2e4");
    match event {
        SessionEvent::SearchResult { uci_move } => {
            assert_eq!(
                uci_move,
                UciMove::Normal {
                    from: Square { file: 4, rank: 1 },
                    to: Square { file: 4, rank: 3 },
                    promotion: None,
                }
            );
        }
        other => panic!("expected a search result, got noise or {:?}", kind(&other)),
    }
    assert_eq!(session.state(), EngineState::Startup);
}

#[test]
fn noise_lines_are_ignored() {
    let mut session = EngineSession::new();
    session.on_channel_ready();
    for line in [
        &b"Stockfish 16 by the Stockfish developers (see AUTHORS file)"[..],
        b"option name Hash type spin default 16 min 1 max 33554432",
        b"",
        b"readyok",
    ] {
        let event = session.on_line(line);
        assert!(matches!(event, SessionEvent::Noise));
    }
    assert_eq!(session.state(), EngineState::UciInit);
}

#[test]
fn info_lines_are_surfaced() {
    let mut session = EngineSession::new();
    let event = session.on_line(b"info depth 12 nodes 500");
    match event {
        SessionEvent::Info(info) => {
            assert_eq!(info.depth, Some(12));
            assert_eq!(info.nodes, Some(500));
        }
        other => panic!("expected info, got {:?}", kind(&other)),
    }
}

#[test]
fn promotion_result_keeps_its_role() {
    let mut session = EngineSession::new();
    let event = session.on_line(b"bestmove e7e8q ponder d7d8q");
    match event {
        SessionEvent::SearchResult { uci_move } => match uci_move {
            UciMove::Normal { promotion, .. } => assert_eq!(promotion, Some(Role::Queen)),
            other => panic!("expected a normal move, got {:?}", other),
        },
        other => panic!("expected a search result, got {:?}", kind(&other)),
    }
}

fn kind(event: &SessionEvent) -> &'static str {
    match event {
        SessionEvent::Initialized => "initialized",
        SessionEvent::SearchResult { .. } => "search result",
        SessionEvent::Info(_) => "info",
        SessionEvent::Noise => "noise",
    }
}
