//! Tests for the UCI wire-protocol codec.

use fishpond::codec::{
    parse_i16, parse_single, parse_u16, Score, ScoreBound, ScoreValue, UciToEngineCmd,
    UciToGuiCmd,
};
use fishpond::game::Game;
use fishpond::moves::{parse_uci_move, uci_move_token, Role, Square, UciMove};
use fishpond::position::chess_start;

const START_FEN: &str = "rnbqkbnr/pppppppp/8/8/8/8/PPPPPPPP/RNBQKBNR w KQkq - 0 1";

fn sq(file: u8, rank: u8) -> Square {
    Square { file, rank }
}

#[test]
fn parse_uciok() {
    assert_eq!(UciToGuiCmd::parse(b"uciok"), Ok(UciToGuiCmd::UciOk));
    assert_eq!(UciToGuiCmd::parse(b"  uciok  "), Ok(UciToGuiCmd::UciOk));
    assert!(UciToGuiCmd::parse(b"uciok trailing").is_err());
}

#[test]
fn parse_id_name() {
    let cmd = UciToGuiCmd::parse(b"id name Stockfish 16").unwrap();
    assert_eq!(
        cmd,
        UciToGuiCmd::Id {
            name: Some(b"Stockfish 16".to_vec()),
            author: None,
        }
    );
}

#[test]
fn parse_id_author() {
    let cmd = UciToGuiCmd::parse(b"id author the Stockfish developers (see AUTHORS file)").unwrap();
    assert_eq!(
        cmd,
        UciToGuiCmd::Id {
            name: None,
            author: Some(b"the Stockfish developers (see AUTHORS file)".to_vec()),
        }
    );
}

#[test]
fn parse_id_rejects_empty_rest() {
    assert!(UciToGuiCmd::parse(b"id name").is_err());
    assert!(UciToGuiCmd::parse(b"id").is_err());
    assert!(UciToGuiCmd::parse(b"id rating 3000").is_err());
}

#[test]
fn parse_bestmove_ignores_ponder() {
    let cmd = UciToGuiCmd::parse(b"bestmove e2e4 ponder e7e5").unwrap();
    assert_eq!(
        cmd,
        UciToGuiCmd::BestMove {
            uci_move: UciMove::Normal {
                from: sq(4, 1),
                to: sq(4, 3),
                promotion: None,
            },
        }
    );
}

#[test]
fn parse_bestmove_promotion() {
    // P9: the ponder token is ignored, the promotion is kept.
    let cmd = UciToGuiCmd::parse(b"bestmove e7e8q ponder d7d8q").unwrap();
    assert_eq!(
        cmd,
        UciToGuiCmd::BestMove {
            uci_move: UciMove::Normal {
                from: sq(4, 6),
                to: sq(4, 7),
                promotion: Some(Role::Queen),
            },
        }
    );
}

#[test]
fn parse_bestmove_rejects_bad_token() {
    assert!(UciToGuiCmd::parse(b"bestmove").is_err());
    assert!(UciToGuiCmd::parse(b"bestmove e9e9").is_err());
}

#[test]
fn parse_unknown_command_fails() {
    assert!(UciToGuiCmd::parse(b"").is_err());
    assert!(UciToGuiCmd::parse(b"readyok").is_err());
    assert!(UciToGuiCmd::parse(b"option name Hash type spin").is_err());
}

#[test]
fn parse_info_search_report() {
    // P8: depth, selective depth, an exact centipawn score and the
    // principal variation.
    let cmd = UciToGuiCmd::parse(b"info depth 12 seldepth 18 score cp 34 pv e2e4 e7e5").unwrap();
    match cmd {
        UciToGuiCmd::Info(info) => {
            assert_eq!(info.depth, Some(12));
            assert_eq!(info.selective_depth, Some(18));
            assert_eq!(
                info.score,
                Some(Score {
                    value: ScoreValue::Centipawns(34),
                    bound: ScoreBound::Exact,
                })
            );
            assert_eq!(
                info.principal_variation,
                Some(vec![
                    UciMove::Normal { from: sq(4, 1), to: sq(4, 3), promotion: None },
                    UciMove::Normal { from: sq(4, 6), to: sq(4, 4), promotion: None },
                ])
            );
            assert_eq!(info.nodes, None);
        }
        other => panic!("expected an info command, got {:?}", other),
    }
}

#[test]
fn parse_info_numeric_fields() {
    let cmd = UciToGuiCmd::parse(
        b"info time 5 nodes 1000 nps 200000 multipv 1 currmovenumber 3 hashfull 500 cpuload 250 tbhits 7 sbhits 8",
    )
    .unwrap();
    match cmd {
        UciToGuiCmd::Info(info) => {
            assert_eq!(info.time, Some(5));
            assert_eq!(info.nodes, Some(1000));
            assert_eq!(info.nodes_per_second, Some(200000));
            assert_eq!(info.multi_pv, Some(1));
            assert_eq!(info.current_move_number, Some(3));
            assert_eq!(info.hash_full, Some(500));
            assert_eq!(info.cpu_load, Some(250));
            assert_eq!(info.table_hits, Some(7));
            assert_eq!(info.shredder_hits, Some(8));
        }
        other => panic!("expected an info command, got {:?}", other),
    }
}

#[test]
fn parse_info_score_bounds_and_mate() {
    let cmd = UciToGuiCmd::parse(b"info score mate -3 lowerbound").unwrap();
    match cmd {
        UciToGuiCmd::Info(info) => {
            assert_eq!(
                info.score,
                Some(Score { value: ScoreValue::Mate(-3), bound: ScoreBound::Lower })
            );
        }
        other => panic!("expected an info command, got {:?}", other),
    }
    let cmd = UciToGuiCmd::parse(b"info score cp 7 upperbound").unwrap();
    match cmd {
        UciToGuiCmd::Info(info) => {
            assert_eq!(
                info.score,
                Some(Score { value: ScoreValue::Centipawns(7), bound: ScoreBound::Upper })
            );
        }
        other => panic!("expected an info command, got {:?}", other),
    }
}

#[test]
fn parse_info_string_captures_rest() {
    let cmd = UciToGuiCmd::parse(b"info depth 1 string NNUE evaluation using nn.bin").unwrap();
    match cmd {
        UciToGuiCmd::Info(info) => {
            assert_eq!(info.depth, Some(1));
            assert_eq!(info.string, Some(b"NNUE evaluation using nn.bin".to_vec()));
        }
        other => panic!("expected an info command, got {:?}", other),
    }
}

#[test]
fn parse_info_currmove_and_refutation() {
    let cmd = UciToGuiCmd::parse(b"info currmove g1f3 refutation d2d4 d7d5").unwrap();
    match cmd {
        UciToGuiCmd::Info(info) => {
            assert_eq!(
                info.current_move,
                Some(UciMove::Normal { from: sq(6, 0), to: sq(5, 2), promotion: None })
            );
            let refutation = info.refutation.unwrap();
            assert_eq!(
                refutation.refuted_move,
                UciMove::Normal { from: sq(3, 1), to: sq(3, 3), promotion: None }
            );
            assert_eq!(refutation.refutation.len(), 1);
        }
        other => panic!("expected an info command, got {:?}", other),
    }
}

#[test]
fn parse_info_currentline_with_and_without_cpu() {
    let cmd = UciToGuiCmd::parse(b"info currentline 2 e2e4 e7e5").unwrap();
    match cmd {
        UciToGuiCmd::Info(info) => {
            let line = info.current_line.unwrap();
            assert_eq!(line.cpu_number, Some(2));
            assert_eq!(line.line.len(), 2);
        }
        other => panic!("expected an info command, got {:?}", other),
    }
    let cmd = UciToGuiCmd::parse(b"info currentline e2e4").unwrap();
    match cmd {
        UciToGuiCmd::Info(info) => {
            let line = info.current_line.unwrap();
            assert_eq!(line.cpu_number, None);
            assert_eq!(line.line.len(), 1);
        }
        other => panic!("expected an info command, got {:?}", other),
    }
}

#[test]
fn parse_info_missing_argument_fails_line() {
    assert!(UciToGuiCmd::parse(b"info depth").is_err());
    assert!(UciToGuiCmd::parse(b"info depth x").is_err());
    assert!(UciToGuiCmd::parse(b"info score cp").is_err());
    assert!(UciToGuiCmd::parse(b"info score banana 3").is_err());
    assert!(UciToGuiCmd::parse(b"info currmove zzz").is_err());
}

#[test]
fn parse_info_skips_unknown_keywords() {
    let cmd = UciToGuiCmd::parse(b"info depth 4 wdl 512 488 0").unwrap();
    match cmd {
        UciToGuiCmd::Info(info) => {
            assert_eq!(info.depth, Some(4));
        }
        other => panic!("expected an info command, got {:?}", other),
    }
    let cmd = UciToGuiCmd::parse(b"info").unwrap();
    match cmd {
        UciToGuiCmd::Info(info) => {
            assert_eq!(*info, Default::default());
        }
        other => panic!("expected an info command, got {:?}", other),
    }
}

#[test]
fn numbers_parse_exactly() {
    assert_eq!(parse_single(b"0"), Ok(0));
    assert_eq!(parse_single(b"0042"), Ok(42));
    assert_eq!(parse_single(b"18446744073709551615"), Ok(u64::MAX));
    assert!(parse_single(b"18446744073709551616").is_err());
    assert!(parse_single(b"").is_err());
    assert!(parse_single(b"12a").is_err());
    assert!(parse_single(b"-1").is_err());
    assert_eq!(parse_u16(b"65535"), Ok(65535));
    assert!(parse_u16(b"65536").is_err());
    assert_eq!(parse_i16(b"-32768"), Ok(-32768));
    assert_eq!(parse_i16(b"32767"), Ok(32767));
    assert!(parse_i16(b"-32769").is_err());
    assert!(parse_i16(b"32768").is_err());
    assert!(parse_i16(b"-").is_err());
}

#[test]
fn move_tokens_round_trip() {
    for token in [&b"e2e4"[..], b"e7e8q", b"Q@e4", b"0000", b"a1h8", b"h7h8n"] {
        let m = parse_uci_move(token).unwrap();
        let canonical = uci_move_token(&m);
        let again = parse_uci_move(&canonical).unwrap();
        assert_eq!(m, again);
    }
    assert!(parse_uci_move(b"e9e9").is_none());
    assert!(parse_uci_move(b"e2e").is_none());
    assert!(parse_uci_move(b"e2e4qq").is_none());
}

#[test]
fn gui_commands_round_trip_through_serializer() {
    // P1: rendering a command and parsing the rendered line gives the
    // command back.
    let cases = vec![
        UciToGuiCmd::UciOk,
        UciToGuiCmd::Id { name: Some(b"Stockfish 16".to_vec()), author: None },
        UciToGuiCmd::Id { name: None, author: Some(b"the developers".to_vec()) },
        UciToGuiCmd::BestMove {
            uci_move: UciMove::Normal { from: sq(4, 6), to: sq(4, 7), promotion: Some(Role::Queen) },
        },
    ];
    for cmd in cases {
        let line = cmd.serialize();
        let parsed = UciToGuiCmd::parse(&line).unwrap();
        assert_eq!(parsed, cmd);
    }
}

#[test]
fn engine_commands_serialize() {
    assert_eq!(UciToEngineCmd::Uci.serialize(), b"uci".to_vec());
    assert_eq!(
        (UciToEngineCmd::Go { move_time: 1234 }).serialize(),
        b"go movetime 1234".to_vec()
    );
    let game = Game::from_start_position(chess_start());
    let cmd = UciToEngineCmd::Position { game: Box::new(game) };
    let expected = format!("position fen {}", START_FEN).into_bytes();
    assert_eq!(cmd.serialize(), expected);
}

#[test]
fn position_command_lists_moves() {
    let mut game = Game::from_start_position(chess_start());
    game.play_token(b"e2e4").unwrap();
    game.play_token(b"e7e5").unwrap();
    let line = game.uci_position_with_moves();
    let expected = format!("fen {} moves e2e4 e7e5", START_FEN).into_bytes();
    assert_eq!(line, expected);
}

#[test]
fn info_round_trips_through_serializer() {
    // P1 for info lines: parse, re-serialize, parse again.
    let lines: [&[u8]; 6] = [
        b"info depth 12 seldepth 18 score cp 34 pv e2e4 e7e5",
        b"info time 5 nodes 100 nps 20 multipv 2 hashfull 999 cpuload 1000 tbhits 1 sbhits 2 currmovenumber 7",
        b"info currmove g1f3 refutation d2d4 d7d5 currentline 2 e2e4",
        b"info score mate -2 upperbound",
        b"info string NNUE evaluation using nn.bin",
        b"info",
    ];
    for line in lines {
        let cmd = UciToGuiCmd::parse(line).unwrap();
        let out = cmd.serialize();
        let again = UciToGuiCmd::parse(&out).unwrap();
        assert_eq!(cmd, again);
    }
}
