//! The orchestrator: binds two engine sessions to a fresh game, waits for
//! both to become ready, then drives alternating search requests until
//! the game reaches a terminal outcome, auto-declaring draws that FIDE
//! rules force.

use vstd::prelude::*;

use crate::codec::{
    dec_bytes, spec_engine_cmd_bytes, spec_parse_line, UciToEngineCmd, UciToGuiCmdData,
};
use crate::game::{
    forced_draw_reason, ActionData, DeclareDrawReason, Game, Outcome,
};
use crate::moves::{spec_move_token, uci_move_token, Color, UciMove};
use crate::position::{chess_start, fen_of, resolved_of, token_legal_in, turn_of};
use crate::session::{next_state, EngineSession, SessionEvent, SessionInput};

verus! {

/// Where a game stands in the orchestration protocol.
#[derive(Copy, Clone, Debug, PartialEq, Eq, Structural)]
pub enum GameState {
    /// Waiting for the engines of the two sides to finish their
    /// handshakes.
    PlayerInitialization { white: bool, black: bool },
    /// Waiting for the given side's engine to answer the search in
    /// flight.
    WaitingForPlayer { player: Color },
    /// The game reached a terminal outcome; no further searches are
    /// issued.
    Finished,
}

/// What the orchestrator asks its driver to do after consuming one
/// engine event.
pub enum EngineReaction {
    /// Nothing to do.
    Idle,
    /// Write these lines to the given side's engine, in order, flushing
    /// afterwards.
    Send { side: Color, lines: Vec<Vec<u8>> },
    /// An engine answered with a move that is not legal in the current
    /// position: the result is discarded and the game does not advance.
    /// The token and the FEN of the position it was illegal in are
    /// surfaced for diagnostics.
    RejectedMove { token: Vec<u8>, fen: Vec<u8> },
    /// The game reached a terminal outcome.
    GameOver { outcome: Outcome },
}

/// The bytes of the `position` command for a game.
pub open spec fn position_line_bytes(g: Game) -> Seq<u8> {
    seq![112u8, 111u8, 115u8, 105u8, 116u8, 105u8, 111u8, 110u8, 32u8] + g.spec_uci_position()
}

/// The bytes of the `go movetime` command.
pub open spec fn go_line_bytes(move_time: u64) -> Seq<u8> {
    seq![103u8, 111u8, 32u8, 109u8, 111u8, 118u8, 101u8, 116u8, 105u8, 109u8, 101u8, 32u8]
        + dec_bytes(move_time as int)
}

/// The event left the game and the protocol state untouched.
pub open spec fn untouched(pre: Orchestrator, post: Orchestrator) -> bool {
    &&& post.spec_game() == pre.spec_game()
    &&& post.spec_state() == pre.spec_state()
}

/// One orchestrated game: the history, the protocol state, the two
/// engine sessions and the per-move search time.
pub struct Orchestrator {
    game: Game,
    state: GameState,
    white: EngineSession,
    black: EngineSession,
    move_time: u64,
}

impl Orchestrator {
    /// The game history.
    pub closed spec fn spec_game(self) -> Game {
        self.game
    }

    /// The protocol state.
    pub closed spec fn spec_state(self) -> GameState {
        self.state
    }

    /// The session bound to a side.
    pub closed spec fn session(self, side: Color) -> EngineSession {
        match side {
            Color::White => self.white,
            Color::Black => self.black,
        }
    }

    /// The fixed search time per move, in milliseconds.
    pub closed spec fn spec_move_time(self) -> u64 {
        self.move_time
    }

    /// The game state is coherent and the protocol state never runs
    /// ahead of the engines: a side marked ready has a ready session, and
    /// once the game is underway both sessions are ready.
    pub open spec fn wf(self) -> bool {
        &&& self.spec_game().wf()
        &&& match self.spec_state() {
            GameState::PlayerInitialization { white, black } => {
                &&& (white ==> self.session(Color::White).spec_state() is Ready)
                &&& (black ==> self.session(Color::Black).spec_state() is Ready)
                &&& turn_of(self.spec_game().current()) == Color::White
            },
            _ => self.session(Color::White).spec_state() is Ready && self.session(
                Color::Black,
            ).spec_state() is Ready,
        }
    }

    /// A fresh orchestrated game from the standard starting position,
    /// with both engines still starting up.
    pub fn new(move_time: u64) -> (r: Orchestrator)
        ensures
            r.wf(),
            r.spec_state() == (GameState::PlayerInitialization { white: false, black: false }),
            r.session(Color::White).spec_state() is Startup,
            r.session(Color::Black).spec_state() is Startup,
            r.spec_move_time() == move_time,
            r.spec_game().acts() == Seq::<ActionData>::empty(),
    {
        Orchestrator {
            game: Game::from_start_position(chess_start()),
            state: GameState::PlayerInitialization { white: false, black: false },
            white: EngineSession::new(),
            black: EngineSession::new(),
            move_time,
        }
    }

    /// A read-only snapshot of the game for presentation.
    pub fn game(&self) -> (r: &Game)
        ensures
            *r == self.spec_game(),
    {
        &self.game
    }

    /// The protocol state, for presentation.
    pub fn state(&self) -> (r: GameState)
        ensures
            r == self.spec_state(),
    {
        self.state
    }

    /// The two lines that dispatch a search for the current game.
    fn search_lines(&self) -> (r: Vec<Vec<u8>>)
        ensures
            r.deep_view() == seq![
                position_line_bytes(self.spec_game()),
                go_line_bytes(self.spec_move_time()),
            ],
    {
        let cmd = UciToEngineCmd::Position { game: Box::new(self.game.clone()) };
        let line1 = cmd.serialize();
        proof {
            assert(spec_engine_cmd_bytes(cmd) == position_line_bytes(self.spec_game()));
        }
        let line2 = (UciToEngineCmd::Go { move_time: self.move_time }).serialize();
        let mut lines: Vec<Vec<u8>> = Vec::new();
        lines.push(line1);
        lines.push(line2);
        proof {
            assert(lines.deep_view() =~~= seq![
                position_line_bytes(self.spec_game()),
                go_line_bytes(self.spec_move_time()),
            ]);
        }
        lines
    }

    /// Consume the event that a side's channel became writable: from
    /// `Startup` this yields the `uci` handshake line to write to that
    /// side.
    pub fn on_channel_ready(&mut self, side: Color) -> (r: Option<Vec<u8>>)
        requires
            old(self).wf(),
        ensures
            final(self).wf(),
            final(self).spec_game() == old(self).spec_game(),
            final(self).spec_state() == old(self).spec_state(),
            final(self).spec_move_time() == old(self).spec_move_time(),
            final(self).session(side).spec_state() == next_state(
                old(self).session(side).spec_state(),
                SessionInput::ChannelReady,
            ),
            final(self).session(side.spec_other()) == old(self).session(side.spec_other()),
            old(self).session(side).spec_state() is Startup ==> (r matches Some(line) && line@
                == spec_engine_cmd_bytes(UciToEngineCmd::Uci)),
            !(old(self).session(side).spec_state() is Startup) ==> r is None,
    {
        match side {
            Color::White => self.white.on_channel_ready(),
            Color::Black => self.black.on_channel_ready(),
        }
    }

    /// Consume one line of output from a side's engine and react: track
    /// the handshake, dispatch the first search once both sides are
    /// ready, apply search results, auto-declare forced draws, and hand
    /// the next search to the side to move.
    pub fn on_engine_line(&mut self, side: Color, line: &[u8]) -> (r: EngineReaction)
        requires
            old(self).wf(),
        ensures
            final(self).wf(),
            final(self).spec_move_time() == old(self).spec_move_time(),
            old(self).spec_game().acts().is_prefix_of(final(self).spec_game().acts()),
            final(self).spec_game().acts().len() <= old(self).spec_game().acts().len() + 2,
            (r matches EngineReaction::Send { side: s, lines } ==> {
                &&& final(self).session(s).spec_state() is Ready
                &&& final(self).spec_state() == (GameState::WaitingForPlayer { player: s })
                &&& s == turn_of(final(self).spec_game().current())
                &&& lines.deep_view() == seq![
                    position_line_bytes(final(self).spec_game()),
                    go_line_bytes(old(self).spec_move_time()),
                ]
            }),
            final(self).spec_game().acts().len() == old(self).spec_game().acts().len() + 2
                ==> (final(self).spec_game().acts().last() matches ActionData::DeclareDraw(
                reason,
            ) && forced_draw_reason(reason)),
            final(self).spec_game().acts().len() == old(self).spec_game().acts().len() + 1
                ==> !(match final(self).spec_game().spec_can_declare() {
                Some(reason) => forced_draw_reason(reason),
                None => false,
            }),
            (r matches EngineReaction::GameOver { outcome } ==> final(self).spec_state()
                is Finished && final(self).spec_game().spec_outcome() == Some(outcome)),
            final(self).session(side).spec_state() == next_state(
                old(self).session(side).spec_state(),
                SessionInput::Line(line@),
            ),
            final(self).session(side.spec_other()) == old(self).session(side.spec_other()),
            (spec_parse_line(line@) == Some(UciToGuiCmdData::UciOk) && old(self).session(
                side,
            ).spec_state() is UciInit ==> ({
                &&& (old(self).spec_state() matches GameState::PlayerInitialization {
                    white,
                    black,
                } ==> ({
                    let now_white = white || side == Color::White;
                    let now_black = black || side == Color::Black;
                    &&& (now_white && now_black ==> final(self).spec_state() == (
                    GameState::WaitingForPlayer { player: Color::White }) && r is Send)
                    &&& (!(now_white && now_black) ==> final(self).spec_state() == (
                    GameState::PlayerInitialization { white: now_white, black: now_black })
                        && r is Idle)
                }))
                &&& (r matches EngineReaction::Send { side: s, lines } ==> s == Color::White)
                &&& (!(old(self).spec_state() is PlayerInitialization) ==> r is Idle
                    && final(self).spec_state() == old(self).spec_state())
                &&& final(self).spec_game() == old(self).spec_game()
            })),
            (spec_parse_line(line@) == Some(UciToGuiCmdData::UciOk) && !(old(self).session(
                side,
            ).spec_state() is UciInit) ==> r is Idle && untouched(*old(self), *final(self))),
            (spec_parse_line(line@) matches Some(UciToGuiCmdData::BestMove { uci_move }) ==> ({
                let g0 = old(self).spec_game();
                let tok = spec_move_token(uci_move);
                let engaged = old(self).spec_state() == (GameState::WaitingForPlayer {
                    player: side,
                }) && side == turn_of(g0.current());
                &&& (!engaged ==> r is Idle && untouched(*old(self), *final(self)))
                &&& (engaged && !(g0.spec_outcome() is None && token_legal_in(
                    g0.current(),
                    tok,
                )) ==> ({
                    &&& r is RejectedMove
                    &&& (r matches EngineReaction::RejectedMove { token, fen } ==> token@ == tok
                        && fen@ == fen_of(g0.current()))
                    &&& untouched(*old(self), *final(self))
                }))
                &&& (engaged && g0.spec_outcome() is None && token_legal_in(g0.current(), tok)
                    ==> ({
                    &&& final(self).spec_game().acts().len() > g0.acts().len()
                    &&& final(self).spec_game().acts()[g0.acts().len() as int]
                        == ActionData::Move(resolved_of(g0.current(), tok))
                    &&& (final(self).spec_game().spec_outcome() is Some <==> r is GameOver)
                    &&& (final(self).spec_game().spec_outcome() is None ==> r is Send)
                    &&& (r matches EngineReaction::Send { side: s, lines } ==> s == turn_of(
                        final(self).spec_game().current(),
                    ))
                }))
            })),
            (match spec_parse_line(line@) {
                None => true,
                Some(UciToGuiCmdData::Id { name, author }) => true,
                Some(UciToGuiCmdData::Info(i)) => true,
                _ => false,
            } ==> r is Idle && untouched(*old(self), *final(self))),
    {
        let event = match side {
            Color::White => self.white.on_line(line),
            Color::Black => self.black.on_line(line),
        };
        match event {
            SessionEvent::Initialized => self.handle_initialized(side),
            SessionEvent::SearchResult { uci_move } => {
                proof {
                    crate::codec::lemma_bestmove_wf(line@);
                }
                self.handle_search_result(side, uci_move)
            },
            _ => EngineReaction::Idle,
        }
    }

    /// Track that a side's engine finished its handshake; once both have,
    /// White moves first: dispatch the opening search.
    fn handle_initialized(&mut self, side: Color) -> (r: EngineReaction)
        requires
            old(self).wf(),
            old(self).session(side).spec_state() is Ready,
        ensures
            final(self).wf(),
            final(self).spec_game() == old(self).spec_game(),
            final(self).spec_move_time() == old(self).spec_move_time(),
            final(self).session(Color::White) == old(self).session(Color::White),
            final(self).session(Color::Black) == old(self).session(Color::Black),
            r is Idle || r is Send,
            (r matches EngineReaction::Send { side: s, lines } ==> {
                &&& final(self).session(s).spec_state() is Ready
                &&& final(self).spec_state() == (GameState::WaitingForPlayer { player: s })
                &&& s == turn_of(final(self).spec_game().current())
                &&& lines.deep_view() == seq![
                    position_line_bytes(final(self).spec_game()),
                    go_line_bytes(old(self).spec_move_time()),
                ]
            }),
            (old(self).spec_state() matches GameState::PlayerInitialization { white, black }
                ==> ({
                let now_white = white || side == Color::White;
                let now_black = black || side == Color::Black;
                &&& (now_white && now_black ==> final(self).spec_state() == (
                GameState::WaitingForPlayer { player: Color::White }) && r is Send)
                &&& (r matches EngineReaction::Send { side: s, lines } ==> s == Color::White)
                &&& (!(now_white && now_black) ==> final(self).spec_state() == (
                GameState::PlayerInitialization { white: now_white, black: now_black }) && r
                    is Idle)
            })),
            (!(old(self).spec_state() is PlayerInitialization) ==> r is Idle
                && final(self).spec_state() == old(self).spec_state()),
    {
        match self.state {
            GameState::PlayerInitialization { white, black } => {
                let new_white = white || matches!(side, Color::White);
                let new_black = black || matches!(side, Color::Black);
                if new_white && new_black {
                    self.state = GameState::WaitingForPlayer { player: Color::White };
                    let lines = self.search_lines();
                    proof {
                        assert(turn_of(self.spec_game().current()) == Color::White);
                    }
                    EngineReaction::Send { side: Color::White, lines }
                } else {
                    self.state = GameState::PlayerInitialization {
                        white: new_white,
                        black: new_black,
                    };
                    EngineReaction::Idle
                }
            },
            _ => EngineReaction::Idle,
        }
    }

    /// Apply a search result: ignore it unless it comes from the side
    /// whose search is in flight and whose turn it is; resolve the move
    /// against the current position, rejecting an illegal one without
    /// advancing the game; then auto-declare a forced draw, finish the
    /// game on a terminal outcome, or dispatch the next search.
    fn handle_search_result(&mut self, side: Color, uci_move: UciMove) -> (r: EngineReaction)
        requires
            old(self).wf(),
            uci_move.wf(),
        ensures
            final(self).wf(),
            final(self).spec_move_time() == old(self).spec_move_time(),
            final(self).session(Color::White) == old(self).session(Color::White),
            final(self).session(Color::Black) == old(self).session(Color::Black),
            old(self).spec_game().acts().is_prefix_of(final(self).spec_game().acts()),
            final(self).spec_game().acts().len() <= old(self).spec_game().acts().len() + 2,
            (r matches EngineReaction::Send { side: s, lines } ==> {
                &&& final(self).session(s).spec_state() is Ready
                &&& final(self).spec_state() == (GameState::WaitingForPlayer { player: s })
                &&& s == turn_of(final(self).spec_game().current())
                &&& lines.deep_view() == seq![
                    position_line_bytes(final(self).spec_game()),
                    go_line_bytes(old(self).spec_move_time()),
                ]
            }),
            final(self).spec_game().acts().len() == old(self).spec_game().acts().len() + 2
                ==> (final(self).spec_game().acts().last() matches ActionData::DeclareDraw(
                reason,
            ) && forced_draw_reason(reason)),
            final(self).spec_game().acts().len() == old(self).spec_game().acts().len() + 1
                ==> !(match final(self).spec_game().spec_can_declare() {
                Some(reason) => forced_draw_reason(reason),
                None => false,
            }),
            (r matches EngineReaction::GameOver { outcome } ==> final(self).spec_state()
                is Finished && final(self).spec_game().spec_outcome() == Some(outcome)),
            ({
                let g0 = old(self).spec_game();
                let tok = spec_move_token(uci_move);
                let engaged = old(self).spec_state() == (GameState::WaitingForPlayer {
                    player: side,
                }) && side == turn_of(g0.current());
                &&& (!engaged ==> r is Idle && untouched(*old(self), *final(self)))
                &&& (engaged && !(g0.spec_outcome() is None && token_legal_in(
                    g0.current(),
                    tok,
                )) ==> {
                    &&& r is RejectedMove
                    &&& (r matches EngineReaction::RejectedMove { token, fen } ==> token@ == tok
                        && fen@ == fen_of(g0.current()))
                    &&& untouched(*old(self), *final(self))
                })
                &&& (engaged && g0.spec_outcome() is None && token_legal_in(g0.current(), tok)
                    ==> {
                    &&& final(self).spec_game().acts().len() > g0.acts().len()
                    &&& final(self).spec_game().acts()[g0.acts().len() as int]
                        == ActionData::Move(resolved_of(g0.current(), tok))
                    &&& (final(self).spec_game().spec_outcome() is Some <==> r is GameOver)
                    &&& (final(self).spec_game().spec_outcome() is None ==> r is Send)
                    &&& (r matches EngineReaction::Send { side: s, lines } ==> s == turn_of(
                        final(self).spec_game().current(),
                    ))
                })
            }),
    {
        let in_flight = match self.state {
            GameState::WaitingForPlayer { player } => matches!(
                (player, side),
                (Color::White, Color::White) | (Color::Black, Color::Black)
            ),
            _ => false,
        };
        if !in_flight {
            return EngineReaction::Idle;
        }
        let turn = self.game.turn();
        let same_turn = matches!(
            (turn, side),
            (Color::White, Color::White) | (Color::Black, Color::Black)
        );
        if !same_turn {
            // A stale or duplicate engine response: log-and-ignore
            // territory, never a crash.
            return EngineReaction::Idle;
        }
        let token = uci_move_token(&uci_move);
        match self.game.play_token(token.as_slice()) {
            Err(_) => {
                let fen = self.game.current_fen();
                EngineReaction::RejectedMove { token, fen }
            },
            Ok(()) => {
                let auto = match self.game.can_declare_draw() {
                    Some(DeclareDrawReason::Repetition { count, claimed_by }) => count >= 5,
                    Some(DeclareDrawReason::FiftyMoveRule { ply_count }) => ply_count >= 150,
                    None => false,
                };
                if auto {
                    match self.game.declare_draw() {
                        Ok(()) => {},
                        Err(_) => {
                            proof {
                                assert(false);
                            }
                        },
                    }
                }
                match self.game.game_outcome() {
                    Some(outcome) => {
                        self.state = GameState::Finished;
                        EngineReaction::GameOver { outcome }
                    },
                    None => {
                        let next_player = self.game.turn();
                        self.state = GameState::WaitingForPlayer { player: next_player };
                        let lines = self.search_lines();
                        EngineReaction::Send { side: next_player, lines }
                    },
                }
            },
        }
    }
}

} // verus!
