//! The engine-process lifecycle state machine: one session per engine
//! subprocess, driving the `uci` handshake and translating protocol
//! commands into session events.

use vstd::prelude::*;

use crate::codec::{
    spec_engine_cmd_bytes, spec_parse_line, UciInfo, UciToEngineCmd, UciToGuiCmd, UciToGuiCmdData,
};
use crate::moves::UciMove;

verus! {

/// The lifecycle of one engine subprocess: the handshake command is sent
/// on startup, and the session is ready once the engine confirms.
#[derive(Copy, Clone, Debug, PartialEq, Eq, Structural)]
pub enum EngineState {
    /// The subprocess was just spawned.
    Startup,
    /// The `uci` handshake command has been sent.
    UciInit,
    /// `uciok` was received; searches may be dispatched.
    Ready,
}

/// The identity an engine reports during the handshake.
#[derive(Debug, PartialEq, Eq)]
pub struct EngineId {
    pub name: Option<Vec<u8>>,
    pub author: Option<Vec<u8>>,
}

/// The mathematical value of an [`EngineId`].
pub ghost struct EngineIdData {
    pub name: Option<Seq<u8>>,
    pub author: Option<Seq<u8>>,
}

impl DeepView for EngineId {
    type V = EngineIdData;

    open spec fn deep_view(&self) -> EngineIdData {
        EngineIdData {
            name: match self.name {
                Some(ref n) => Some(n@),
                None => None,
            },
            author: match self.author {
                Some(ref a) => Some(a@),
                None => None,
            },
        }
    }
}

/// What one consumed line of engine output means to the caller.
pub enum SessionEvent {
    /// The engine finished its handshake and is ready to search.
    Initialized,
    /// The engine answered a search with its best move. Forwarded in any
    /// lifecycle state: some engines answer before re-announcing
    /// readiness.
    SearchResult { uci_move: UciMove },
    /// Search information to display.
    Info(Box<UciInfo>),
    /// The line was no command, or none that changes anything: engines
    /// routinely emit diagnostic text, which is ignorable noise.
    Noise,
}

/// One input consumed by a session, for stating trace properties: the
/// channel becoming writable, or one line of engine output.
pub ghost enum SessionInput {
    ChannelReady,
    Line(Seq<u8>),
}

/// The documented lifecycle transitions: the channel becoming ready
/// starts the handshake from `Startup`, and a parsed `uciok` completes it
/// from `UciInit`. Nothing else changes the lifecycle state.
pub open spec fn next_state(s: EngineState, ev: SessionInput) -> EngineState {
    match ev {
        SessionInput::ChannelReady => if s is Startup {
            EngineState::UciInit
        } else {
            s
        },
        SessionInput::Line(l) => if spec_parse_line(l) == Some(UciToGuiCmdData::UciOk) && s
            is UciInit {
            EngineState::Ready
        } else {
            s
        },
    }
}

/// The state after consuming a sequence of inputs.
pub open spec fn run(s: EngineState, evs: Seq<SessionInput>) -> EngineState
    decreases evs.len(),
{
    if evs.len() == 0 {
        s
    } else {
        next_state(run(s, evs.drop_last()), evs.last())
    }
}

/// The handshake is reached in order: a session that ran from `Startup`
/// into `UciInit` has consumed a channel-ready input.
pub proof fn lemma_uciinit_needs_channel(evs: Seq<SessionInput>)
    requires
        run(EngineState::Startup, evs) is UciInit || run(EngineState::Startup, evs) is Ready,
    ensures
        exists|i: int| 0 <= i < evs.len() && evs[i] is ChannelReady,
    decreases evs.len(),
{
    let pre = run(EngineState::Startup, evs.drop_last());
    if evs.last() is ChannelReady {
        assert(evs[evs.len() - 1] is ChannelReady);
    } else {
        lemma_uciinit_needs_channel(evs.drop_last());
        let i = choose|i: int|
            0 <= i < evs.drop_last().len() && evs.drop_last()[i] is ChannelReady;
        assert(evs[i] is ChannelReady);
    }
}

/// The sequencing invariant of the handshake: a session that ran from
/// `Startup` to `Ready` first consumed a channel-ready input and, at some
/// later point, a line parsing to `uciok`. A `uciok` cannot take effect
/// before the handshake command was sent.
pub proof fn lemma_ready_needs_handshake(evs: Seq<SessionInput>)
    requires
        run(EngineState::Startup, evs) is Ready,
    ensures
        exists|i: int, j: int|
            #![trigger evs[i], evs[j]]
            0 <= i < j < evs.len() && evs[i] is ChannelReady && (evs[j] matches
                SessionInput::Line(l) && spec_parse_line(l) == Some(UciToGuiCmdData::UciOk)),
    decreases evs.len(),
{
    let pre = run(EngineState::Startup, evs.drop_last());
    if pre is Ready {
        lemma_ready_needs_handshake(evs.drop_last());
        let (i, j) = choose|i: int, j: int|
            #![trigger evs.drop_last()[i], evs.drop_last()[j]]
            0 <= i < j < evs.drop_last().len() && evs.drop_last()[i] is ChannelReady && (
            evs.drop_last()[j] matches SessionInput::Line(l) && spec_parse_line(l) == Some(
                UciToGuiCmdData::UciOk,
            ));
        assert(evs[i] is ChannelReady);
        assert(evs[j] matches SessionInput::Line(l) && spec_parse_line(l) == Some(
            UciToGuiCmdData::UciOk,
        ));
    } else {
        assert(pre is UciInit);
        assert(evs.last() matches SessionInput::Line(l) && spec_parse_line(l) == Some(
            UciToGuiCmdData::UciOk,
        ));
        lemma_uciinit_needs_channel(evs.drop_last());
        let i = choose|i: int|
            0 <= i < evs.drop_last().len() && evs.drop_last()[i] is ChannelReady;
        let j = evs.len() - 1;
        assert(evs[i] is ChannelReady);
        assert(evs[j] matches SessionInput::Line(l) && spec_parse_line(l) == Some(
            UciToGuiCmdData::UciOk,
        ));
    }
}

/// One engine session: the lifecycle state and the reported identity.
#[derive(Debug)]
pub struct EngineSession {
    state: EngineState,
    id: EngineId,
}

impl EngineSession {
    /// The lifecycle state.
    pub closed spec fn spec_state(self) -> EngineState {
        self.state
    }

    /// The reported identity.
    pub closed spec fn spec_id(self) -> EngineIdData {
        self.id.deep_view()
    }

    /// A fresh session for a just-spawned subprocess.
    pub fn new() -> (r: EngineSession)
        ensures
            r.spec_state() == EngineState::Startup,
            r.spec_id() == (EngineIdData { name: None, author: None }),
    {
        EngineSession { state: EngineState::Startup, id: EngineId { name: None, author: None } }
    }

    /// The lifecycle state.
    pub fn state(&self) -> (r: EngineState)
        ensures
            r == self.spec_state(),
    {
        self.state
    }

    /// The engine's reported name, if any.
    pub fn name(&self) -> (r: &Option<Vec<u8>>)
        ensures
            self.spec_id().name == match r {
                Some(n) => Some(n@),
                None => None::<Seq<u8>>,
            },
    {
        &self.id.name
    }

    /// The engine's reported author, if any.
    pub fn author(&self) -> (r: &Option<Vec<u8>>)
        ensures
            self.spec_id().author == match r {
                Some(a) => Some(a@),
                None => None::<Seq<u8>>,
            },
    {
        &self.id.author
    }

    /// Whether searches may be dispatched to this session.
    pub fn ready(&self) -> (r: bool)
        ensures
            r == (self.spec_state() is Ready),
    {
        match self.state {
            EngineState::Ready => true,
            _ => false,
        }
    }

    /// Consume the event that the subprocess's channel became writable:
    /// from `Startup` this fires the handshake exactly once and yields
    /// the serialized `uci` command to write; later calls do nothing.
    pub fn on_channel_ready(&mut self) -> (r: Option<Vec<u8>>)
        ensures
            final(self).spec_state() == next_state(
                old(self).spec_state(),
                SessionInput::ChannelReady,
            ),
            final(self).spec_id() == old(self).spec_id(),
            old(self).spec_state() is Startup ==> (r matches Some(line) && line@
                == spec_engine_cmd_bytes(UciToEngineCmd::Uci)),
            !(old(self).spec_state() is Startup) ==> r is None,
    {
        match self.state {
            EngineState::Startup => {
                self.state = EngineState::UciInit;
                Some(UciToEngineCmd::Uci.serialize())
            },
            _ => None,
        }
    }

    /// Consume one line of engine output. An unparsable line is noise; a
    /// `uciok` in `UciInit` completes the handshake; an `id` line merges
    /// the present fields into the identity; `bestmove` and `info` are
    /// forwarded; nothing else changes the session.
    pub fn on_line(&mut self, line: &[u8]) -> (r: SessionEvent)
        ensures
            final(self).spec_state() == next_state(
                old(self).spec_state(),
                SessionInput::Line(line@),
            ),
            match spec_parse_line(line@) {
                None => r is Noise && final(self).spec_id() == old(self).spec_id(),
                Some(cmd) => match cmd {
                    UciToGuiCmdData::UciOk => {
                        &&& final(self).spec_id() == old(self).spec_id()
                        &&& if old(self).spec_state() is UciInit {
                            r is Initialized
                        } else {
                            r is Noise
                        }
                    },
                    UciToGuiCmdData::Id { name, author } => {
                        &&& r is Noise
                        &&& final(self).spec_id().name == if name is Some {
                            name
                        } else {
                            old(self).spec_id().name
                        }
                        &&& final(self).spec_id().author == if author is Some {
                            author
                        } else {
                            old(self).spec_id().author
                        }
                    },
                    UciToGuiCmdData::Info(i) => {
                        &&& r matches SessionEvent::Info(info) && info.deep_view() == i
                        &&& final(self).spec_id() == old(self).spec_id()
                    },
                    UciToGuiCmdData::BestMove { uci_move } => {
                        &&& r == (SessionEvent::SearchResult { uci_move })
                        &&& final(self).spec_id() == old(self).spec_id()
                    },
                },
            },
    {
        match UciToGuiCmd::parse(line) {
            Ok(cmd) => match cmd {
                UciToGuiCmd::UciOk => {
                    match self.state {
                        EngineState::UciInit => {
                            self.state = EngineState::Ready;
                            SessionEvent::Initialized
                        },
                        _ => SessionEvent::Noise,
                    }
                },
                UciToGuiCmd::Id { name, author } => {
                    if let Some(n) = name {
                        self.id.name = Some(n);
                    }
                    if let Some(a) = author {
                        self.id.author = Some(a);
                    }
                    SessionEvent::Noise
                },
                UciToGuiCmd::Info(info) => SessionEvent::Info(info),
                UciToGuiCmd::BestMove { uci_move } => SessionEvent::SearchResult { uci_move },
            },
            Err(_) => SessionEvent::Noise,
        }
    }
}

} // verus!
