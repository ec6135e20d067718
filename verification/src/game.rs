//! The game-history rule engine: an append-only action log with the
//! derived current position, the position-hash history for repetition
//! claims, and the ply counter for the fifty-move rule.

use vstd::prelude::*;

use crate::moves::Color;
use crate::bytes::{append_bytes, bytes_eq};
use crate::position::{ fen_of, hash_of, insufficient_of, is_check_of, legal_of, pos_after,
    pos_fen, pos_is_check, pos_insufficient_material, pos_legal_moves, pos_play, pos_turn,
    pos_variant_over, pos_zobrist, resolved_of, supported_of, token_legal_in, turn_of,
    BoardMove, MoveData,
};

verus! {

/// Why a draw may currently be claimed.
#[derive(Copy, Clone, Debug, PartialEq, Eq, Structural)]
pub enum DeclareDrawReason {
    /// The same position occurred at least three times. Under FIDE rules a
    /// fivefold repetition is an instant draw.
    Repetition { count: usize, claimed_by: Color },
    /// At least fifty plies were played without a capture or a pawn move.
    /// Under FIDE rules the game is drawn outright when the count reaches
    /// one hundred and fifty plies.
    FiftyMoveRule { ply_count: usize },
}

/// Why a decided game was decided.
#[derive(Copy, Clone, Debug, PartialEq, Eq, Structural)]
pub enum DecisiveReason {
    /// The winner delivered checkmate.
    Checkmate,
    /// The other player resigned.
    Resigned,
    /// Win by variant rules.
    Variant,
}

/// Why a drawn game was drawn.
#[derive(Copy, Clone, Debug, PartialEq, Eq, Structural)]
pub enum DrawReason {
    /// The current player has no legal move but is not in check.
    Stalemate,
    /// No player is able to deliver checkmate.
    InsufficientMaterial,
    /// Both players agreed to a draw.
    MutualAgreement,
    /// One of the players declared a draw, for the given reason.
    Declared(DeclareDrawReason),
    /// Draw by variant rules.
    Variant,
}

/// The terminal result of a game.
#[derive(Copy, Clone, Debug, PartialEq, Eq, Structural)]
pub enum Outcome {
    /// A player won the game.
    Decisive { winner: Color, reason: DecisiveReason },
    /// The game ended in a draw.
    Draw { reason: DrawReason },
}

/// The attempted action is not valid in the current game state.
#[derive(Copy, Clone, Debug, PartialEq, Eq, Structural)]
pub struct InvalidAction;

/// One entry of a game's action log.
#[derive(Debug, PartialEq, Eq)]
pub enum Action {
    /// A move on the board, validated against the position it was played
    /// in.
    Move(BoardMove),
    /// The given color offers the opponent a draw.
    OfferDraw(Color),
    /// The opponent accepted the previously offered draw.
    AcceptDraw,
    /// A draw is declared by a player.
    DeclareDraw(DeclareDrawReason),
    /// The given color resigns the game.
    Resign(Color),
}

/// The mathematical value of an [`Action`].
pub ghost enum ActionData {
    Move(MoveData),
    OfferDraw(Color),
    AcceptDraw,
    DeclareDraw(DeclareDrawReason),
    Resign(Color),
}

impl DeepView for Action {
    type V = ActionData;

    open spec fn deep_view(&self) -> ActionData {
        match self {
            Action::Move(m) => ActionData::Move(m@),
            Action::OfferDraw(c) => ActionData::OfferDraw(*c),
            Action::AcceptDraw => ActionData::AcceptDraw,
            Action::DeclareDraw(r) => ActionData::DeclareDraw(*r),
            Action::Resign(c) => ActionData::Resign(*c),
        }
    }
}

impl Clone for Action {
    /// Clones the action, preserving its value.
    fn clone(&self) -> (r: Self)
        ensures
            r.deep_view() == self.deep_view(),
    {
        match self {
            Action::Move(m) => Action::Move(m.clone()),
            Action::OfferDraw(c) => Action::OfferDraw(*c),
            Action::AcceptDraw => Action::AcceptDraw,
            Action::DeclareDraw(r) => Action::DeclareDraw(*r),
            Action::Resign(c) => Action::Resign(*c),
        }
    }
}

/// The moves of an action log, in order.
pub open spec fn moves_of(acts: Seq<ActionData>) -> Seq<MoveData>
    decreases acts.len(),
{
    if acts.len() == 0 {
        Seq::empty()
    } else {
        let pre = moves_of(acts.drop_last());
        match acts.last() {
            ActionData::Move(m) => pre.push(m),
            _ => pre,
        }
    }
}

/// The position reached by replaying a sequence of moves from `start`.
pub open spec fn replay(start: shakmaty::Chess, ms: Seq<MoveData>) -> shakmaty::Chess
    decreases ms.len(),
{
    if ms.len() == 0 {
        start
    } else {
        pos_after(replay(start, ms.drop_last()), ms.last())
    }
}

/// Whether a move resets the fifty-move ply counter: any capture, castle
/// or pawn move does.
pub open spec fn move_resets(m: MoveData) -> bool {
    m.capture || m.castle || m.pawn
}

/// The fifty-move ply counter after a sequence of moves: zero after a
/// resetting move, otherwise one more than before.
pub open spec fn fifty_counter(ms: Seq<MoveData>) -> nat
    decreases ms.len(),
{
    if ms.len() == 0 {
        0
    } else if move_resets(ms.last()) {
        0
    } else {
        fifty_counter(ms.drop_last()) + 1
    }
}

/// The fifty-move counter never exceeds the number of moves played.
pub proof fn lemma_fifty_le_len(ms: Seq<MoveData>)
    ensures
        fifty_counter(ms) <= ms.len(),
    decreases ms.len(),
{
    if ms.len() > 0 {
        lemma_fifty_le_len(ms.drop_last());
    }
}

/// Appending an action extends the move sequence exactly when the action
/// is a move.
pub proof fn lemma_moves_of_push(acts: Seq<ActionData>, a: ActionData)
    ensures
        moves_of(acts.push(a)) == match a {
            ActionData::Move(m) => moves_of(acts).push(m),
            _ => moves_of(acts),
        },
{
    assert(acts.push(a).drop_last() =~= acts);
    assert(acts.push(a).last() == a);
}

/// The moves rendered as UCI tokens, each preceded by a single space.
pub open spec fn tokens_with_spaces(ms: Seq<MoveData>) -> Seq<u8>
    decreases ms.len(),
{
    if ms.len() == 0 {
        Seq::empty()
    } else {
        tokens_with_spaces(ms.drop_last()) + seq![32u8] + ms.last().token
    }
}

/// A count clamped into `usize`.
pub open spec fn saturated(n: nat) -> usize {
    if n > usize::MAX {
        usize::MAX
    } else {
        n as usize
    }
}

/// Counts how many entries of `v` equal `h`.
fn count_hash(v: &Vec<u128>, h: u128) -> (r: usize)
    ensures
        r == count_eq(v@, h),
{
    let mut c: usize = 0;
    let mut i: usize = 0;
    while i < v.len()
        invariant
            i <= v.len(),
            c == count_eq(v@.take(i as int), h),
            c <= i,
        decreases v.len() - i,
    {
        proof {
            assert(v@.take(i + 1).drop_last() =~= v@.take(i as int));
            assert(v@.take(i + 1).last() == v@[i as int]);
        }
        if v[i] == h {
            c = c + 1;
        }
        i = i + 1;
    }
    proof {
        assert(v@.take(v@.len() as int) =~= v@);
    }
    c
}

/// How many entries of a hash history equal `h`.
pub open spec fn count_eq(s: Seq<u128>, h: u128) -> nat
    decreases s.len(),
{
    if s.len() == 0 {
        0
    } else {
        count_eq(s.drop_last(), h) + if s.last() == h {
            1nat
        } else {
            0nat
        }
    }
}

/// The count of a hash is bounded by the history length.
pub proof fn lemma_count_le_len(s: Seq<u128>, h: u128)
    ensures
        count_eq(s, h) <= s.len(),
    decreases s.len(),
{
    if s.len() > 0 {
        lemma_count_le_len(s.drop_last(), h);
    }
}

/// Every recorded move is exactly the move the position capability
/// resolves its token to in the position it was played in, and was legal
/// there.
pub open spec fn moves_consistent(start: shakmaty::Chess, ms: Seq<MoveData>) -> bool {
    forall|i: int|
        #![trigger ms[i]]
        0 <= i < ms.len() ==> {
            &&& token_legal_in(replay(start, ms.take(i)), ms[i].token)
            &&& ms[i] == resolved_of(replay(start, ms.take(i)), ms[i].token)
        }
}

/// Every position the game went through, the start included, is
/// reachable from the standard starting position, so move generation is
/// safe on each of them.
pub open spec fn prefixes_supported(start: shakmaty::Chess, ms: Seq<MoveData>) -> bool {
    forall|i: int| 0 <= i <= ms.len() ==> supported_of(#[trigger] replay(start, ms.take(i)))
}

/// A game: the start position, the action log, and the state derived from
/// them.
#[derive(Debug)]
pub struct Game {
    /// The position from which the game started.
    start_position: shakmaty::Chess,
    /// All actions that have happened throughout the game.
    actions: Vec<Action>,
    /// The position resulting from playing all moves of the action log on
    /// the start position.
    current_position: shakmaty::Chess,
    /// Zobrist hashes of all positions which have occurred during the
    /// game, the start position included.
    position_hashes: Vec<u128>,
    /// The number of plies without captures or pawn pushes.
    fifty_move_plies: usize,
}

impl Game {
    /// The recorded action log.
    pub closed spec fn acts(self) -> Seq<ActionData> {
        self.actions.deep_view()
    }

    /// The start position.
    pub closed spec fn start(self) -> shakmaty::Chess {
        self.start_position
    }

    /// The current position.
    pub closed spec fn current(self) -> shakmaty::Chess {
        self.current_position
    }

    /// The hash history, one entry per position reached.
    pub closed spec fn hashes(self) -> Seq<u128> {
        self.position_hashes@
    }

    /// The fifty-move ply counter.
    pub closed spec fn fifty(self) -> usize {
        self.fifty_move_plies
    }

    /// The derived state agrees with the action log: the current position
    /// is the replay of all recorded moves, the hash history mirrors every
    /// replay prefix, and the ply counter follows the fifty-move rule.
    pub open spec fn wf(self) -> bool {
        &&& self.current() == replay(self.start(), moves_of(self.acts()))
        &&& self.hashes().len() == moves_of(self.acts()).len() + 1
        &&& forall|i: int|
            0 <= i < self.hashes().len() ==> self.hashes()[i] == hash_of(
                replay(self.start(), moves_of(self.acts()).take(i)),
            )
        &&& self.fifty() == fifty_counter(moves_of(self.acts()))
        &&& moves_consistent(self.start(), moves_of(self.acts()))
        &&& prefixes_supported(self.start(), moves_of(self.acts()))
    }

    /// The current position of a coherent game is itself among the
    /// supported prefix positions.
    proof fn lemma_current_supported(self)
        requires
            self.wf(),
        ensures
            supported_of(self.current()),
    {
        let ms = moves_of(self.acts());
        assert(ms.take(ms.len() as int) =~= ms);
        assert(supported_of(replay(self.start(), ms.take(ms.len() as int))));
    }

    /// Create a new game starting at the given position, which must be
    /// one the board rules support: reachable from the standard start.
    pub fn from_start_position(start_position: shakmaty::Chess) -> (g: Game)
        requires
            supported_of(start_position),
        ensures
            g.wf(),
            g.start() == start_position,
            g.current() == start_position,
            g.acts() == Seq::<ActionData>::empty(),
            g.hashes() == seq![hash_of(start_position)],
            g.fifty() == 0,
    {
        let h = pos_zobrist(&start_position);
        let mut position_hashes: Vec<u128> = Vec::new();
        position_hashes.push(h);
        let g = Game {
            current_position: start_position.clone(),
            position_hashes,
            start_position,
            actions: Vec::new(),
            fifty_move_plies: 0,
        };
        proof {
            assert(g.acts() =~= Seq::<ActionData>::empty());
            assert(g.hashes() =~= seq![hash_of(start_position)]);
            assert(moves_of(g.acts()).take(0) =~= Seq::<MoveData>::empty());
            assert(replay(g.start(), moves_of(g.acts()).take(0)) == start_position);
        }
        g
    }

    /// The start position of the game.
    pub fn start_position(&self) -> (r: &shakmaty::Chess)
        ensures
            *r == self.start(),
    {
        &self.start_position
    }

    /// The current position of the game.
    pub fn current_position(&self) -> (r: &shakmaty::Chess)
        ensures
            *r == self.current(),
    {
        &self.current_position
    }

    /// All actions which happened in the game.
    pub fn actions(&self) -> (r: &Vec<Action>)
        ensures
            r.deep_view() == self.acts(),
    {
        &self.actions
    }

    /// The FEN rendering of the current position.
    pub fn current_fen(&self) -> (r: Vec<u8>)
        ensures
            r@ == fen_of(self.current()),
    {
        pos_fen(&self.current_position)
    }

    /// The number of plies since the last capture, castle or pawn move.
    pub fn fifty_move_plies(&self) -> (r: usize)
        ensures
            r == self.fifty(),
    {
        self.fifty_move_plies
    }

    /// The side to move in the current position.
    pub fn turn(&self) -> (r: Color)
        ensures
            r == turn_of(self.current()),
    {
        pos_turn(&self.current_position)
    }

    /// All moves played in the game, in order.
    pub fn moves(&self) -> (r: Vec<BoardMove>)
        ensures
            r.deep_view() == moves_of(self.acts()),
    {
        let mut out: Vec<BoardMove> = Vec::new();
        let mut i: usize = 0;
        while i < self.actions.len()
            invariant
                i <= self.actions.len(),
                out.deep_view() == moves_of(self.acts().take(i as int)),
            decreases self.actions.len() - i,
        {
            proof {
                assert(self.acts().take(i + 1).drop_last() =~= self.acts().take(i as int));
                assert(self.acts().take(i + 1).last() == self.acts()[i as int]);
                assert(self.acts()[i as int] == self.actions@[i as int].deep_view());
            }
            match &self.actions[i] {
                Action::Move(m) => {
                    out.push(m.clone());
                    proof {
                        assert(out.deep_view() =~= moves_of(self.acts().take(i + 1)));
                    }
                },
                _ => {
                    proof {
                        assert(out.deep_view() =~= moves_of(self.acts().take(i + 1)));
                    }
                },
            }
            i = i + 1;
        }
        proof {
            assert(self.acts().take(self.actions.len() as int) =~= self.acts());
        }
        out
    }

    /// Whether the game is over, and why, evaluated in priority order:
    /// no legal moves (checkmate or stalemate), insufficient material,
    /// then a terminal last action.
    pub open spec fn spec_outcome(self) -> Option<Outcome> {
        let p = self.current();
        if legal_of(p).len() == 0 {
            if is_check_of(p) {
                Some(
                    Outcome::Decisive {
                        winner: turn_of(p).spec_other(),
                        reason: DecisiveReason::Checkmate,
                    },
                )
            } else {
                Some(Outcome::Draw { reason: DrawReason::Stalemate })
            }
        } else if insufficient_of(p) {
            Some(Outcome::Draw { reason: DrawReason::InsufficientMaterial })
        } else if self.acts().len() > 0 {
            match self.acts().last() {
                ActionData::Resign(c) => Some(
                    Outcome::Decisive { winner: c.spec_other(), reason: DecisiveReason::Resigned },
                ),
                ActionData::AcceptDraw => Some(
                    Outcome::Draw { reason: DrawReason::MutualAgreement },
                ),
                ActionData::DeclareDraw(r) => Some(
                    Outcome::Draw { reason: DrawReason::Declared(r) },
                ),
                _ => None,
            }
        } else {
            None
        }
    }

    /// Check if the game has ended and get the corresponding reason.
    /// Returns `None` while the game is ongoing.
    pub fn game_outcome(&self) -> (r: Option<Outcome>)
        requires
            self.wf(),
        ensures
            r == self.spec_outcome(),
    {
        proof {
            self.lemma_current_supported();
        }
        if pos_variant_over(&self.current_position) {
            // Standard chess has no variant ending; this branch is dead by
            // the wrapper's contract.
            return None;
        }
        let legal = pos_legal_moves(&self.current_position);
        proof {
            assert(legal.deep_view().len() == legal@.len());
        }
        if legal.len() == 0 {
            if pos_is_check(&self.current_position) {
                let t = pos_turn(&self.current_position);
                Some(Outcome::Decisive { winner: t.other(), reason: DecisiveReason::Checkmate })
            } else {
                Some(Outcome::Draw { reason: DrawReason::Stalemate })
            }
        } else if pos_insufficient_material(&self.current_position) {
            Some(Outcome::Draw { reason: DrawReason::InsufficientMaterial })
        } else if self.actions.len() > 0 {
            proof {
                assert(self.acts().last() == self.actions@[self.actions@.len() - 1].deep_view());
            }
            match &self.actions[self.actions.len() - 1] {
                Action::Resign(c) => Some(
                    Outcome::Decisive { winner: c.other(), reason: DecisiveReason::Resigned },
                ),
                Action::AcceptDraw => Some(Outcome::Draw { reason: DrawReason::MutualAgreement }),
                Action::DeclareDraw(reason) => Some(
                    Outcome::Draw { reason: DrawReason::Declared(*reason) },
                ),
                _ => None,
            }
        } else {
            None
        }
    }

    /// Offer a draw to the opponent; `color` is the player who offers.
    /// Fails exactly when the game is already over, leaving it unchanged.
    pub fn offer_draw(&mut self, color: Color) -> (r: Result<(), InvalidAction>)
        requires
            old(self).wf(),
        ensures
            r is Ok <==> old(self).spec_outcome() is None,
            r is Err ==> *final(self) == *old(self),
            r is Ok ==> {
                &&& final(self).acts() == old(self).acts().push(ActionData::OfferDraw(color))
                &&& final(self).start() == old(self).start()
                &&& final(self).current() == old(self).current()
                &&& final(self).hashes() == old(self).hashes()
                &&& final(self).fifty() == old(self).fifty()
                &&& final(self).wf()
                &&& final(self).spec_outcome() is None
            },
    {
        if self.game_outcome().is_some() {
            Err(InvalidAction)
        } else {
            self.actions.push(Action::OfferDraw(color));
            proof {
                assert(self.acts() =~= old(self).acts().push(ActionData::OfferDraw(color)));
                self.lemma_non_move_push(*old(self), ActionData::OfferDraw(color));
            }
            Ok(())
        }
    }

    /// `color` resigns the game. Fails exactly when the game is already
    /// over, leaving it unchanged.
    pub fn resign(&mut self, color: Color) -> (r: Result<(), InvalidAction>)
        requires
            old(self).wf(),
        ensures
            r is Ok <==> old(self).spec_outcome() is None,
            r is Err ==> *final(self) == *old(self),
            r is Ok ==> {
                &&& final(self).acts() == old(self).acts().push(ActionData::Resign(color))
                &&& final(self).start() == old(self).start()
                &&& final(self).current() == old(self).current()
                &&& final(self).hashes() == old(self).hashes()
                &&& final(self).fifty() == old(self).fifty()
                &&& final(self).wf()
                &&& final(self).spec_outcome() == Some(
                    Outcome::Decisive { winner: color.spec_other(), reason: DecisiveReason::Resigned },
                )
            },
    {
        if self.game_outcome().is_some() {
            Err(InvalidAction)
        } else {
            self.actions.push(Action::Resign(color));
            proof {
                assert(self.acts() =~= old(self).acts().push(ActionData::Resign(color)));
                self.lemma_non_move_push(*old(self), ActionData::Resign(color));
            }
            Ok(())
        }
    }

    /// A draw may be accepted exactly when the last action is a draw
    /// offer, or the last action is a move and the offer by the side that
    /// has just moved stands directly before it: an offer survives exactly
    /// one move by the offering side.
    pub open spec fn spec_accept_ok(self) -> bool {
        let acts = self.acts();
        if acts.len() == 0 {
            false
        } else {
            ||| acts.last() is OfferDraw
            ||| (acts.last() is Move && acts.len() >= 2 && acts[acts.len() - 2]
                == ActionData::OfferDraw(turn_of(self.current()).spec_other()))
        }
    }

    /// Accept a draw offer from the opponent. Fails unless the game is
    /// ongoing and an offer stands as described by
    /// [`Game::spec_accept_ok`], leaving the game unchanged.
    pub fn accept_draw(&mut self) -> (r: Result<(), InvalidAction>)
        requires
            old(self).wf(),
        ensures
            r is Ok <==> (old(self).spec_outcome() is None && old(self).spec_accept_ok()),
            r is Err ==> *final(self) == *old(self),
            r is Ok ==> {
                &&& final(self).acts() == old(self).acts().push(ActionData::AcceptDraw)
                &&& final(self).start() == old(self).start()
                &&& final(self).current() == old(self).current()
                &&& final(self).hashes() == old(self).hashes()
                &&& final(self).fifty() == old(self).fifty()
                &&& final(self).wf()
                &&& final(self).spec_outcome() == Some(
                    Outcome::Draw { reason: DrawReason::MutualAgreement },
                )
            },
    {
        if self.game_outcome().is_some() {
            return Err(InvalidAction);
        }
        let n = self.actions.len();
        if n == 0 {
            return Err(InvalidAction);
        }
        proof {
            assert(self.acts().last() == self.actions@[n - 1].deep_view());
        }
        let accept = match &self.actions[n - 1] {
            Action::OfferDraw(_) => true,
            Action::Move(_) => {
                if n >= 2 {
                    proof {
                        assert(self.acts()[n - 2] == self.actions@[n - 2].deep_view());
                    }
                    let t = pos_turn(&self.current_position);
                    match &self.actions[n - 2] {
                        Action::OfferDraw(c) => *c == t.other(),
                        _ => false,
                    }
                } else {
                    false
                }
            },
            _ => false,
        };
        if accept {
            self.actions.push(Action::AcceptDraw);
            proof {
                assert(self.acts() =~= old(self).acts().push(ActionData::AcceptDraw));
                self.lemma_non_move_push(*old(self), ActionData::AcceptDraw);
            }
            Ok(())
        } else {
            Err(InvalidAction)
        }
    }

    /// Whether some legal move of the current position has this UCI
    /// token.
    pub fn is_legal_token(&self, token: &[u8]) -> (r: bool)
        requires
            supported_of(self.current()),
        ensures
            r == token_legal_in(self.current(), token@),
    {
        let legal = pos_legal_moves(&self.current_position);
        let ghost l = legal_of(self.current());
        proof {
            assert(legal.deep_view().len() == legal@.len());
        }
        let mut i: usize = 0;
        while i < legal.len()
            invariant
                i <= legal.len(),
                legal.deep_view() == l,
                l == legal_of(self.current()),
                legal@.len() == l.len(),
                forall|j: int| 0 <= j < i ==> l[j].token != token@,
            decreases legal.len() - i,
        {
            proof {
                assert(l[i as int] == legal@[i as int].deep_view());
            }
            if bytes_eq(legal[i].token.as_slice(), token) {
                return true;
            }
            i = i + 1;
        }
        proof {
            assert(!token_legal_in(self.current(), token@));
        }
        false
    }

    /// Resolve a UCI move token against the current position and play the
    /// resolved move: the move is appended to the log, the current
    /// position, hash history and ply counter advance. Fails exactly when
    /// the game is over or no legal move has this token, leaving the game
    /// unchanged.
    pub fn play_token(&mut self, token: &[u8]) -> (r: Result<(), InvalidAction>)
        requires
            old(self).wf(),
        ensures
            r is Ok <==> (old(self).spec_outcome() is None && token_legal_in(
                old(self).current(),
                token@,
            )),
            r is Err ==> *final(self) == *old(self),
            r is Ok ==> ({
                let md = resolved_of(old(self).current(), token@);
                &&& md.token == token@
                &&& exists|i: int|
                    0 <= i < legal_of(old(self).current()).len() && legal_of(
                        old(self).current(),
                    )[i] == md
                &&& final(self).acts() == old(self).acts().push(ActionData::Move(md))
                &&& final(self).start() == old(self).start()
                &&& final(self).current() == pos_after(old(self).current(), md)
                &&& final(self).hashes() == old(self).hashes().push(
                    hash_of(final(self).current()),
                )
                &&& final(self).fifty() == if move_resets(md) {
                    0
                } else {
                    old(self).fifty() + 1
                }
                &&& final(self).wf()
            }),
    {
        proof {
            self.lemma_current_supported();
        }
        if self.game_outcome().is_some() {
            return Err(InvalidAction);
        }
        if !self.is_legal_token(token) {
            return Err(InvalidAction);
        }
        match pos_play(&self.current_position, token) {
            Some(pair) => {
                let (q, bm) = pair;
                let h = pos_zobrist(&q);
                let resets = bm.capture || bm.castle || bm.pawn;
                let ghost md = resolved_of(old(self).current(), token@);
                let ghost pre_moves = moves_of(old(self).acts());
                proof {
                    lemma_fifty_le_len(pre_moves);
                    assert(old(self).position_hashes.len() == old(self).hashes().len());
                }
                self.actions.push(Action::Move(bm));
                self.current_position = q;
                self.position_hashes.push(h);
                if resets {
                    self.fifty_move_plies = 0;
                } else {
                    self.fifty_move_plies = self.fifty_move_plies + 1;
                }
                proof {
                    assert(self.acts() =~= old(self).acts().push(ActionData::Move(md)));
                    assert(self.hashes() =~= old(self).hashes().push(hash_of(self.current())));
                    lemma_moves_of_push(old(self).acts(), ActionData::Move(md));
                    let ms = moves_of(self.acts());
                    assert(ms == pre_moves.push(md));
                    assert(ms.drop_last() =~= pre_moves);
                    assert(self.current() == replay(self.start(), ms));
                    assert forall|i: int| 0 <= i < self.hashes().len() implies self.hashes()[i]
                        == hash_of(replay(self.start(), ms.take(i))) by {
                        if i < old(self).hashes().len() {
                            assert(ms.take(i) =~= pre_moves.take(i));
                        } else {
                            assert(ms.take(i) =~= ms);
                        }
                    }
                    assert forall|i: int| 0 <= i <= ms.len() implies supported_of(
                        #[trigger] replay(self.start(), ms.take(i)),
                    ) by {
                        if i < ms.len() {
                            assert(ms.take(i) =~= pre_moves.take(i));
                            assert(supported_of(replay(self.start(), pre_moves.take(i))));
                        } else {
                            assert(ms.take(i) =~= ms);
                        }
                    }
                    assert forall|i: int| #![trigger ms[i]] 0 <= i < ms.len() implies {
                        &&& token_legal_in(replay(self.start(), ms.take(i)), ms[i].token)
                        &&& ms[i] == resolved_of(replay(self.start(), ms.take(i)), ms[i].token)
                    } by {
                        if i < pre_moves.len() {
                            assert(ms.take(i) =~= pre_moves.take(i));
                            assert(ms[i] == pre_moves[i]);
                        } else {
                            assert(ms.take(i) =~= pre_moves);
                            assert(ms[i] == md);
                            assert(md.token == token@);
                        }
                    }
                }
                Ok(())
            },
            None => {
                proof {
                    assert(false);
                }
                Err(InvalidAction)
            },
        }
    }

    /// The hash of the position reached by playing the `i`-th legal move
    /// of the current position.
    pub open spec fn sim_hash(self, i: int) -> u128 {
        hash_of(
            pos_after(
                self.current(),
                resolved_of(self.current(), legal_of(self.current())[i].token),
            ),
        )
    }

    /// Scans the legal moves from index `i` for the first whose resulting
    /// position would complete at least a threefold repetition, and gives
    /// the repetition count it would reach.
    pub open spec fn sim_rep_from(self, i: int) -> Option<nat>
        decreases legal_of(self.current()).len() - i,
    {
        if i < 0 || i >= legal_of(self.current()).len() {
            None
        } else if count_eq(self.hashes(), self.sim_hash(i)) + 1 >= 3 {
            Some(count_eq(self.hashes(), self.sim_hash(i)) + 1)
        } else {
            self.sim_rep_from(i + 1)
        }
    }

    /// Why a draw may currently be claimed: the fifty-move rule once the
    /// ply counter reaches fifty, else a repetition that either has
    /// already occurred three times or that the player to move can
    /// complete with one of the legal moves. `None` when the game is over
    /// or no claim stands.
    pub open spec fn spec_can_declare(self) -> Option<DeclareDrawReason> {
        if self.spec_outcome() is Some {
            None
        } else if self.fifty() >= 50 {
            Some(DeclareDrawReason::FiftyMoveRule { ply_count: self.fifty() })
        } else if self.hashes().len() == 0 {
            None
        } else if count_eq(self.hashes(), self.hashes().last()) >= 3 {
            Some(
                DeclareDrawReason::Repetition {
                    count: saturated(count_eq(self.hashes(), self.hashes().last())),
                    claimed_by: turn_of(self.current()),
                },
            )
        } else {
            match self.sim_rep_from(0) {
                Some(c) => Some(
                    DeclareDrawReason::Repetition {
                        count: saturated(c),
                        claimed_by: turn_of(self.current()),
                    },
                ),
                None => None,
            }
        }
    }

    /// Determine if a draw can be declared.
    pub fn can_declare_draw(&self) -> (r: Option<DeclareDrawReason>)
        requires
            self.wf(),
        ensures
            r == self.spec_can_declare(),
    {
        proof {
            self.lemma_current_supported();
        }
        if self.game_outcome().is_some() {
            return None;
        }
        if self.fifty_move_plies >= 50 {
            return Some(DeclareDrawReason::FiftyMoveRule { ply_count: self.fifty_move_plies });
        }
        if self.position_hashes.len() == 0 {
            return None;
        }
        let last_hash = self.position_hashes[self.position_hashes.len() - 1];
        let reps = count_hash(&self.position_hashes, last_hash);
        proof {
            lemma_count_le_len(self.hashes(), last_hash);
            assert(self.position_hashes.len() == self.hashes().len());
        }
        if reps >= 3 {
            return Some(
                DeclareDrawReason::Repetition {
                    count: reps,
                    claimed_by: pos_turn(&self.current_position),
                },
            );
        }
        let legal = pos_legal_moves(&self.current_position);
        let ghost l = legal_of(self.current());
        proof {
            assert(legal.deep_view().len() == legal@.len());
        }
        let mut i: usize = 0;
        while i < legal.len()
            invariant
                i <= legal.len(),
                legal.deep_view() == l,
                l == legal_of(self.current()),
                legal@.len() == l.len(),
                self.sim_rep_from(0) == self.sim_rep_from(i as int),
                self.spec_outcome() is None,
                self.fifty() < 50,
                self.hashes().len() > 0,
                count_eq(self.hashes(), self.hashes().last()) < 3,
                supported_of(self.current()),
            decreases legal.len() - i,
        {
            proof {
                assert(l[i as int] == legal@[i as int].deep_view());
            }
            proof {
                assert(token_legal_in(self.current(), legal@[i as int].token@));
            }
            match pos_play(&self.current_position, legal[i].token.as_slice()) {
                Some(pair) => {
                    let h = pos_zobrist(&pair.0);
                    proof {
                        assert(h == self.sim_hash(i as int));
                    }
                    let c = count_hash(&self.position_hashes, h);
                    proof {
                        lemma_count_le_len(self.hashes(), h);
                    }
                    if c >= 2 {
                        return Some(
                            DeclareDrawReason::Repetition {
                                count: c.saturating_add(1),
                                claimed_by: pos_turn(&self.current_position),
                            },
                        );
                    }
                },
                None => {
                    proof {
                        assert(false);
                    }
                },
            }
            i = i + 1;
        }
        None
    }

    /// Try to declare the game a draw. Fails exactly when no draw can be
    /// declared, leaving the game unchanged.
    pub fn declare_draw(&mut self) -> (r: Result<(), InvalidAction>)
        requires
            old(self).wf(),
        ensures
            r is Ok <==> old(self).spec_can_declare() is Some,
            r is Err ==> *final(self) == *old(self),
            r is Ok ==> ({
                let reason = old(self).spec_can_declare().unwrap();
                &&& final(self).acts() == old(self).acts().push(ActionData::DeclareDraw(reason))
                &&& final(self).start() == old(self).start()
                &&& final(self).current() == old(self).current()
                &&& final(self).hashes() == old(self).hashes()
                &&& final(self).fifty() == old(self).fifty()
                &&& final(self).wf()
                &&& final(self).spec_outcome() == Some(
                    Outcome::Draw { reason: DrawReason::Declared(reason) },
                )
            }),
    {
        match self.can_declare_draw() {
            Some(reason) => {
                self.actions.push(Action::DeclareDraw(reason));
                proof {
                    assert(self.acts() =~= old(self).acts().push(ActionData::DeclareDraw(reason)));
                    self.lemma_non_move_push(*old(self), ActionData::DeclareDraw(reason));
                }
                Ok(())
            },
            None => Err(InvalidAction),
        }
    }

    /// Apply one action to the game, validating it against the current
    /// state first: a move must be legal in the current position, a draw
    /// offer or resignation needs an ongoing game, accepting a draw needs
    /// a standing offer, and declaring a draw needs exactly the claim that
    /// is currently available. An invalid action is rejected and the game
    /// is unchanged.
    pub fn apply(&mut self, action: &Action) -> (r: Result<(), InvalidAction>)
        requires
            old(self).wf(),
        ensures
            final(self).wf(),
            r is Err ==> *final(self) == *old(self),
            r is Ok ==> final(self).acts().drop_last() == old(self).acts(),
            (action matches Action::Move(m) ==> {
                &&& (r is Ok <==> (old(self).spec_outcome() is None && token_legal_in(
                    old(self).current(),
                    m.token@,
                )))
                &&& (r is Ok ==> final(self).acts() == old(self).acts().push(
                    ActionData::Move(resolved_of(old(self).current(), m.token@)),
                ))
            }),
            (action matches Action::OfferDraw(c) ==> {
                &&& (r is Ok <==> old(self).spec_outcome() is None)
                &&& (r is Ok ==> final(self).acts() == old(self).acts().push(
                    ActionData::OfferDraw(*c),
                ))
            }),
            (action is AcceptDraw ==> {
                &&& (r is Ok <==> (old(self).spec_outcome() is None
                    && old(self).spec_accept_ok()))
                &&& (r is Ok ==> final(self).acts() == old(self).acts().push(
                    ActionData::AcceptDraw,
                ))
            }),
            (action matches Action::DeclareDraw(reason) ==> {
                &&& (r is Ok <==> old(self).spec_can_declare() == Some(*reason))
                &&& (r is Ok ==> final(self).acts() == old(self).acts().push(
                    ActionData::DeclareDraw(*reason),
                ))
            }),
            (action matches Action::Resign(c) ==> {
                &&& (r is Ok <==> old(self).spec_outcome() is None)
                &&& (r is Ok ==> final(self).acts() == old(self).acts().push(
                    ActionData::Resign(*c),
                ))
            }),
    {
        let r = match action {
            Action::Move(m) => self.play_token(m.token.as_slice()),
            Action::OfferDraw(c) => self.offer_draw(*c),
            Action::AcceptDraw => self.accept_draw(),
            Action::DeclareDraw(reason) => {
                let available = self.can_declare_draw();
                match available {
                    Some(have) => {
                        if have == *reason {
                            self.declare_draw()
                        } else {
                            Err(InvalidAction)
                        }
                    },
                    None => Err(InvalidAction),
                }
            },
            Action::Resign(c) => self.resign(*c),
        };
        proof {
            if r is Ok {
                assert(self.acts().drop_last() =~= old(self).acts());
            }
        }
        r
    }

    /// The position and move history of the game in the form the UCI
    /// `position` command takes: the start position's FEN, then the moves
    /// in UCI notation.
    pub open spec fn spec_uci_position(self) -> Seq<u8> {
        let head = seq![102u8, 101u8, 110u8, 32u8] + fen_of(self.start());
        let ms = moves_of(self.acts());
        if ms.len() == 0 {
            head
        } else {
            head + seq![32u8, 109u8, 111u8, 118u8, 101u8, 115u8] + tokens_with_spaces(ms)
        }
    }

    /// The position with move history in UCI notation: `fen <FEN>` with
    /// ` moves <move> <move> ...` appended when moves were played.
    pub fn uci_position_with_moves(&self) -> (r: Vec<u8>)
        ensures
            r@ == self.spec_uci_position(),
    {
        let mut out: Vec<u8> = Vec::new();
        out.push(102);
        out.push(101);
        out.push(110);
        out.push(32);
        let fen = pos_fen(&self.start_position);
        append_bytes(&mut out, fen.as_slice());
        let ghost head = seq![102u8, 101u8, 110u8, 32u8] + fen_of(self.start());
        proof {
            assert(out@ =~= head);
        }
        let ms = self.moves();
        proof {
            assert(ms.deep_view().len() == ms@.len());
        }
        if ms.len() == 0 {
            return out;
        }
        out.push(32);
        out.push(109);
        out.push(111);
        out.push(118);
        out.push(101);
        out.push(115);
        let ghost head2 = head + seq![32u8, 109u8, 111u8, 118u8, 101u8, 115u8];
        proof {
            assert(out@ =~= head2);
        }
        let mut i: usize = 0;
        while i < ms.len()
            invariant
                i <= ms.len(),
                ms.deep_view() == moves_of(self.acts()),
                ms@.len() == ms.deep_view().len(),
                out@ == head2 + tokens_with_spaces(ms.deep_view().take(i as int)),
            decreases ms.len() - i,
        {
            out.push(32);
            append_bytes(&mut out, ms[i].token.as_slice());
            i = i + 1;
            proof {
                let pre = ms.deep_view().take(i - 1);
                let cur = ms.deep_view().take(i as int);
                assert(cur.drop_last() =~= pre);
                assert(cur.last() == ms.deep_view()[i - 1]);
                assert(ms.deep_view()[i - 1] == ms@[i - 1].deep_view());
                assert(out@ =~= head2 + tokens_with_spaces(cur));
            }
        }
        proof {
            assert(ms.deep_view().take(ms@.len() as int) =~= ms.deep_view());
        }
        out
    }

    /// Pushing a non-move action onto the log leaves every derived
    /// component of the game state unchanged: helper for the mutators
    /// above.
    proof fn lemma_non_move_push(self, pre: Game, a: ActionData)
        requires
            !(a is Move),
            self.acts() == pre.acts().push(a),
            self.start() == pre.start(),
            self.current() == pre.current(),
            self.hashes() == pre.hashes(),
            self.fifty() == pre.fifty(),
        ensures
            pre.wf() ==> self.wf(),
    {
        lemma_moves_of_push(pre.acts(), a);
    }
}

impl Clone for Game {
    /// Clones the game, preserving every component of its state.
    fn clone(&self) -> (r: Self)
        ensures
            r.acts() == self.acts(),
            r.start() == self.start(),
            r.current() == self.current(),
            r.hashes() == self.hashes(),
            r.fifty() == self.fifty(),
            self.wf() ==> r.wf(),
    {
        let mut actions: Vec<Action> = Vec::new();
        let mut i: usize = 0;
        while i < self.actions.len()
            invariant
                i <= self.actions.len(),
                actions@.len() == i,
                forall|k: int|
                    0 <= k < i ==> #[trigger] actions@[k].deep_view()
                        == self.actions@[k].deep_view(),
            decreases self.actions.len() - i,
        {
            let a = self.actions[i].clone();
            actions.push(a);
            i = i + 1;
        }
        let mut position_hashes: Vec<u128> = Vec::new();
        let mut j: usize = 0;
        while j < self.position_hashes.len()
            invariant
                j <= self.position_hashes.len(),
                position_hashes@ == self.position_hashes@.take(j as int),
            decreases self.position_hashes.len() - j,
        {
            position_hashes.push(self.position_hashes[j]);
            j = j + 1;
            proof {
                assert(position_hashes@ =~= self.position_hashes@.take(j as int));
            }
        }
        proof {
            assert(actions.deep_view() =~= self.actions.deep_view());
            assert(position_hashes@ =~= self.position_hashes@);
        }
        Game {
            start_position: self.start_position.clone(),
            actions,
            current_position: self.current_position.clone(),
            position_hashes,
            fifty_move_plies: self.fifty_move_plies,
        }
    }
}

/// Replaying the recorded moves onto the start position reproduces the
/// derived state exactly: the current position is the full replay, and
/// the hash history holds the hash of every replay prefix of the action
/// log, so any prefix of the log can be replayed from scratch to the
/// position the game was in at that point.
pub proof fn lemma_replay_reproduces_state(g: Game)
    requires
        g.wf(),
    ensures
        g.current() == replay(g.start(), moves_of(g.acts())),
        g.hashes().len() == moves_of(g.acts()).len() + 1,
        forall|i: int|
            0 <= i <= moves_of(g.acts()).len() ==> g.hashes()[i] == hash_of(
                replay(g.start(), moves_of(g.acts()).take(i)),
            ),
{
}

/// After a run of `n` non-resetting moves at the end of the game — the
/// whole game, or a run straight after a resetting move — the fifty-move
/// ply counter equals exactly `n`.
pub proof fn lemma_fifty_counts_quiet_run(ms: Seq<MoveData>, n: int)
    requires
        0 <= n <= ms.len(),
        forall|i: int| ms.len() - n <= i < ms.len() ==> !move_resets(ms[i]),
        n == ms.len() || move_resets(ms[ms.len() - n - 1]),
    ensures
        fifty_counter(ms) == n,
    decreases n,
{
    if n == 0 {
        if ms.len() > 0 {
            assert(move_resets(ms.last()));
        }
    } else {
        assert(!move_resets(ms.last()));
        let pre = ms.drop_last();
        assert forall|i: int| pre.len() - (n - 1) <= i < pre.len() implies !move_resets(
            pre[i],
        ) by {
            assert(pre[i] == ms[i]);
        }
        if n - 1 < pre.len() {
            assert(pre[pre.len() - (n - 1) - 1] == ms[ms.len() - n - 1]);
        }
        lemma_fifty_counts_quiet_run(pre, n - 1);
    }
}

/// A draw is claimable under the fifty-move rule exactly when the ply
/// counter has reached fifty (in an ongoing game), and the claim carries
/// the counter's value.
pub proof fn lemma_fifty_claim_iff(g: Game)
    requires
        g.spec_outcome() is None,
    ensures
        g.fifty() >= 50 ==> g.spec_can_declare() == Some(
            DeclareDrawReason::FiftyMoveRule { ply_count: g.fifty() },
        ),
        g.fifty() < 50 ==> !(g.spec_can_declare() matches Some(
            DeclareDrawReason::FiftyMoveRule { .. },
        )),
{
}

/// Whether a claimable draw reason is one that FIDE rules draw outright:
/// a fivefold repetition, or one hundred and fifty plies without capture
/// or pawn move.
pub open spec fn forced_draw_reason(r: DeclareDrawReason) -> bool {
    match r {
        DeclareDrawReason::Repetition { count, claimed_by } => count >= 5,
        DeclareDrawReason::FiftyMoveRule { ply_count } => ply_count >= 150,
    }
}

} // verus!