//! The chess-position capability: the board rules the game engine is built
//! on. Move legality, position hashing and text renderings are delegated
//! to the `shakmaty` crate; everything the rest of the crate learns about
//! a position flows through the named spec functions and the trusted
//! wrappers in this module.

use vstd::prelude::*;

use crate::bytes::clone_bytes;

verus! {

/// The opaque position type of the `shakmaty` crate.
#[verifier::external_type_specification]
#[verifier::external_body]
pub struct ExChess(shakmaty::Chess);

/// A board move as the game history records it: the move's UCI token and
/// the three facts about it that the fifty-move rule depends on.
#[derive(Debug, PartialEq, Eq)]
pub struct BoardMove {
    /// The move in UCI notation, e.g. `e2e4`.
    pub token: Vec<u8>,
    /// The move captures a piece (including en passant).
    pub capture: bool,
    /// The move is a castling move.
    pub castle: bool,
    /// The moved piece is a pawn.
    pub pawn: bool,
}

/// The mathematical value of a [`BoardMove`].
pub ghost struct MoveData {
    pub token: Seq<u8>,
    pub capture: bool,
    pub castle: bool,
    pub pawn: bool,
}

impl View for BoardMove {
    type V = MoveData;

    open spec fn view(&self) -> MoveData {
        MoveData {
            token: self.token@,
            capture: self.capture,
            castle: self.castle,
            pawn: self.pawn,
        }
    }
}

impl DeepView for BoardMove {
    type V = MoveData;

    open spec fn deep_view(&self) -> MoveData {
        self.view()
    }
}

impl Clone for BoardMove {
    /// Clones the move, preserving its value.
    fn clone(&self) -> (r: Self)
        ensures
            r@ == self@,
    {
        BoardMove {
            token: clone_bytes(&self.token),
            capture: self.capture,
            castle: self.castle,
            pawn: self.pawn,
        }
    }
}

/// The legal moves of a position, in the order `shakmaty` generates them.
pub uninterp spec fn legal_of(p: shakmaty::Chess) -> Seq<MoveData>;

/// The position reached from `p` by playing a legal move.
pub uninterp spec fn pos_after(p: shakmaty::Chess, m: MoveData) -> shakmaty::Chess;

/// The side to move.
pub uninterp spec fn turn_of(p: shakmaty::Chess) -> crate::moves::Color;

/// The Zobrist hash of a position. Positions that are equal for the
/// purposes of the repetition rules hash equal.
pub uninterp spec fn hash_of(p: shakmaty::Chess) -> u128;

/// The FEN rendering of a position.
pub uninterp spec fn fen_of(p: shakmaty::Chess) -> Seq<u8>;

/// Whether the side to move is in check.
pub uninterp spec fn is_check_of(p: shakmaty::Chess) -> bool;

/// Whether neither side has sufficient material to deliver checkmate.
pub uninterp spec fn insufficient_of(p: shakmaty::Chess) -> bool;

/// The SAN rendering of the legal move with the given UCI token.
pub uninterp spec fn san_of(p: shakmaty::Chess, token: Seq<u8>) -> Seq<u8>;

/// The move that `shakmaty::uci::UciMove::to_move` resolves a UCI token
/// to in a position, rendered as a plain record.
pub uninterp spec fn resolved_of(p: shakmaty::Chess, token: Seq<u8>) -> MoveData;

/// Whether some legal move of `p` has the given UCI token.
pub open spec fn token_legal_in(p: shakmaty::Chess, token: Seq<u8>) -> bool {
    exists|i: int| 0 <= i < legal_of(p).len() && legal_of(p)[i].token == token
}

/// Whether a position is reachable from the standard starting position
/// by legal moves. `shakmaty` sizes its move list for such positions (no
/// reachable position has more than 256 legal moves), but lets a caller
/// build over-full boards through `PositionError::ignore_too_much_material`,
/// on which move generation would overflow and panic. The wrappers that
/// generate or resolve moves therefore require this of their position;
/// the starting position has it, and playing a legal move keeps it.
pub uninterp spec fn supported_of(p: shakmaty::Chess) -> bool;

/// The FEN of the standard starting position.
pub const START_FEN: [u8; 56] = [114, 110, 98, 113, 107, 98, 110, 114, 47, 112, 112, 112, 112, 112, 112, 112, 112, 47, 56, 47, 56, 47, 56, 47, 56, 47, 80, 80, 80, 80, 80, 80, 80, 80, 47, 82, 78, 66, 81, 75, 66, 78, 82, 32, 119, 32, 75, 81, 107, 113, 32, 45, 32, 48, 32, 49];

/// Relies on `shakmaty::Chess::default`: the standard starting position,
/// with White to move and the well-known FEN.
#[verifier::external_body]
pub fn chess_start() -> (r: shakmaty::Chess)
    ensures
        turn_of(r) == crate::moves::Color::White,
        fen_of(r) == START_FEN@,
        supported_of(r),
{
    shakmaty::Chess::default()
}

/// Relies on the derived `Clone` of `shakmaty::Chess`, which copies the
/// position value.
pub assume_specification[ <shakmaty::Chess as Clone>::clone ](p: &shakmaty::Chess) -> (r:
    shakmaty::Chess)
    ensures
        r == *p,
;

/// Relies on `shakmaty::Position::turn`.
#[verifier::external_body]
pub fn pos_turn(p: &shakmaty::Chess) -> (r: crate::moves::Color)
    ensures
        r == turn_of(*p),
{
    match shakmaty::Position::turn(p) {
        shakmaty::Color::White => crate::moves::Color::White,
        shakmaty::Color::Black => crate::moves::Color::Black,
    }
}

/// Relies on `shakmaty::Position::is_check`.
#[verifier::external_body]
pub fn pos_is_check(p: &shakmaty::Chess) -> (r: bool)
    ensures
        r == is_check_of(*p),
{
    shakmaty::Position::is_check(p)
}

/// Relies on `shakmaty::Position::is_insufficient_material`: true when
/// neither side can possibly deliver checkmate.
#[verifier::external_body]
pub fn pos_insufficient_material(p: &shakmaty::Chess) -> (r: bool)
    ensures
        r == insufficient_of(*p),
{
    shakmaty::Position::is_insufficient_material(p)
}

/// Relies on `shakmaty::Position::variant_outcome`, which for standard
/// chess (`shakmaty::Chess`) always returns `None`.
#[verifier::external_body]
pub fn pos_variant_over(p: &shakmaty::Chess) -> (r: bool)
    ensures
        r == false,
{
    shakmaty::Position::variant_outcome(p).is_some()
}

/// Relies on `shakmaty::Position::legal_moves`, and on
/// `shakmaty::uci::UciMove::from_standard` plus `Move::is_capture`,
/// `Move::is_castle` and `Move::role` to render each generated move as a
/// plain record. Move generation is only sized for positions reachable
/// from the standard start, hence the requirement.
#[verifier::external_body]
pub fn pos_legal_moves(p: &shakmaty::Chess) -> (r: Vec<BoardMove>)
    requires
        supported_of(*p),
    ensures
        r.deep_view() == legal_of(*p),
{
    let mut out = Vec::new();
    for m in shakmaty::Position::legal_moves(p) {
        let mut token = Vec::new();
        shakmaty::uci::UciMove::from_standard(&m).append_ascii_to(&mut token);
        out.push(
            BoardMove {
                token,
                capture: m.is_capture(),
                castle: m.is_castle(),
                pawn: m.role() == shakmaty::Role::Pawn,
            },
        );
    }
    out
}

/// Relies on `shakmaty::uci::UciMove::from_ascii`, `UciMove::to_move` and
/// `Position::play_unchecked`: resolves a UCI token against the position
/// and plays the resolved move. Resolution succeeds exactly on the tokens
/// `to_move` accepts; every token rendered from a legal move is among
/// them, and the resolved move is one of the legal moves. A legal move
/// from a position reachable from the standard start reaches another
/// such position.
#[verifier::external_body]
pub fn pos_play(p: &shakmaty::Chess, token: &[u8]) -> (r: Option<(shakmaty::Chess, BoardMove)>)
    requires
        supported_of(*p),
    ensures
        token_legal_in(*p, token@) ==> r.is_some(),
        r matches Some(pair) ==> {
            &&& pair.1.deep_view() == resolved_of(*p, token@)
            &&& exists|i: int|
                0 <= i < legal_of(*p).len() && legal_of(*p)[i] == resolved_of(*p, token@)
            &&& pair.0 == pos_after(*p, resolved_of(*p, token@))
            &&& supported_of(pair.0)
            &&& (token_legal_in(*p, token@) ==> resolved_of(*p, token@).token == token@)
        },
{
    let m = shakmaty::uci::UciMove::from_ascii(token).ok()?.to_move(p).ok()?;
    let mut q = p.clone();
    shakmaty::Position::play_unchecked(&mut q, &m);
    let mut t = Vec::new();
    shakmaty::uci::UciMove::from_standard(&m).append_ascii_to(&mut t);
    let capture = m.is_capture();
    let castle = m.is_castle();
    let pawn = m.role() == shakmaty::Role::Pawn;
    Some((q, BoardMove { token: t, capture, castle, pawn }))
}

/// Relies on `shakmaty::zobrist::ZobristHash::zobrist_hash` with
/// `EnPassantMode::Legal`: a 128-bit Zobrist hash of the position, a
/// function of the position alone.
#[verifier::external_body]
pub fn pos_zobrist(p: &shakmaty::Chess) -> (r: u128)
    ensures
        r == hash_of(*p),
{
    let h: shakmaty::zobrist::Zobrist128 = shakmaty::zobrist::ZobristHash::zobrist_hash(
        p,
        shakmaty::EnPassantMode::Legal,
    );
    h.0
}

/// Relies on `shakmaty::fen::Fen::from_position` with
/// `EnPassantMode::Legal`: the FEN rendering of the position.
#[verifier::external_body]
pub fn pos_fen(p: &shakmaty::Chess) -> (r: Vec<u8>)
    ensures
        r@ == fen_of(*p),
{
    shakmaty::fen::Fen::from_position(p.clone(), shakmaty::EnPassantMode::Legal)
        .to_string()
        .into_bytes()
}

/// Relies on `shakmaty::san::San::from_move` (after resolving the token
/// through `UciMove::from_ascii` and `UciMove::to_move`): the SAN
/// rendering of the legal move named by the token, in a position
/// reachable from the standard start.
#[verifier::external_body]
pub fn pos_san(p: &shakmaty::Chess, token: &[u8]) -> (r: Vec<u8>)
    requires
        supported_of(*p),
        token_legal_in(*p, token@),
    ensures
        r@ == san_of(*p, token@),
{
    let uci = shakmaty::uci::UciMove::from_ascii(token).expect("token is legal");
    let m = uci.to_move(p).expect("token is legal");
    shakmaty::san::San::from_move(p, &m).to_string().into_bytes()
}

} // verus!
