//! Portable game notation (PGN): renders an entire game as tag pairs and
//! numbered moves in SAN.

use vstd::prelude::*;

use crate::bytes::append_bytes;
use crate::codec::dec_bytes;
use crate::game::{moves_consistent, moves_of, prefixes_supported, replay, Game, Outcome};
use crate::moves::Color;
use crate::position::{pos_play, pos_san, san_of, supported_of, token_legal_in, MoveData};

verus! {

/// The tag pairs up to the opening quote of the `Result` value.
pub const PGN_HEAD: [u8; 95] = [91, 69, 118, 101, 110, 116, 32, 34, 63, 34, 93, 10, 91, 83, 105, 116, 101, 32, 34, 102, 105, 115, 104, 112, 111, 110, 100, 34, 93, 10, 91, 68, 97, 116, 101, 32, 34, 63, 63, 63, 63, 46, 63, 63, 46, 63, 63, 34, 93, 10, 91, 82, 111, 117, 110, 100, 32, 34, 63, 34, 93, 10, 91, 87, 104, 105, 116, 101, 32, 34, 63, 34, 93, 10, 91, 66, 108, 97, 99, 107, 32, 34, 63, 34, 93, 10, 91, 82, 101, 115, 117, 108, 116, 32, 34];

/// The close of the `Result` tag and the blank line before the move
/// text.
pub const PGN_TAIL: [u8; 4] = [34, 93, 10, 10];

/// The PGN result string of a game state: `1-0`, `0-1`, `1/2-1/2` or `*`
/// for an ongoing game.
pub open spec fn result_bytes(o: Option<Outcome>) -> Seq<u8> {
    match o {
        Some(Outcome::Decisive { winner, reason }) => match winner {
            Color::White => seq![49u8, 45u8, 48u8],
            Color::Black => seq![48u8, 45u8, 49u8],
        },
        Some(Outcome::Draw { reason }) => seq![49u8, 47u8, 50u8, 45u8, 49u8, 47u8, 50u8],
        None => seq![42u8],
    }
}

/// The move text from move `i` onwards: a move number before each of
/// White's moves, then each move in SAN.
pub open spec fn spec_movetext(start: shakmaty::Chess, ms: Seq<MoveData>, i: int) -> Seq<u8>
    decreases ms.len() - i,
    when 0 <= i
{
    if i >= ms.len() {
        Seq::empty()
    } else {
        let p = replay(start, ms.take(i));
        let num: Seq<u8> = if i % 2 == 0 {
            (if i > 0 {
                seq![32u8]
            } else {
                Seq::<u8>::empty()
            }) + dec_bytes(i + 1) + seq![46u8]
        } else {
            Seq::empty()
        };
        num + seq![32u8] + san_of(p, ms[i].token) + spec_movetext(start, ms, i + 1)
    }
}

/// The whole PGN text of a game: the seven tag pairs, a blank line, the
/// move text, and the result once the game is over.
pub open spec fn spec_pgn(g: Game) -> Seq<u8> {
    let res = result_bytes(g.spec_outcome());
    PGN_HEAD@ + res + PGN_TAIL@ + spec_movetext(g.start(), moves_of(g.acts()), 0) + (
    if g.spec_outcome() is Some {
        seq![32u8] + res
    } else {
        Seq::<u8>::empty()
    })
}

/// Portable game notation for one recorded game.
pub struct Pgn {
    game: Game,
}

impl Pgn {
    /// The recorded game.
    pub closed spec fn spec_game(self) -> Game {
        self.game
    }

    /// Create a portable game notation for the given game.
    pub fn from_game(game: Game) -> (r: Pgn)
        ensures
            r.spec_game() == game,
    {
        Pgn { game }
    }

    /// Renders the game as PGN text.
    #[verifier::rlimit(100)]
    pub fn render(&self) -> (r: Vec<u8>)
        requires
            self.spec_game().wf(),
        ensures
            r@ == spec_pgn(self.spec_game()),
    {
        let g = &self.game;
        let mut out: Vec<u8> = Vec::new();
        append_bytes(&mut out, PGN_HEAD.as_slice());
        let over = g.game_outcome().is_some();
        self.append_result(&mut out);
        append_bytes(&mut out, PGN_TAIL.as_slice());
        let ms = g.moves();
        let ghost msd = moves_of(g.acts());
        proof {
            assert(ms.deep_view().len() == ms@.len());
            assert(msd.take(0) =~= Seq::<MoveData>::empty());
        }
        let mut q = g.start_position().clone();
        let mut i: usize = 0;
        let ghost head = PGN_HEAD@ + result_bytes(g.spec_outcome()) + PGN_TAIL@;
        while i < ms.len()
            invariant
                i <= ms@.len(),
                ms.deep_view() == msd,
                msd == moves_of(g.acts()),
                ms@.len() == msd.len(),
                moves_consistent(self.spec_game().start(), msd),
                prefixes_supported(self.spec_game().start(), msd),
                q == replay(self.spec_game().start(), msd.take(i as int)),
                out@ + spec_movetext(self.spec_game().start(), msd, i as int) == head
                    + spec_movetext(self.spec_game().start(), msd, 0),
            decreases ms@.len() - i,
        {
            let ghost out0 = out@;
            proof {
                assert(msd[i as int] == ms@[i as int].deep_view());
                assert(token_legal_in(q, msd[i as int].token));
                assert(supported_of(replay(self.spec_game().start(), msd.take(i as int))));
            }
            if i % 2 == 0 {
                if i > 0 {
                    out.push(32);
                }
                let digits = crate::codec::u64_dec((i as u64) + 1);
                append_bytes(&mut out, digits.as_slice());
                out.push(46);
            }
            out.push(32);
            let san = pos_san(&q, ms[i].token.as_slice());
            append_bytes(&mut out, san.as_slice());
            match pos_play(&q, ms[i].token.as_slice()) {
                Some(pair) => {
                    let (q2, played) = pair;
                    proof {
                        assert(msd.take(i + 1).drop_last() =~= msd.take(i as int));
                        assert(msd.take(i + 1).last() == msd[i as int]);
                    }
                    q = q2;
                },
                None => {
                    proof {
                        assert(false);
                    }
                },
            }
            proof {
                let start_ = self.spec_game().start();
                let p = replay(start_, msd.take(i as int));
                let num: Seq<u8> = if i % 2 == 0 {
                    (if i > 0 {
                        seq![32u8]
                    } else {
                        Seq::<u8>::empty()
                    }) + dec_bytes(i as int + 1) + seq![46u8]
                } else {
                    Seq::<u8>::empty()
                };
                assert(spec_movetext(start_, msd, i as int) == num + seq![32u8] + san_of(
                    p,
                    msd[i as int].token,
                ) + spec_movetext(start_, msd, i + 1));
                assert(out@ =~= out0 + num + seq![32u8] + san_of(p, msd[i as int].token));
                assert(out@ + spec_movetext(start_, msd, i + 1) =~= out0 + spec_movetext(
                    start_,
                    msd,
                    i as int,
                ));
            }
            i = i + 1;
        }
        proof {
            assert(msd.take(msd.len() as int) =~= msd);
            assert(out@ =~= head + spec_movetext(self.spec_game().start(), msd, 0));
        }
        if over {
            out.push(32);
            self.append_result(&mut out);
        }
        proof {
            assert(out@ =~= spec_pgn(self.spec_game()));
        }
        out
    }

    /// Appends the PGN result string for the game's outcome.
    fn append_result(&self, out: &mut Vec<u8>)
        requires
            self.spec_game().wf(),
        ensures
            final(out)@ == old(out)@ + result_bytes(self.spec_game().spec_outcome()),
    {
        match self.game.game_outcome() {
            Some(Outcome::Decisive { winner, reason }) => {
                match winner {
                    Color::White => {
                        out.push(49);
                        out.push(45);
                        out.push(48);
                    },
                    Color::Black => {
                        out.push(48);
                        out.push(45);
                        out.push(49);
                    },
                }
            },
            Some(Outcome::Draw { reason }) => {
                out.push(49);
                out.push(47);
                out.push(50);
                out.push(45);
                out.push(49);
                out.push(47);
                out.push(50);
            },
            None => {
                out.push(42);
            },
        }
        proof {
            assert(out@ =~= old(out)@ + result_bytes(self.spec_game().spec_outcome()));
        }
    }
}

} // verus!
