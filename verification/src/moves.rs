//! Plain data types for chess moves as they appear on the UCI wire:
//! colors, piece roles, squares, and the structured form of a UCI move
//! token together with its verified grammar.

use vstd::prelude::*;

verus! {

/// ASCII `a`.
pub const ASCII_LC_A: u8 = 97;

/// ASCII `h`.
pub const ASCII_LC_H: u8 = 104;

/// ASCII `1`.
pub const ASCII_ONE: u8 = 49;

/// ASCII `8`.
pub const ASCII_EIGHT: u8 = 56;

/// ASCII `0`.
pub const ASCII_ZERO: u8 = 48;

/// ASCII `@`.
pub const ASCII_AT: u8 = 64;

/// One of the two sides of a chess game.
#[derive(Copy, Clone, Debug, PartialEq, Eq, Structural)]
pub enum Color {
    White,
    Black,
}

impl Color {
    /// The opposing side.
    pub open spec fn spec_other(self) -> Color {
        match self {
            Color::White => Color::Black,
            Color::Black => Color::White,
        }
    }

    /// Returns the opposing side.
    pub fn other(self) -> (r: Color)
        ensures
            r == self.spec_other(),
    {
        match self {
            Color::White => Color::Black,
            Color::Black => Color::White,
        }
    }
}

/// The kind of a chess piece.
#[derive(Copy, Clone, Debug, PartialEq, Eq, Structural)]
pub enum Role {
    Pawn,
    Knight,
    Bishop,
    Rook,
    Queen,
    King,
}

/// A board square, as a zero-based file (column `a`..`h`) and rank
/// (row `1`..`8`).
#[derive(Copy, Clone, Debug, PartialEq, Eq, Structural)]
pub struct Square {
    pub file: u8,
    pub rank: u8,
}

impl Square {
    /// Both coordinates are on the board.
    pub open spec fn wf(self) -> bool {
        self.file < 8 && self.rank < 8
    }
}

/// A move in the form used by the UCI protocol: source and target squares
/// without any context from the position.
#[derive(Copy, Clone, Debug, PartialEq, Eq)]
pub enum UciMove {
    /// An ordinary move such as `e2e4`, or a promotion such as `e7e8q`.
    Normal { from: Square, to: Square, promotion: Option<Role> },
    /// A piece drop such as `Q@f7` (used by drop variants).
    Put { role: Role, to: Square },
    /// The null move, written `0000`.
    Null,
}

impl UciMove {
    /// All squares named by the move are on the board.
    pub open spec fn wf(self) -> bool {
        match self {
            UciMove::Normal { from, to, promotion } => from.wf() && to.wf(),
            UciMove::Put { role, to } => to.wf(),
            UciMove::Null => true,
        }
    }
}

/// Whether `b` is an ASCII file letter `a`..`h`.
pub open spec fn is_file_byte(b: u8) -> bool {
    ASCII_LC_A <= b && b <= ASCII_LC_H
}

/// Whether `b` is an ASCII rank digit `1`..`8`.
pub open spec fn is_rank_byte(b: u8) -> bool {
    ASCII_ONE <= b && b <= ASCII_EIGHT
}

/// The square named by a file letter and a rank digit.
pub open spec fn square_of_bytes(f: u8, r: u8) -> Square {
    Square { file: (f - ASCII_LC_A) as u8, rank: (r - ASCII_ONE) as u8 }
}

/// The role named by an ASCII letter, upper or lower case.
pub open spec fn role_of_byte(b: u8) -> Option<Role> {
    if b == 80 || b == 112 {
        Some(Role::Pawn)
    } else if b == 78 || b == 110 {
        Some(Role::Knight)
    } else if b == 66 || b == 98 {
        Some(Role::Bishop)
    } else if b == 82 || b == 114 {
        Some(Role::Rook)
    } else if b == 81 || b == 113 {
        Some(Role::Queen)
    } else if b == 75 || b == 107 {
        Some(Role::King)
    } else {
        None
    }
}

/// The lower-case letter of a role, as used for promotions.
pub open spec fn role_lower_byte(r: Role) -> u8 {
    match r {
        Role::Pawn => 112,
        Role::Knight => 110,
        Role::Bishop => 98,
        Role::Rook => 114,
        Role::Queen => 113,
        Role::King => 107,
    }
}

/// The upper-case letter of a role, as used for drops.
pub open spec fn role_upper_byte(r: Role) -> u8 {
    match r {
        Role::Pawn => 80,
        Role::Knight => 78,
        Role::Bishop => 66,
        Role::Rook => 82,
        Role::Queen => 81,
        Role::King => 75,
    }
}

/// The meaning of a UCI move token: `0000` is the null move, `X@fr` a
/// drop, `frfr` a plain move and `frfrx` a promotion. Any other byte
/// string is not a move token.
pub open spec fn spec_parse_move(t: Seq<u8>) -> Option<UciMove> {
    if t.len() == 4 {
        if t[0] == ASCII_ZERO && t[1] == ASCII_ZERO && t[2] == ASCII_ZERO && t[3] == ASCII_ZERO {
            Some(UciMove::Null)
        } else if t[1] == ASCII_AT {
            match role_of_byte(t[0]) {
                Some(role) => if is_file_byte(t[2]) && is_rank_byte(t[3]) {
                    Some(UciMove::Put { role, to: square_of_bytes(t[2], t[3]) })
                } else {
                    None
                },
                None => None,
            }
        } else if is_file_byte(t[0]) && is_rank_byte(t[1]) && is_file_byte(t[2]) && is_rank_byte(
            t[3],
        ) {
            Some(
                UciMove::Normal {
                    from: square_of_bytes(t[0], t[1]),
                    to: square_of_bytes(t[2], t[3]),
                    promotion: None,
                },
            )
        } else {
            None
        }
    } else if t.len() == 5 {
        if is_file_byte(t[0]) && is_rank_byte(t[1]) && is_file_byte(t[2]) && is_rank_byte(t[3]) {
            match role_of_byte(t[4]) {
                Some(role) => Some(
                    UciMove::Normal {
                        from: square_of_bytes(t[0], t[1]),
                        to: square_of_bytes(t[2], t[3]),
                        promotion: Some(role),
                    },
                ),
                None => None,
            }
        } else {
            None
        }
    } else {
        None
    }
}

/// The two bytes naming a square.
pub open spec fn square_bytes(s: Square) -> Seq<u8> {
    seq![(ASCII_LC_A + s.file) as u8, (ASCII_ONE + s.rank) as u8]
}

/// The canonical token of a move: lower-case promotion letters and
/// upper-case drop letters, as the UCI protocol writes them.
pub open spec fn spec_move_token(m: UciMove) -> Seq<u8> {
    match m {
        UciMove::Normal { from, to, promotion } => match promotion {
            Some(role) => square_bytes(from) + square_bytes(to) + seq![role_lower_byte(role)],
            None => square_bytes(from) + square_bytes(to),
        },
        UciMove::Put { role, to } => seq![role_upper_byte(role), ASCII_AT] + square_bytes(to),
        UciMove::Null => seq![ASCII_ZERO, ASCII_ZERO, ASCII_ZERO, ASCII_ZERO],
    }
}

/// Rendering a well-formed move and parsing the result gives the move
/// back: the move-token grammar round-trips.
pub proof fn lemma_move_token_round_trip(m: UciMove)
    requires
        m.wf(),
    ensures
        spec_parse_move(spec_move_token(m)) == Some(m),
{
    let t = spec_move_token(m);
    match m {
        UciMove::Normal { from, to, promotion } => {
            match promotion {
                Some(role) => {
                    assert(t.len() == 5);
                    assert(t[0] == ASCII_LC_A + from.file);
                    assert(t[4] == role_lower_byte(role));
                    assert(role_of_byte(role_lower_byte(role)) == Some(role));
                    assert(square_of_bytes(t[0], t[1]) == from);
                    assert(square_of_bytes(t[2], t[3]) == to);
                },
                None => {
                    assert(t.len() == 4);
                    assert(is_file_byte(t[0]) && !(t[0] == ASCII_ZERO) && !(t[0] == ASCII_AT));
                    assert(!(t[1] == ASCII_AT));
                    assert(square_of_bytes(t[0], t[1]) == from);
                    assert(square_of_bytes(t[2], t[3]) == to);
                },
            }
        },
        UciMove::Put { role, to } => {
            assert(t.len() == 4);
            assert(t[1] == ASCII_AT);
            assert(!(t[0] == ASCII_ZERO));
            assert(role_of_byte(role_upper_byte(role)) == Some(role));
            assert(square_of_bytes(t[2], t[3]) == to);
        },
        UciMove::Null => {
            assert(t.len() == 4);
        },
    }
}

/// Parses a UCI move token such as `e2e4`, `e7e8q`, `Q@f7` or `0000`.
pub fn parse_uci_move(t: &[u8]) -> (r: Option<UciMove>)
    ensures
        r == spec_parse_move(t@),
{
    if t.len() == 4 {
        if t[0] == ASCII_ZERO && t[1] == ASCII_ZERO && t[2] == ASCII_ZERO && t[3] == ASCII_ZERO {
            Some(UciMove::Null)
        } else if t[1] == ASCII_AT {
            match role_of_ascii(t[0]) {
                Some(role) => match square_of_ascii(t[2], t[3]) {
                    Some(to) => Some(UciMove::Put { role, to }),
                    None => None,
                },
                None => None,
            }
        } else {
            match (square_of_ascii(t[0], t[1]), square_of_ascii(t[2], t[3])) {
                (Some(from), Some(to)) => Some(
                    UciMove::Normal { from, to, promotion: None },
                ),
                _ => None,
            }
        }
    } else if t.len() == 5 {
        match (square_of_ascii(t[0], t[1]), square_of_ascii(t[2], t[3])) {
            (Some(from), Some(to)) => match role_of_ascii(t[4]) {
                Some(role) => Some(UciMove::Normal { from, to, promotion: Some(role) }),
                None => None,
            },
            _ => None,
        }
    } else {
        None
    }
}

/// Parses a square from its file and rank bytes.
fn square_of_ascii(f: u8, r: u8) -> (res: Option<Square>)
    ensures
        res == if is_file_byte(f) && is_rank_byte(r) {
            Some(square_of_bytes(f, r))
        } else {
            None::<Square>
        },
{
    if ASCII_LC_A <= f && f <= ASCII_LC_H && ASCII_ONE <= r && r <= ASCII_EIGHT {
        Some(Square { file: f - ASCII_LC_A, rank: r - ASCII_ONE })
    } else {
        None
    }
}

/// Parses a role letter, upper or lower case.
fn role_of_ascii(b: u8) -> (r: Option<Role>)
    ensures
        r == role_of_byte(b),
{
    if b == 80 || b == 112 {
        Some(Role::Pawn)
    } else if b == 78 || b == 110 {
        Some(Role::Knight)
    } else if b == 66 || b == 98 {
        Some(Role::Bishop)
    } else if b == 82 || b == 114 {
        Some(Role::Rook)
    } else if b == 81 || b == 113 {
        Some(Role::Queen)
    } else if b == 75 || b == 107 {
        Some(Role::King)
    } else {
        None
    }
}

/// Renders a move as its canonical UCI token.
pub fn uci_move_token(m: &UciMove) -> (r: Vec<u8>)
    requires
        m.wf(),
    ensures
        r@ == spec_move_token(*m),
{
    let mut out: Vec<u8> = Vec::new();
    match m {
        UciMove::Normal { from, to, promotion } => {
            out.push(ASCII_LC_A + from.file);
            out.push(ASCII_ONE + from.rank);
            out.push(ASCII_LC_A + to.file);
            out.push(ASCII_ONE + to.rank);
            match promotion {
                Some(role) => {
                    out.push(role_lower_ascii(*role));
                    assert(out@ =~= spec_move_token(*m));
                },
                None => {
                    assert(out@ =~= spec_move_token(*m));
                },
            }
        },
        UciMove::Put { role, to } => {
            out.push(role_upper_ascii(*role));
            out.push(ASCII_AT);
            out.push(ASCII_LC_A + to.file);
            out.push(ASCII_ONE + to.rank);
            assert(out@ =~= spec_move_token(*m));
        },
        UciMove::Null => {
            out.push(ASCII_ZERO);
            out.push(ASCII_ZERO);
            out.push(ASCII_ZERO);
            out.push(ASCII_ZERO);
            assert(out@ =~= spec_move_token(*m));
        },
    }
    out
}

/// The lower-case letter of a role.
fn role_lower_ascii(r: Role) -> (b: u8)
    ensures
        b == role_lower_byte(r),
{
    match r {
        Role::Pawn => 112,
        Role::Knight => 110,
        Role::Bishop => 98,
        Role::Rook => 114,
        Role::Queen => 113,
        Role::King => 107,
    }
}

/// The upper-case letter of a role.
fn role_upper_ascii(r: Role) -> (b: u8)
    ensures
        b == role_upper_byte(r),
{
    match r {
        Role::Pawn => 80,
        Role::Knight => 78,
        Role::Bishop => 66,
        Role::Rook => 82,
        Role::Queen => 81,
        Role::King => 75,
    }
}

/// Every move the token grammar produces is well-formed.
pub proof fn lemma_parsed_move_wf(t: Seq<u8>)
    ensures
        spec_parse_move(t) matches Some(m) ==> m.wf(),
{
}

} // verus!