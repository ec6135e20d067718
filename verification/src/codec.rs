//! The UCI wire-protocol codec: parsing engine output lines into
//! structured commands and serializing GUI commands into output lines.
//! Everything works on bytes; a line never includes its terminator.

use vstd::prelude::*;

use crate::bytes::{append_bytes, bytes_eq};
use crate::moves::{spec_parse_move, UciMove};

verus! {

/// A UCI line could not be parsed. Such lines are ignorable noise to the
/// session, never fatal.
#[derive(Copy, Clone, Debug, PartialEq, Eq, Structural)]
pub struct UciParseError;

/// The bytes of the keyword `uciok`.
pub const KW_UCIOK: [u8; 5] = [117, 99, 105, 111, 107];

/// The bytes of the keyword `id`.
pub const KW_ID: [u8; 2] = [105, 100];

/// The bytes of the keyword `name`.
pub const KW_NAME: [u8; 4] = [110, 97, 109, 101];

/// The bytes of the keyword `author`.
pub const KW_AUTHOR: [u8; 6] = [97, 117, 116, 104, 111, 114];

/// The bytes of the keyword `info`.
pub const KW_INFO: [u8; 4] = [105, 110, 102, 111];

/// The bytes of the keyword `bestmove`.
pub const KW_BESTMOVE: [u8; 8] = [98, 101, 115, 116, 109, 111, 118, 101];

/// The bytes of the keyword `depth`.
pub const KW_DEPTH: [u8; 5] = [100, 101, 112, 116, 104];

/// The bytes of the keyword `seldepth`.
pub const KW_SELDEPTH: [u8; 8] = [115, 101, 108, 100, 101, 112, 116, 104];

/// The bytes of the keyword `time`.
pub const KW_TIME: [u8; 4] = [116, 105, 109, 101];

/// The bytes of the keyword `nodes`.
pub const KW_NODES: [u8; 5] = [110, 111, 100, 101, 115];

/// The bytes of the keyword `pv`.
pub const KW_PV: [u8; 2] = [112, 118];

/// The bytes of the keyword `multipv`.
pub const KW_MULTIPV: [u8; 7] = [109, 117, 108, 116, 105, 112, 118];

/// The bytes of the keyword `score`.
pub const KW_SCORE: [u8; 5] = [115, 99, 111, 114, 101];

/// The bytes of the keyword `cp`.
pub const KW_CP: [u8; 2] = [99, 112];

/// The bytes of the keyword `mate`.
pub const KW_MATE: [u8; 4] = [109, 97, 116, 101];

/// The bytes of the keyword `lowerbound`.
pub const KW_LOWERBOUND: [u8; 10] = [108, 111, 119, 101, 114, 98, 111, 117, 110, 100];

/// The bytes of the keyword `upperbound`.
pub const KW_UPPERBOUND: [u8; 10] = [117, 112, 112, 101, 114, 98, 111, 117, 110, 100];

/// The bytes of the keyword `currmove`.
pub const KW_CURRMOVE: [u8; 8] = [99, 117, 114, 114, 109, 111, 118, 101];

/// The bytes of the keyword `currmovenumber`.
pub const KW_CURRMOVENUMBER: [u8; 14] = [99, 117, 114, 114, 109, 111, 118, 101, 110, 117, 109, 98, 101, 114];

/// The bytes of the keyword `hashfull`.
pub const KW_HASHFULL: [u8; 8] = [104, 97, 115, 104, 102, 117, 108, 108];

/// The bytes of the keyword `nps`.
pub const KW_NPS: [u8; 3] = [110, 112, 115];

/// The bytes of the keyword `tbhits`.
pub const KW_TBHITS: [u8; 6] = [116, 98, 104, 105, 116, 115];

/// The bytes of the keyword `sbhits`.
pub const KW_SBHITS: [u8; 6] = [115, 98, 104, 105, 116, 115];

/// The bytes of the keyword `cpuload`.
pub const KW_CPULOAD: [u8; 7] = [99, 112, 117, 108, 111, 97, 100];

/// The bytes of the keyword `string`.
pub const KW_STRING: [u8; 6] = [115, 116, 114, 105, 110, 103];

/// The bytes of the keyword `refutation`.
pub const KW_REFUTATION: [u8; 10] = [114, 101, 102, 117, 116, 97, 116, 105, 111, 110];

/// The bytes of the keyword `currentline`.
pub const KW_CURRENTLINE: [u8; 11] = [99, 117, 114, 114, 101, 110, 116, 108, 105, 110, 101];

/// Whether a byte is ASCII whitespace, as `split_ascii_whitespace` sees
/// it: space, tab, line feed, form feed or carriage return.
pub open spec fn is_ws(b: u8) -> bool {
    b == 32 || b == 9 || b == 10 || b == 12 || b == 13
}

/// Splits a byte string on ASCII whitespace: `cur` is the token read so
/// far, and each maximal non-whitespace run of `s` becomes one token.
pub open spec fn tok_rec(cur: Seq<u8>, s: Seq<u8>) -> Seq<Seq<u8>>
    decreases s.len(),
{
    if s.len() == 0 {
        if cur.len() == 0 {
            Seq::empty()
        } else {
            seq![cur]
        }
    } else if is_ws(s[0]) {
        if cur.len() == 0 {
            tok_rec(cur, s.skip(1))
        } else {
            seq![cur] + tok_rec(Seq::empty(), s.skip(1))
        }
    } else {
        tok_rec(cur.push(s[0]), s.skip(1))
    }
}

/// The whitespace-separated tokens of a byte string.
pub open spec fn spec_tokens(s: Seq<u8>) -> Seq<Seq<u8>> {
    tok_rec(Seq::empty(), s)
}

/// Splits a line into its whitespace-separated tokens.
pub fn tokenize(s: &[u8]) -> (r: Vec<Vec<u8>>)
    ensures
        r.deep_view() == spec_tokens(s@),
{
    let mut toks: Vec<Vec<u8>> = Vec::new();
    let mut cur: Vec<u8> = Vec::new();
    let mut i: usize = 0;
    proof {
        assert(s@.skip(0) =~= s@);
        assert(toks.deep_view() =~= Seq::<Seq<u8>>::empty());
        assert(Seq::<Seq<u8>>::empty() + tok_rec(cur@, s@) =~= tok_rec(cur@, s@));
    }
    while i < s.len()
        invariant
            i <= s.len(),
            toks.deep_view() + tok_rec(cur@, s@.skip(i as int)) == spec_tokens(s@),
        decreases s.len() - i,
    {
        let b = s[i];
        proof {
            assert(s@.skip(i as int)[0] == s@[i as int]);
            assert(s@.skip(i as int).skip(1) =~= s@.skip(i + 1));
        }
        if b == 32 || b == 9 || b == 10 || b == 12 || b == 13 {
            if cur.len() > 0 {
                let ghost pre = toks.deep_view();
                let ghost done = cur@;
                let ghost rest = tok_rec(Seq::empty(), s@.skip(i + 1));
                proof {
                    assert(tok_rec(done, s@.skip(i as int)) == seq![done] + rest);
                }
                toks.push(cur);
                cur = Vec::new();
                proof {
                    assert(cur@ =~= Seq::<u8>::empty());
                    assert(toks.deep_view() =~~= pre.push(done));
                    assert(pre.push(done) + rest =~= pre + (seq![done] + rest));
                }
            }
        } else {
            cur.push(b);
        }
        i = i + 1;
    }
    proof {
        assert(s@.skip(s@.len() as int) =~= Seq::<u8>::empty());
    }
    if cur.len() > 0 {
        let ghost pre = toks.deep_view();
        let ghost done = cur@;
        toks.push(cur);
        proof {
            assert(toks.deep_view() =~~= pre.push(done));
            assert(pre.push(done) =~= pre + seq![done]);
        }
    }
    toks
}

/// Whether a byte is an ASCII decimal digit.
pub open spec fn is_digit(b: u8) -> bool {
    48 <= b && b <= 57
}

/// Whether every byte of `t` is a decimal digit.
pub open spec fn all_digits(t: Seq<u8>) -> bool {
    forall|k: int| 0 <= k < t.len() ==> is_digit(#[trigger] t[k])
}

/// The value of a string of decimal digits.
pub open spec fn dec_val(t: Seq<u8>) -> int
    decreases t.len(),
{
    if t.len() == 0 {
        0
    } else {
        dec_val(t.drop_last()) * 10 + (t.last() - 48)
    }
}

/// The value of a digit string is non-negative.
pub proof fn lemma_dec_val_nonneg(t: Seq<u8>)
    requires
        all_digits(t),
    ensures
        dec_val(t) >= 0,
    decreases t.len(),
{
    if t.len() > 0 {
        assert(all_digits(t.drop_last()));
        lemma_dec_val_nonneg(t.drop_last());
        assert(dec_val(t.drop_last()) * 10 >= 0) by (nonlinear_arith)
            requires
                dec_val(t.drop_last()) >= 0,
        ;
    }
}

/// A prefix of a digit string has a value no larger than the whole.
pub proof fn lemma_dec_val_prefix(t: Seq<u8>, j: int)
    requires
        all_digits(t),
        0 <= j <= t.len(),
    ensures
        dec_val(t.take(j)) <= dec_val(t),
    decreases t.len() - j,
{
    if j < t.len() {
        let a = t.take(j);
        let b = t.take(j + 1);
        assert(b.drop_last() =~= a);
        assert(all_digits(a) && all_digits(b));
        lemma_dec_val_nonneg(a);
        assert(dec_val(b) == dec_val(a) * 10 + (b.last() - 48));
        assert(dec_val(a) * 10 >= dec_val(a)) by (nonlinear_arith)
            requires
                dec_val(a) >= 0,
        ;
        lemma_dec_val_prefix(t, j + 1);
    } else {
        assert(t.take(j) =~= t);
    }
}

/// The meaning of an unsigned decimal token: defined exactly when the
/// token is nonempty, all digits, and its value fits.
pub open spec fn spec_parse_u64(t: Seq<u8>) -> Option<u64> {
    if t.len() >= 1 && all_digits(t) && dec_val(t) <= u64::MAX {
        Some(dec_val(t) as u64)
    } else {
        None
    }
}

/// The meaning of an unsigned decimal token bounded by `u16`.
pub open spec fn spec_parse_u16(t: Seq<u8>) -> Option<u16> {
    if t.len() >= 1 && all_digits(t) && dec_val(t) <= u16::MAX {
        Some(dec_val(t) as u16)
    } else {
        None
    }
}

/// The meaning of a signed decimal token: an optional leading minus sign,
/// then digits, with the value in range for `i16`.
pub open spec fn spec_parse_i16(t: Seq<u8>) -> Option<i16> {
    if t.len() >= 2 && t[0] == 45 {
        let mag = t.skip(1);
        if all_digits(mag) && 0 - dec_val(mag) >= i16::MIN {
            Some((0 - dec_val(mag)) as i16)
        } else {
            None
        }
    } else if t.len() >= 1 && all_digits(t) && dec_val(t) <= i16::MAX {
        Some(dec_val(t) as i16)
    } else {
        None
    }
}

/// Parses the decimal digits of `t` from position `from` to the end.
fn parse_digits(t: &[u8], from: usize) -> (r: Result<u64, UciParseError>)
    requires
        from < t@.len(),
    ensures
        r matches Ok(v) ==> spec_parse_u64(t@.skip(from as int)) == Some(v),
        r is Err ==> spec_parse_u64(t@.skip(from as int)) is None,
{
    let ghost s = t@.skip(from as int);
    let mut acc: u64 = 0;
    let mut i: usize = from;
    proof {
        assert(t@.subrange(from as int, from as int) =~= Seq::<u8>::empty());
    }
    while i < t.len()
        invariant
            from <= i <= t@.len(),
            s == t@.skip(from as int),
            s.len() == t@.len() - from,
            forall|k: int| from <= k < i ==> is_digit(#[trigger] t@[k]),
            acc == dec_val(t@.subrange(from as int, i as int)),
        decreases t@.len() - i,
    {
        let b = t[i];
        if b < 48 || b > 57 {
            proof {
                assert(s[i - from] == t@[i as int]);
                assert(!all_digits(s));
            }
            return Err(UciParseError);
        }
        let d = (b - 48) as u64;
        proof {
            assert(t@.subrange(from as int, i + 1).drop_last() =~= t@.subrange(
                from as int,
                i as int,
            ));
            assert(t@.subrange(from as int, i + 1).last() == t@[i as int]);
        }
        let step = match acc.checked_mul(10) {
            Some(m) => m.checked_add(d),
            None => None,
        };
        match step {
            Some(n) => {
                acc = n;
            },
            None => {
                proof {
                    assert(dec_val(t@.subrange(from as int, i + 1)) > u64::MAX);
                    if all_digits(s) {
                        assert(forall|k: int|
                            0 <= k < s.len() ==> s[k] == #[trigger] t@[from + k]);
                        assert(s.take(i + 1 - from) =~= t@.subrange(from as int, i + 1));
                        lemma_dec_val_prefix(s, i + 1 - from);
                    }
                }
                return Err(UciParseError);
            },
        }
        i = i + 1;
    }
    proof {
        assert(t@.subrange(from as int, t@.len() as int) =~= s);
    }
    Ok(acc)
}

/// Parses an unsigned decimal token, as the numeric arguments of `info`
/// keywords are parsed.
pub fn parse_single(t: &[u8]) -> (r: Result<u64, UciParseError>)
    ensures
        r matches Ok(v) ==> spec_parse_u64(t@) == Some(v),
        r is Err ==> spec_parse_u64(t@) is None,
{
    if t.len() == 0 {
        return Err(UciParseError);
    }
    proof {
        assert(t@.skip(0) =~= t@);
    }
    parse_digits(t, 0)
}

/// Parses an unsigned decimal token bounded by `u16`, as permille values
/// are parsed.
pub fn parse_u16(t: &[u8]) -> (r: Result<u16, UciParseError>)
    ensures
        r matches Ok(v) ==> spec_parse_u16(t@) == Some(v),
        r is Err ==> spec_parse_u16(t@) is None,
{
    match parse_single(t) {
        Ok(v) => {
            proof {
                lemma_dec_val_nonneg(t@);
            }
            if v <= 65535 {
                Ok(v as u16)
            } else {
                Err(UciParseError)
            }
        },
        Err(e) => Err(e),
    }
}

/// Parses a signed decimal token, as score values are parsed.
pub fn parse_i16(t: &[u8]) -> (r: Result<i16, UciParseError>)
    ensures
        r matches Ok(v) ==> spec_parse_i16(t@) == Some(v),
        r is Err ==> spec_parse_i16(t@) is None,
{
    if t.len() >= 2 && t[0] == 45 {
        match parse_digits(t, 1) {
            Ok(v) => {
                proof {
                    lemma_dec_val_nonneg(t@.skip(1));
                }
                if v <= 32768 {
                    Ok((0 - (v as i32)) as i16)
                } else {
                    proof {
                        lemma_dec_val_nonneg(t@.skip(1));
                    }
                    Err(UciParseError)
                }
            },
            Err(e) => Err(e),
        }
    } else {
        match parse_single(t) {
            Ok(v) => {
                proof {
                    lemma_dec_val_nonneg(t@);
                }
                if v <= 32767 {
                    Ok(v as i16)
                } else {
                    Err(UciParseError)
                }
            },
            Err(e) => Err(e),
        }
    }
}


/// The score reported by an engine, from its own point of view.
#[derive(Copy, Clone, Debug, PartialEq, Eq, Structural)]
pub enum ScoreValue {
    /// The score in centipawns.
    Centipawns(i16),
    /// Moves (not plies) to mate; negative when the engine is getting
    /// mated.
    Mate(i16),
}

/// How exact a reported score is.
#[derive(Copy, Clone, Debug, PartialEq, Eq, Structural)]
pub enum ScoreBound {
    /// The score is exact.
    Exact,
    /// The score is just a lower bound.
    Lower,
    /// The score is just an upper bound.
    Upper,
}

/// A reported score together with its bound.
#[derive(Copy, Clone, Debug, PartialEq, Eq, Structural)]
pub struct Score {
    pub value: ScoreValue,
    pub bound: ScoreBound,
}

/// A refutation line reported by an engine.
#[derive(Clone, Debug, PartialEq, Eq)]
pub struct Refutation {
    /// The move the refutation is sent for.
    pub refuted_move: UciMove,
    /// The line that refutes the move; may be empty.
    pub refutation: Vec<UciMove>,
}

/// The mathematical value of a [`Refutation`].
pub ghost struct RefutationData {
    pub refuted_move: UciMove,
    pub refutation: Seq<UciMove>,
}

impl DeepView for Refutation {
    type V = RefutationData;

    open spec fn deep_view(&self) -> RefutationData {
        RefutationData { refuted_move: self.refuted_move, refutation: self.refutation@ }
    }
}

/// The line an engine is currently calculating.
#[derive(Clone, Debug, PartialEq, Eq)]
pub struct CurrentLine {
    /// The number of the CPU calculating the line, if reported.
    pub cpu_number: Option<u64>,
    /// The line itself.
    pub line: Vec<UciMove>,
}

/// The mathematical value of a [`CurrentLine`].
pub ghost struct CurrentLineData {
    pub cpu_number: Option<u64>,
    pub line: Seq<UciMove>,
}

impl DeepView for CurrentLine {
    type V = CurrentLineData;

    open spec fn deep_view(&self) -> CurrentLineData {
        CurrentLineData { cpu_number: self.cpu_number, line: self.line@ }
    }
}

/// The fields of an `info` line. Every field is optional and
/// independently present. Permille values (`hashfull`, `cpuload`) are
/// kept as the raw permille integer the protocol carries.
#[derive(Clone, Debug, PartialEq, Eq)]
pub struct UciInfo {
    /// Search depth in plies.
    pub depth: Option<u64>,
    /// Selective search depth in plies; engines send it only together
    /// with `depth`.
    pub selective_depth: Option<u64>,
    /// The time searched, in milliseconds.
    pub time: Option<u64>,
    /// Number of nodes searched.
    pub nodes: Option<u64>,
    /// The best line found.
    pub principal_variation: Option<Vec<UciMove>>,
    /// The rank of this line in multi-PV mode.
    pub multi_pv: Option<u64>,
    /// The score of this line.
    pub score: Option<Score>,
    /// The move currently being searched.
    pub current_move: Option<UciMove>,
    /// The one-based number of the move currently being searched.
    pub current_move_number: Option<u64>,
    /// How full the hash table is, in permille.
    pub hash_full: Option<u16>,
    /// Nodes searched per second.
    pub nodes_per_second: Option<u64>,
    /// Positions found in the endgame tablebases.
    pub table_hits: Option<u64>,
    /// Positions found in the shredder endgame databases.
    pub shredder_hits: Option<u64>,
    /// The CPU usage of the engine, in permille.
    pub cpu_load: Option<u16>,
    /// Free-form text to display; the rest of the line after the
    /// `string` keyword.
    pub string: Option<Vec<u8>>,
    /// The refutation of a move.
    pub refutation: Option<Refutation>,
    /// The line currently being calculated.
    pub current_line: Option<CurrentLine>,
}

/// The mathematical value of a [`UciInfo`].
pub ghost struct UciInfoData {
    pub depth: Option<u64>,
    pub selective_depth: Option<u64>,
    pub time: Option<u64>,
    pub nodes: Option<u64>,
    pub principal_variation: Option<Seq<UciMove>>,
    pub multi_pv: Option<u64>,
    pub score: Option<Score>,
    pub current_move: Option<UciMove>,
    pub current_move_number: Option<u64>,
    pub hash_full: Option<u16>,
    pub nodes_per_second: Option<u64>,
    pub table_hits: Option<u64>,
    pub shredder_hits: Option<u64>,
    pub cpu_load: Option<u16>,
    pub string: Option<Seq<u8>>,
    pub refutation: Option<RefutationData>,
    pub current_line: Option<CurrentLineData>,
}

impl DeepView for UciInfo {
    type V = UciInfoData;

    open spec fn deep_view(&self) -> UciInfoData {
        UciInfoData {
            depth: self.depth,
            selective_depth: self.selective_depth,
            time: self.time,
            nodes: self.nodes,
            principal_variation: match self.principal_variation {
                Some(ref v) => Some(v@),
                None => None,
            },
            multi_pv: self.multi_pv,
            score: self.score,
            current_move: self.current_move,
            current_move_number: self.current_move_number,
            hash_full: self.hash_full,
            nodes_per_second: self.nodes_per_second,
            table_hits: self.table_hits,
            shredder_hits: self.shredder_hits,
            cpu_load: self.cpu_load,
            string: match self.string {
                Some(ref s) => Some(s@),
                None => None,
            },
            refutation: match self.refutation {
                Some(ref r) => Some(r.deep_view()),
                None => None,
            },
            current_line: match self.current_line {
                Some(ref c) => Some(c.deep_view()),
                None => None,
            },
        }
    }
}

/// An `info` value with no field present.
pub open spec fn empty_info() -> UciInfoData {
    UciInfoData {
        depth: None,
        selective_depth: None,
        time: None,
        nodes: None,
        principal_variation: None,
        multi_pv: None,
        score: None,
        current_move: None,
        current_move_number: None,
        hash_full: None,
        nodes_per_second: None,
        table_hits: None,
        shredder_hits: None,
        cpu_load: None,
        string: None,
        refutation: None,
        current_line: None,
    }
}

impl Default for UciInfo {
    /// An `info` value with no field present.
    fn default() -> (r: Self)
        ensures
            r.deep_view() == empty_info(),
    {
        UciInfo {
            depth: None,
            selective_depth: None,
            time: None,
            nodes: None,
            principal_variation: None,
            multi_pv: None,
            score: None,
            current_move: None,
            current_move_number: None,
            hash_full: None,
            nodes_per_second: None,
            table_hits: None,
            shredder_hits: None,
            cpu_load: None,
            string: None,
            refutation: None,
            current_line: None,
        }
    }
}

/// A UCI command sent from the engine to the GUI.
#[derive(Debug, PartialEq, Eq)]
pub enum UciToGuiCmd {
    /// The engine finished the `uci` handshake.
    UciOk,
    /// The engine identifies itself; one line carries either a name or an
    /// author.
    Id { name: Option<Vec<u8>>, author: Option<Vec<u8>> },
    /// Search information.
    Info(Box<UciInfo>),
    /// The result of a search.
    BestMove { uci_move: UciMove },
}

/// The mathematical value of a [`UciToGuiCmd`].
pub ghost enum UciToGuiCmdData {
    UciOk,
    Id { name: Option<Seq<u8>>, author: Option<Seq<u8>> },
    Info(UciInfoData),
    BestMove { uci_move: UciMove },
}

impl DeepView for UciToGuiCmd {
    type V = UciToGuiCmdData;

    open spec fn deep_view(&self) -> UciToGuiCmdData {
        match self {
            UciToGuiCmd::UciOk => UciToGuiCmdData::UciOk,
            UciToGuiCmd::Id { name, author } => UciToGuiCmdData::Id {
                name: match name {
                    Some(n) => Some(n@),
                    None => None,
                },
                author: match author {
                    Some(a) => Some(a@),
                    None => None,
                },
            },
            UciToGuiCmd::Info(i) => UciToGuiCmdData::Info(i.deep_view()),
            UciToGuiCmd::BestMove { uci_move } => UciToGuiCmdData::BestMove {
                uci_move: *uci_move,
            },
        }
    }
}


/// The tokens joined with single spaces, as free-text arguments (engine
/// names, display strings) are reassembled.
pub open spec fn join_sp(ts: Seq<Seq<u8>>) -> Seq<u8>
    decreases ts.len(),
{
    if ts.len() == 0 {
        Seq::empty()
    } else if ts.len() == 1 {
        ts[0]
    } else {
        join_sp(ts.drop_last()) + seq![32u8] + ts.last()
    }
}

/// How many consecutive tokens parse as UCI moves, starting at `j`.
pub open spec fn run_len(toks: Seq<Seq<u8>>, j: int) -> nat
    decreases toks.len() - j,
    when 0 <= j
{
    if j >= toks.len() {
        0
    } else {
        match spec_parse_move(toks[j]) {
            Some(_) => 1 + run_len(toks, j + 1),
            None => 0,
        }
    }
}

/// The index of the first token at or after `j` that is not a UCI move.
pub open spec fn run_end(toks: Seq<Seq<u8>>, j: int) -> int {
    j + run_len(toks, j)
}

/// A move run ends within the token list.
pub proof fn lemma_run_end_le(toks: Seq<Seq<u8>>, j: int)
    requires
        0 <= j <= toks.len(),
    ensures
        j <= run_end(toks, j) <= toks.len(),
    decreases toks.len() - j,
{
    if j < toks.len() {
        if spec_parse_move(toks[j]) is Some {
            lemma_run_end_le(toks, j + 1);
        }
    }
}

/// The moves of a move run starting at `j`.
pub open spec fn moves_run(toks: Seq<Seq<u8>>, j: int) -> Seq<UciMove>
    decreases toks.len() - j,
    when 0 <= j
{
    if j >= toks.len() {
        Seq::empty()
    } else {
        match spec_parse_move(toks[j]) {
            Some(m) => seq![m] + moves_run(toks, j + 1),
            None => Seq::empty(),
        }
    }
}

/// The meaning of the tokens of an `info` line from position `i`
/// onwards, given the fields gathered so far: keyword groups are consumed
/// until the line is exhausted or a `string` keyword captures the rest;
/// a recognized keyword whose argument is missing or malformed fails the
/// whole line, an unrecognized token is skipped.
pub open spec fn spec_info(toks: Seq<Seq<u8>>, i: int, acc: UciInfoData) -> Option<UciInfoData>
    decreases toks.len() - i,
    when 0 <= i
    via spec_info_decreases
{
    if i >= toks.len() {
        Some(acc)
    } else {
        let t = toks[i];
        if t == KW_DEPTH@ {
            match next_u64(toks, i) {
                Some(v) => spec_info(toks, i + 2, UciInfoData { depth: Some(v), ..acc }),
                None => None,
            }
        } else if t == KW_SELDEPTH@ {
            match next_u64(toks, i) {
                Some(v) => spec_info(
                    toks,
                    i + 2,
                    UciInfoData { selective_depth: Some(v), ..acc },
                ),
                None => None,
            }
        } else if t == KW_TIME@ {
            match next_u64(toks, i) {
                Some(v) => spec_info(toks, i + 2, UciInfoData { time: Some(v), ..acc }),
                None => None,
            }
        } else if t == KW_NODES@ {
            match next_u64(toks, i) {
                Some(v) => spec_info(toks, i + 2, UciInfoData { nodes: Some(v), ..acc }),
                None => None,
            }
        } else if t == KW_PV@ {
            spec_info(
                toks,
                run_end(toks, i + 1),
                UciInfoData { principal_variation: Some(moves_run(toks, i + 1)), ..acc },
            )
        } else if t == KW_MULTIPV@ {
            match next_u64(toks, i) {
                Some(v) => spec_info(toks, i + 2, UciInfoData { multi_pv: Some(v), ..acc }),
                None => None,
            }
        } else if t == KW_SCORE@ {
            match spec_score(toks, i + 1) {
                Some((score, next)) => spec_info(
                    toks,
                    next,
                    UciInfoData { score: Some(score), ..acc },
                ),
                None => None,
            }
        } else if t == KW_CURRMOVE@ {
            if i + 1 < toks.len() {
                match spec_parse_move(toks[i + 1]) {
                    Some(m) => spec_info(
                        toks,
                        i + 2,
                        UciInfoData { current_move: Some(m), ..acc },
                    ),
                    None => None,
                }
            } else {
                None
            }
        } else if t == KW_CURRMOVENUMBER@ {
            match next_u64(toks, i) {
                Some(v) => spec_info(
                    toks,
                    i + 2,
                    UciInfoData { current_move_number: Some(v), ..acc },
                ),
                None => None,
            }
        } else if t == KW_HASHFULL@ {
            match next_u16(toks, i) {
                Some(v) => spec_info(toks, i + 2, UciInfoData { hash_full: Some(v), ..acc }),
                None => None,
            }
        } else if t == KW_NPS@ {
            match next_u64(toks, i) {
                Some(v) => spec_info(
                    toks,
                    i + 2,
                    UciInfoData { nodes_per_second: Some(v), ..acc },
                ),
                None => None,
            }
        } else if t == KW_TBHITS@ {
            match next_u64(toks, i) {
                Some(v) => spec_info(toks, i + 2, UciInfoData { table_hits: Some(v), ..acc }),
                None => None,
            }
        } else if t == KW_SBHITS@ {
            match next_u64(toks, i) {
                Some(v) => spec_info(
                    toks,
                    i + 2,
                    UciInfoData { shredder_hits: Some(v), ..acc },
                ),
                None => None,
            }
        } else if t == KW_CPULOAD@ {
            match next_u16(toks, i) {
                Some(v) => spec_info(toks, i + 2, UciInfoData { cpu_load: Some(v), ..acc }),
                None => None,
            }
        } else if t == KW_STRING@ {
            Some(UciInfoData { string: Some(join_sp(toks.skip(i + 1))), ..acc })
        } else if t == KW_REFUTATION@ {
            if i + 1 < toks.len() {
                match spec_parse_move(toks[i + 1]) {
                    Some(m) => spec_info(
                        toks,
                        run_end(toks, i + 2),
                        UciInfoData {
                            refutation: Some(
                                RefutationData {
                                    refuted_move: m,
                                    refutation: moves_run(toks, i + 2),
                                },
                            ),
                            ..acc
                        },
                    ),
                    None => None,
                }
            } else {
                None
            }
        } else if t == KW_CURRENTLINE@ {
            if i + 1 < toks.len() && spec_parse_u64(toks[i + 1]) is Some {
                spec_info(
                    toks,
                    run_end(toks, i + 2),
                    UciInfoData {
                        current_line: Some(
                            CurrentLineData {
                                cpu_number: spec_parse_u64(toks[i + 1]),
                                line: moves_run(toks, i + 2),
                            },
                        ),
                        ..acc
                    },
                )
            } else {
                spec_info(
                    toks,
                    run_end(toks, i + 1),
                    UciInfoData {
                        current_line: Some(
                            CurrentLineData { cpu_number: None, line: moves_run(toks, i + 1) },
                        ),
                        ..acc
                    },
                )
            }
        } else {
            spec_info(toks, i + 1, acc)
        }
    }
}

#[via_fn]
proof fn spec_info_decreases(toks: Seq<Seq<u8>>, i: int, acc: UciInfoData) {
    if 0 <= i < toks.len() {
        if i + 1 <= toks.len() {
            lemma_run_end_le(toks, i + 1);
        }
        if i + 2 <= toks.len() {
            lemma_run_end_le(toks, i + 2);
        }
    }
}

/// The `u64` argument following the keyword at `i`, if it is there and
/// parses.
pub open spec fn next_u64(toks: Seq<Seq<u8>>, i: int) -> Option<u64> {
    if i + 1 < toks.len() {
        spec_parse_u64(toks[i + 1])
    } else {
        None
    }
}

/// The `u16` argument following the keyword at `i`, if it is there and
/// parses.
pub open spec fn next_u16(toks: Seq<Seq<u8>>, i: int) -> Option<u16> {
    if i + 1 < toks.len() {
        spec_parse_u16(toks[i + 1])
    } else {
        None
    }
}

/// The meaning of a `score` group starting after the keyword: `cp` or
/// `mate` with a signed value, then an optional bound suffix. Gives the
/// score and the index of the first token after the group.
pub open spec fn spec_score(toks: Seq<Seq<u8>>, j: int) -> Option<(Score, int)> {
    if j + 1 < toks.len() {
        let kind = toks[j];
        match spec_parse_i16(toks[j + 1]) {
            Some(v) => {
                if kind == KW_CP@ || kind == KW_MATE@ {
                    let value = if kind == KW_CP@ {
                        ScoreValue::Centipawns(v)
                    } else {
                        ScoreValue::Mate(v)
                    };
                    if j + 2 < toks.len() && toks[j + 2] == KW_LOWERBOUND@ {
                        Some((Score { value, bound: ScoreBound::Lower }, j + 3))
                    } else if j + 2 < toks.len() && toks[j + 2] == KW_UPPERBOUND@ {
                        Some((Score { value, bound: ScoreBound::Upper }, j + 3))
                    } else {
                        Some((Score { value, bound: ScoreBound::Exact }, j + 2))
                    }
                } else {
                    None
                }
            },
            None => None,
        }
    } else {
        None
    }
}

/// The meaning of an `id` line: `id name <rest>` or `id author <rest>`
/// with a non-empty rest.
pub open spec fn spec_parse_id(toks: Seq<Seq<u8>>) -> Option<UciToGuiCmdData> {
    if toks.len() >= 3 {
        if toks[1] == KW_NAME@ {
            Some(UciToGuiCmdData::Id { name: Some(join_sp(toks.skip(2))), author: None })
        } else if toks[1] == KW_AUTHOR@ {
            Some(UciToGuiCmdData::Id { name: None, author: Some(join_sp(toks.skip(2))) })
        } else {
            None
        }
    } else {
        None
    }
}

/// The meaning of one line of engine output: exactly `uciok`, an `id`
/// line, an `info` line, or `bestmove` with a move token (whose trailing
/// tokens, such as a ponder hint, are ignored). Any other line is not a
/// command.
pub open spec fn spec_parse_line(line: Seq<u8>) -> Option<UciToGuiCmdData> {
    let toks = spec_tokens(line);
    if toks.len() == 0 {
        None
    } else if toks[0] == KW_UCIOK@ {
        if toks.len() == 1 {
            Some(UciToGuiCmdData::UciOk)
        } else {
            None
        }
    } else if toks[0] == KW_ID@ {
        spec_parse_id(toks)
    } else if toks[0] == KW_INFO@ {
        match spec_info(toks, 1, empty_info()) {
            Some(info) => Some(UciToGuiCmdData::Info(info)),
            None => None,
        }
    } else if toks[0] == KW_BESTMOVE@ {
        if toks.len() >= 2 {
            match spec_parse_move(toks[1]) {
                Some(m) => Some(UciToGuiCmdData::BestMove { uci_move: m }),
                None => None,
            }
        } else {
            None
        }
    } else {
        None
    }
}


/// Joins the tokens from position `from` onwards with single spaces.
fn join_tokens(toks: &Vec<Vec<u8>>, from: usize) -> (r: Vec<u8>)
    requires
        from <= toks@.len(),
    ensures
        r@ == join_sp(toks.deep_view().skip(from as int)),
{
    let ghost s = toks.deep_view().skip(from as int);
    let mut out: Vec<u8> = Vec::new();
    let mut i: usize = from;
    proof {
        assert(s.take(0) =~= Seq::<Seq<u8>>::empty());
    }
    while i < toks.len()
        invariant
            from <= i <= toks@.len(),
            s == toks.deep_view().skip(from as int),
            s.len() == toks@.len() - from,
            out@ == join_sp(s.take(i - from)),
        decreases toks@.len() - i,
    {
        proof {
            let k = i - from;
            assert(s.take(k + 1).drop_last() =~= s.take(k));
            assert(s.take(k + 1).last() == s[k]);
            assert(s[k] == toks.deep_view()[i as int]);
            assert(toks.deep_view()[i as int] =~= toks@[i as int]@);
        }
        if i > from {
            out.push(32);
        }
        crate::bytes::append_bytes(&mut out, toks[i].as_slice());
        i = i + 1;
    }
    proof {
        assert(s.take(s.len() as int) =~= s);
    }
    out
}

/// Reads a run of move tokens starting at `from`: the parsed moves, and
/// the index of the first token that is not a move.
fn parse_moves_run(toks: &Vec<Vec<u8>>, from: usize) -> (r: (Vec<UciMove>, usize))
    requires
        from <= toks@.len(),
    ensures
        r.1 == run_end(toks.deep_view(), from as int),
        r.0@ == moves_run(toks.deep_view(), from as int),
        from <= r.1 <= toks@.len(),
{
    let ghost T = toks.deep_view();
    let mut out: Vec<UciMove> = Vec::new();
    let mut j: usize = from;
    proof {
        assert(T.len() == toks@.len());
    }
    while j < toks.len()
        invariant
            from <= j <= toks@.len(),
            T == toks.deep_view(),
            T.len() == toks@.len(),
            run_len(T, from as int) == (j - from) + run_len(T, j as int),
            moves_run(T, from as int) == out@ + moves_run(T, j as int),
        decreases toks@.len() - j,
    {
        proof {
            assert(T[j as int] =~= toks@[j as int]@);
        }
        match crate::moves::parse_uci_move(toks[j].as_slice()) {
            Some(m) => {
                let ghost pre = out@;
                out.push(m);
                j = j + 1;
                proof {
                    assert(pre + (seq![m] + moves_run(T, j as int)) =~= (pre.push(m))
                        + moves_run(T, j as int));
                }
            },
            None => {
                proof {
                    assert(run_len(T, j as int) == 0);
                    assert(moves_run(T, j as int) =~= Seq::<UciMove>::empty());
                    assert(out@ =~= moves_run(T, from as int));
                }
                return (out, j);
            },
        }
    }
    proof {
        assert(run_len(T, j as int) == 0);
        assert(moves_run(T, j as int) =~= Seq::<UciMove>::empty());
        assert(out@ =~= moves_run(T, from as int));
    }
    (out, j)
}

/// Parses the keyword groups of an `info` line, the leading `info` token
/// already checked.
#[verifier::rlimit(100)]
fn parse_info(toks: &Vec<Vec<u8>>) -> (r: Result<UciInfo, UciParseError>)
    requires
        toks@.len() >= 1,
    ensures
        r matches Ok(info) ==> spec_info(toks.deep_view(), 1, empty_info()) == Some(
            info.deep_view(),
        ),
        r is Err ==> spec_info(toks.deep_view(), 1, empty_info()) is None,
{
    let ghost T = toks.deep_view();
    let mut info = UciInfo::default();
    let mut i: usize = 1;
    proof {
        assert(T.len() == toks@.len());
    }
    while i < toks.len()
        invariant
            1 <= i <= toks@.len(),
            T == toks.deep_view(),
            T.len() == toks@.len(),
            spec_info(T, 1, empty_info()) == spec_info(T, i as int, info.deep_view()),
        decreases toks@.len() - i,
    {
        let ghost old_dv = info.deep_view();
        proof {
            assert(T[i as int] =~= toks@[i as int]@);
        }
        let t = &toks[i];
        if bytes_eq(t.as_slice(), KW_DEPTH.as_slice()) {
            if i + 1 < toks.len() {
                proof {
                    assert(T[i + 1] =~= toks@[i + 1]@);
                }
                match parse_single(toks[i + 1].as_slice()) {
                    Ok(v) => {
                        info.depth = Some(v);
                        proof {
                            assert(info.deep_view() == UciInfoData {
                                depth: Some(v),
                                ..old_dv
                            });
                            assert(spec_info(T, i as int, old_dv) == spec_info(
                                T,
                                i + 2,
                                info.deep_view(),
                            ));
                        }
                        i = i + 2;
                    },
                    Err(_) => {
                        return Err(UciParseError);
                    },
                }
            } else {
                return Err(UciParseError);
            }
        } else if bytes_eq(t.as_slice(), KW_SELDEPTH.as_slice()) {
            if i + 1 < toks.len() {
                proof {
                    assert(T[i + 1] =~= toks@[i + 1]@);
                }
                match parse_single(toks[i + 1].as_slice()) {
                    Ok(v) => {
                        info.selective_depth = Some(v);
                        proof {
                            assert(info.deep_view() == UciInfoData {
                                selective_depth: Some(v),
                                ..old_dv
                            });
                            assert(spec_info(T, i as int, old_dv) == spec_info(
                                T,
                                i + 2,
                                info.deep_view(),
                            ));
                        }
                        i = i + 2;
                    },
                    Err(_) => {
                        return Err(UciParseError);
                    },
                }
            } else {
                return Err(UciParseError);
            }
        } else if bytes_eq(t.as_slice(), KW_TIME.as_slice()) {
            if i + 1 < toks.len() {
                proof {
                    assert(T[i + 1] =~= toks@[i + 1]@);
                }
                match parse_single(toks[i + 1].as_slice()) {
                    Ok(v) => {
                        info.time = Some(v);
                        proof {
                            assert(info.deep_view() == UciInfoData {
                                time: Some(v),
                                ..old_dv
                            });
                            assert(spec_info(T, i as int, old_dv) == spec_info(
                                T,
                                i + 2,
                                info.deep_view(),
                            ));
                        }
                        i = i + 2;
                    },
                    Err(_) => {
                        return Err(UciParseError);
                    },
                }
            } else {
                return Err(UciParseError);
            }
        } else if bytes_eq(t.as_slice(), KW_NODES.as_slice()) {
            if i + 1 < toks.len() {
                proof {
                    assert(T[i + 1] =~= toks@[i + 1]@);
                }
                match parse_single(toks[i + 1].as_slice()) {
                    Ok(v) => {
                        info.nodes = Some(v);
                        proof {
                            assert(info.deep_view() == UciInfoData {
                                nodes: Some(v),
                                ..old_dv
                            });
                            assert(spec_info(T, i as int, old_dv) == spec_info(
                                T,
                                i + 2,
                                info.deep_view(),
                            ));
                        }
                        i = i + 2;
                    },
                    Err(_) => {
                        return Err(UciParseError);
                    },
                }
            } else {
                return Err(UciParseError);
            }
        } else if bytes_eq(t.as_slice(), KW_MULTIPV.as_slice()) {
            if i + 1 < toks.len() {
                proof {
                    assert(T[i + 1] =~= toks@[i + 1]@);
                }
                match parse_single(toks[i + 1].as_slice()) {
                    Ok(v) => {
                        info.multi_pv = Some(v);
                        proof {
                            assert(info.deep_view() == UciInfoData {
                                multi_pv: Some(v),
                                ..old_dv
                            });
                            assert(spec_info(T, i as int, old_dv) == spec_info(
                                T,
                                i + 2,
                                info.deep_view(),
                            ));
                        }
                        i = i + 2;
                    },
                    Err(_) => {
                        return Err(UciParseError);
                    },
                }
            } else {
                return Err(UciParseError);
            }
        } else if bytes_eq(t.as_slice(), KW_CURRMOVENUMBER.as_slice()) {
            if i + 1 < toks.len() {
                proof {
                    assert(T[i + 1] =~= toks@[i + 1]@);
                }
                match parse_single(toks[i + 1].as_slice()) {
                    Ok(v) => {
                        info.current_move_number = Some(v);
                        proof {
                            assert(info.deep_view() == UciInfoData {
                                current_move_number: Some(v),
                                ..old_dv
                            });
                            assert(spec_info(T, i as int, old_dv) == spec_info(
                                T,
                                i + 2,
                                info.deep_view(),
                            ));
                        }
                        i = i + 2;
                    },
                    Err(_) => {
                        return Err(UciParseError);
                    },
                }
            } else {
                return Err(UciParseError);
            }
        } else if bytes_eq(t.as_slice(), KW_HASHFULL.as_slice()) {
            if i + 1 < toks.len() {
                proof {
                    assert(T[i + 1] =~= toks@[i + 1]@);
                }
                match parse_u16(toks[i + 1].as_slice()) {
                    Ok(v) => {
                        info.hash_full = Some(v);
                        proof {
                            assert(info.deep_view() == UciInfoData {
                                hash_full: Some(v),
                                ..old_dv
                            });
                            assert(spec_info(T, i as int, old_dv) == spec_info(
                                T,
                                i + 2,
                                info.deep_view(),
                            ));
                        }
                        i = i + 2;
                    },
                    Err(_) => {
                        return Err(UciParseError);
                    },
                }
            } else {
                return Err(UciParseError);
            }
        } else if bytes_eq(t.as_slice(), KW_NPS.as_slice()) {
            if i + 1 < toks.len() {
                proof {
                    assert(T[i + 1] =~= toks@[i + 1]@);
                }
                match parse_single(toks[i + 1].as_slice()) {
                    Ok(v) => {
                        info.nodes_per_second = Some(v);
                        proof {
                            assert(info.deep_view() == UciInfoData {
                                nodes_per_second: Some(v),
                                ..old_dv
                            });
                            assert(spec_info(T, i as int, old_dv) == spec_info(
                                T,
                                i + 2,
                                info.deep_view(),
                            ));
                        }
                        i = i + 2;
                    },
                    Err(_) => {
                        return Err(UciParseError);
                    },
                }
            } else {
                return Err(UciParseError);
            }
        } else if bytes_eq(t.as_slice(), KW_TBHITS.as_slice()) {
            if i + 1 < toks.len() {
                proof {
                    assert(T[i + 1] =~= toks@[i + 1]@);
                }
                match parse_single(toks[i + 1].as_slice()) {
                    Ok(v) => {
                        info.table_hits = Some(v);
                        proof {
                            assert(info.deep_view() == UciInfoData {
                                table_hits: Some(v),
                                ..old_dv
                            });
                            assert(spec_info(T, i as int, old_dv) == spec_info(
                                T,
                                i + 2,
                                info.deep_view(),
                            ));
                        }
                        i = i + 2;
                    },
                    Err(_) => {
                        return Err(UciParseError);
                    },
                }
            } else {
                return Err(UciParseError);
            }
        } else if bytes_eq(t.as_slice(), KW_SBHITS.as_slice()) {
            if i + 1 < toks.len() {
                proof {
                    assert(T[i + 1] =~= toks@[i + 1]@);
                }
                match parse_single(toks[i + 1].as_slice()) {
                    Ok(v) => {
                        info.shredder_hits = Some(v);
                        proof {
                            assert(info.deep_view() == UciInfoData {
                                shredder_hits: Some(v),
                                ..old_dv
                            });
                            assert(spec_info(T, i as int, old_dv) == spec_info(
                                T,
                                i + 2,
                                info.deep_view(),
                            ));
                        }
                        i = i + 2;
                    },
                    Err(_) => {
                        return Err(UciParseError);
                    },
                }
            } else {
                return Err(UciParseError);
            }
        } else if bytes_eq(t.as_slice(), KW_CPULOAD.as_slice()) {
            if i + 1 < toks.len() {
                proof {
                    assert(T[i + 1] =~= toks@[i + 1]@);
                }
                match parse_u16(toks[i + 1].as_slice()) {
                    Ok(v) => {
                        info.cpu_load = Some(v);
                        proof {
                            assert(info.deep_view() == UciInfoData {
                                cpu_load: Some(v),
                                ..old_dv
                            });
                            assert(spec_info(T, i as int, old_dv) == spec_info(
                                T,
                                i + 2,
                                info.deep_view(),
                            ));
                        }
                        i = i + 2;
                    },
                    Err(_) => {
                        return Err(UciParseError);
                    },
                }
            } else {
                return Err(UciParseError);
            }
        } else if bytes_eq(t.as_slice(), KW_PV.as_slice()) {
            let run = parse_moves_run(toks, i + 1);
            let (line, next) = run;
            info.principal_variation = Some(line);
            proof {
                assert(info.deep_view() == UciInfoData {
                    principal_variation: Some(moves_run(T, i + 1)),
                    ..old_dv
                });
                assert(spec_info(T, i as int, old_dv) == spec_info(
                    T,
                    run_end(T, i + 1),
                    info.deep_view(),
                ));
            }
            i = next;
        } else if bytes_eq(t.as_slice(), KW_SCORE.as_slice()) {
            if toks.len() - i <= 2 {
                return Err(UciParseError);
            }
            proof {
                assert(T[i + 1] =~= toks@[i + 1]@);
                assert(T[i + 2] =~= toks@[i + 2]@);
            }
            let kind_cp = bytes_eq(toks[i + 1].as_slice(), KW_CP.as_slice());
            let kind_mate = bytes_eq(toks[i + 1].as_slice(), KW_MATE.as_slice());
            match parse_i16(toks[i + 2].as_slice()) {
                Ok(v) => {
                    if !kind_cp && !kind_mate {
                        return Err(UciParseError);
                    }
                    let value = if kind_cp {
                        ScoreValue::Centipawns(v)
                    } else {
                        ScoreValue::Mate(v)
                    };
                    let mut bound = ScoreBound::Exact;
                    let mut next = i + 3;
                    if i + 3 < toks.len() {
                        proof {
                            assert(T[i + 3] =~= toks@[i + 3]@);
                        }
                        if bytes_eq(toks[i + 3].as_slice(), KW_LOWERBOUND.as_slice()) {
                            bound = ScoreBound::Lower;
                            next = i + 4;
                        } else if bytes_eq(toks[i + 3].as_slice(), KW_UPPERBOUND.as_slice()) {
                            bound = ScoreBound::Upper;
                            next = i + 4;
                        }
                    }
                    let score = Score { value, bound };
                    info.score = Some(score);
                    proof {
                        assert(spec_score(T, i + 1) == Some((score, next as int)));
                        assert(info.deep_view() == UciInfoData { score: Some(score), ..old_dv });
                        assert(spec_info(T, i as int, old_dv) == spec_info(
                            T,
                            next as int,
                            info.deep_view(),
                        ));
                    }
                    i = next;
                },
                Err(_) => {
                    return Err(UciParseError);
                },
            }
        } else if bytes_eq(t.as_slice(), KW_CURRMOVE.as_slice()) {
            if i + 1 >= toks.len() {
                return Err(UciParseError);
            }
            proof {
                assert(T[i + 1] =~= toks@[i + 1]@);
            }
            match crate::moves::parse_uci_move(toks[i + 1].as_slice()) {
                Some(m) => {
                    info.current_move = Some(m);
                    proof {
                        assert(info.deep_view() == UciInfoData {
                            current_move: Some(m),
                            ..old_dv
                        });
                        assert(spec_info(T, i as int, old_dv) == spec_info(
                            T,
                            i + 2,
                            info.deep_view(),
                        ));
                    }
                    i = i + 2;
                },
                None => {
                    return Err(UciParseError);
                },
            }
        } else if bytes_eq(t.as_slice(), KW_STRING.as_slice()) {
            let rest = join_tokens(toks, i + 1);
            info.string = Some(rest);
            proof {
                assert(info.deep_view() == UciInfoData {
                    string: Some(join_sp(T.skip(i + 1))),
                    ..old_dv
                });
                assert(spec_info(T, i as int, old_dv) == Some(info.deep_view()));
            }
            return Ok(info);
        } else if bytes_eq(t.as_slice(), KW_REFUTATION.as_slice()) {
            if i + 1 >= toks.len() {
                return Err(UciParseError);
            }
            proof {
                assert(T[i + 1] =~= toks@[i + 1]@);
            }
            match crate::moves::parse_uci_move(toks[i + 1].as_slice()) {
                Some(m) => {
                    let run = parse_moves_run(toks, i + 2);
                    let (line, next) = run;
                    info.refutation = Some(Refutation { refuted_move: m, refutation: line });
                    proof {
                        assert(info.deep_view() == UciInfoData {
                            refutation: Some(RefutationData {
                                refuted_move: m,
                                refutation: moves_run(T, i + 2),
                            }),
                            ..old_dv
                        });
                        assert(spec_info(T, i as int, old_dv) == spec_info(
                            T,
                            run_end(T, i + 2),
                            info.deep_view(),
                        ));
                    }
                    i = next;
                },
                None => {
                    return Err(UciParseError);
                },
            }
        } else if bytes_eq(t.as_slice(), KW_CURRENTLINE.as_slice()) {
            let mut cpu: Option<u64> = None;
            if i + 1 < toks.len() {
                proof {
                    assert(T[i + 1] =~= toks@[i + 1]@);
                }
                cpu = match parse_single(toks[i + 1].as_slice()) {
                    Ok(v) => Some(v),
                    Err(_) => None,
                };
            }
            match cpu {
                Some(v) => {
                    let run = parse_moves_run(toks, i + 2);
                    let (line, next) = run;
                    info.current_line = Some(CurrentLine { cpu_number: Some(v), line });
                    proof {
                        assert(info.deep_view() == UciInfoData {
                            current_line: Some(CurrentLineData {
                                cpu_number: spec_parse_u64(T[i + 1]),
                                line: moves_run(T, i + 2),
                            }),
                            ..old_dv
                        });
                        assert(spec_info(T, i as int, old_dv) == spec_info(
                            T,
                            run_end(T, i + 2),
                            info.deep_view(),
                        ));
                    }
                    i = next;
                },
                None => {
                    let run = parse_moves_run(toks, i + 1);
                    let (line, next) = run;
                    info.current_line = Some(CurrentLine { cpu_number: None, line });
                    proof {
                        assert(info.deep_view() == UciInfoData {
                            current_line: Some(CurrentLineData {
                                cpu_number: None,
                                line: moves_run(T, i + 1),
                            }),
                            ..old_dv
                        });
                        assert(spec_info(T, i as int, old_dv) == spec_info(
                            T,
                            run_end(T, i + 1),
                            info.deep_view(),
                        ));
                    }
                    i = next;
                },
            }
        } else {
            proof {
                assert(spec_info(T, i as int, old_dv) == spec_info(T, i + 1, old_dv));
            }
            i = i + 1;
        }
    }
    Ok(info)
}

impl UciToGuiCmd {
    /// Parses one line of engine output into a structured command.
    /// Succeeds exactly on the lines the wire grammar
    /// ([`spec_parse_line`]) gives a meaning, and returns that meaning.
    pub fn parse(line: &[u8]) -> (r: Result<UciToGuiCmd, UciParseError>)
        ensures
            r matches Ok(c) ==> spec_parse_line(line@) == Some(c.deep_view()),
            r is Err ==> spec_parse_line(line@) is None,
    {
        let toks = tokenize(line);
        let ghost T = spec_tokens(line@);
        proof {
            assert(T.len() == toks@.len());
        }
        if toks.len() == 0 {
            return Err(UciParseError);
        }
        proof {
            assert(T[0] =~= toks@[0]@);
        }
        if bytes_eq(toks[0].as_slice(), KW_UCIOK.as_slice()) {
            if toks.len() == 1 {
                Ok(UciToGuiCmd::UciOk)
            } else {
                Err(UciParseError)
            }
        } else if bytes_eq(toks[0].as_slice(), KW_ID.as_slice()) {
            if toks.len() < 3 {
                return Err(UciParseError);
            }
            proof {
                assert(T[1] =~= toks@[1]@);
            }
            let rest = join_tokens(&toks, 2);
            if bytes_eq(toks[1].as_slice(), KW_NAME.as_slice()) {
                Ok(UciToGuiCmd::Id { name: Some(rest), author: None })
            } else if bytes_eq(toks[1].as_slice(), KW_AUTHOR.as_slice()) {
                Ok(UciToGuiCmd::Id { name: None, author: Some(rest) })
            } else {
                Err(UciParseError)
            }
        } else if bytes_eq(toks[0].as_slice(), KW_INFO.as_slice()) {
            match parse_info(&toks) {
                Ok(info) => Ok(UciToGuiCmd::Info(Box::new(info))),
                Err(e) => Err(e),
            }
        } else if bytes_eq(toks[0].as_slice(), KW_BESTMOVE.as_slice()) {
            if toks.len() < 2 {
                return Err(UciParseError);
            }
            proof {
                assert(T[1] =~= toks@[1]@);
            }
            match crate::moves::parse_uci_move(toks[1].as_slice()) {
                Some(m) => Ok(UciToGuiCmd::BestMove { uci_move: m }),
                None => Err(UciParseError),
            }
        } else {
            Err(UciParseError)
        }
    }
}


/// The decimal rendering of a non-negative number.
pub open spec fn dec_bytes(n: int) -> Seq<u8>
    decreases n,
    when n >= 0
{
    if n < 10 {
        seq![(48 + n) as u8]
    } else {
        dec_bytes(n / 10) + seq![(48 + n % 10) as u8]
    }
}

/// Rendering a number and reading the digits back gives the number.
pub proof fn lemma_dec_bytes_val(n: int)
    requires
        n >= 0,
    ensures
        dec_bytes(n).len() >= 1,
        all_digits(dec_bytes(n)),
        dec_val(dec_bytes(n)) == n,
    decreases n,
{
    if n < 10 {
        let t = dec_bytes(n);
        assert(t.drop_last() =~= Seq::<u8>::empty());
        assert(t.last() == (48 + n) as u8);
        assert(dec_val(Seq::<u8>::empty()) == 0);
    } else {
        lemma_dec_bytes_val(n / 10);
        vstd::arithmetic::div_mod::lemma_fundamental_div_mod(n, 10);
        let a = dec_bytes(n / 10);
        let d = (48 + n % 10) as u8;
        assert((a + seq![d]).drop_last() =~= a);
        assert((a + seq![d]).last() == d);
    }
}

/// Renders a number in decimal.
pub fn u64_dec(n: u64) -> (r: Vec<u8>)
    ensures
        r@ == dec_bytes(n as int),
    decreases n,
{
    if n < 10 {
        let mut v: Vec<u8> = Vec::new();
        v.push(48 + (n as u8));
        proof {
            assert(v@ =~= dec_bytes(n as int));
        }
        v
    } else {
        let mut v = u64_dec(n / 10);
        v.push(48 + ((n % 10) as u8));
        proof {
            assert(v@ =~= dec_bytes(n as int));
        }
        v
    }
}

/// A UCI command sent from the GUI to the engine.
#[derive(Debug)]
pub enum UciToEngineCmd {
    /// Start the UCI handshake.
    Uci,
    /// Hand the engine the game to search: the start position and all
    /// moves played.
    Position { game: Box<crate::game::Game> },
    /// Search the current position for a fixed time, in milliseconds.
    Go { move_time: u64 },
}

/// The bytes of a GUI-to-engine command: `uci`, `position fen <FEN>
/// [moves ...]`, or `go movetime <millis>`.
pub open spec fn spec_engine_cmd_bytes(c: UciToEngineCmd) -> Seq<u8> {
    match c {
        UciToEngineCmd::Uci => seq![117u8, 99u8, 105u8],
        UciToEngineCmd::Position { game } => seq![
            112u8,
            111u8,
            115u8,
            105u8,
            116u8,
            105u8,
            111u8,
            110u8,
            32u8,
        ] + game.spec_uci_position(),
        UciToEngineCmd::Go { move_time } => seq![
            103u8,
            111u8,
            32u8,
            109u8,
            111u8,
            118u8,
            101u8,
            116u8,
            105u8,
            109u8,
            101u8,
            32u8,
        ] + dec_bytes(move_time as int),
    }
}

impl UciToEngineCmd {
    /// Serializes the command as one line of engine input, without the
    /// line terminator.
    pub fn serialize(&self) -> (r: Vec<u8>)
        ensures
            r@ == spec_engine_cmd_bytes(*self),
    {
        match self {
            UciToEngineCmd::Uci => {
                let mut out: Vec<u8> = Vec::new();
                out.push(117);
                out.push(99);
                out.push(105);
                proof {
                    assert(out@ =~= spec_engine_cmd_bytes(*self));
                }
                out
            },
            UciToEngineCmd::Position { game } => {
                let mut out: Vec<u8> = Vec::new();
                out.push(112);
                out.push(111);
                out.push(115);
                out.push(105);
                out.push(116);
                out.push(105);
                out.push(111);
                out.push(110);
                out.push(32);
                let body = game.uci_position_with_moves();
                crate::bytes::append_bytes(&mut out, body.as_slice());
                proof {
                    assert(out@ =~= spec_engine_cmd_bytes(*self));
                }
                out
            },
            UciToEngineCmd::Go { move_time } => {
                let mut out: Vec<u8> = Vec::new();
                out.push(103);
                out.push(111);
                out.push(32);
                out.push(109);
                out.push(111);
                out.push(118);
                out.push(101);
                out.push(116);
                out.push(105);
                out.push(109);
                out.push(101);
                out.push(32);
                let digits = u64_dec(*move_time);
                crate::bytes::append_bytes(&mut out, digits.as_slice());
                proof {
                    assert(out@ =~= spec_engine_cmd_bytes(*self));
                }
                out
            },
        }
    }
}

/// A line parsing to `bestmove` carries a well-formed move.
pub proof fn lemma_bestmove_wf(line: Seq<u8>)
    ensures
        spec_parse_line(line) matches Some(UciToGuiCmdData::BestMove { uci_move }) ==> uci_move.wf(),
{
    let toks = spec_tokens(line);
    if spec_parse_line(line) matches Some(UciToGuiCmdData::BestMove { uci_move }) {
        crate::moves::lemma_parsed_move_wf(toks[1]);
    }
}


/// A word on the wire: nonempty and free of whitespace.
pub open spec fn wordy(w: Seq<u8>) -> bool {
    w.len() >= 1 && forall|k: int| 0 <= k < w.len() ==> !is_ws(#[trigger] w[k])
}

/// Free text that survives the wire: it reads back as at least one token
/// and is exactly its tokens joined with single spaces.
pub open spec fn normalized_text(s: Seq<u8>) -> bool {
    spec_tokens(s).len() >= 1 && join_sp(spec_tokens(s)) == s
}

/// Tokenizing whitespace-free input extends the open token and yields it
/// as the single token.
proof fn lemma_tok_word(cur: Seq<u8>, w: Seq<u8>)
    requires
        forall|k: int| 0 <= k < w.len() ==> !is_ws(#[trigger] w[k]),
    ensures
        tok_rec(cur, w) == if cur.len() + w.len() == 0 {
            Seq::<Seq<u8>>::empty()
        } else {
            seq![cur + w]
        },
    decreases w.len(),
{
    if w.len() == 0 {
        assert(cur + w =~= cur);
    } else {
        lemma_tok_word(cur.push(w[0]), w.skip(1));
        assert(cur.push(w[0]) + w.skip(1) =~= cur + w);
    }
}

/// Tokenization splits at whitespace: the tokens of `a` followed by a
/// whitespace byte and `b` are the tokens of `a` followed by the tokens
/// of the rest.
proof fn lemma_tok_split(cur: Seq<u8>, a: Seq<u8>, b: Seq<u8>)
    requires
        b.len() >= 1,
        is_ws(b[0]),
    ensures
        tok_rec(cur, a + b) == tok_rec(cur, a) + tok_rec(Seq::empty(), b.skip(1)),
    decreases a.len(),
{
    if a.len() == 0 {
        assert(a + b =~= b);
        if cur.len() == 0 {
            assert(cur =~= Seq::<u8>::empty());
            assert(tok_rec(cur, a) + tok_rec(Seq::empty(), b.skip(1)) =~= tok_rec(
                Seq::empty(),
                b.skip(1),
            ));
        } else {
            assert(tok_rec(cur, a) =~= seq![cur]);
        }
    } else {
        let ab = a + b;
        assert(ab[0] == a[0]);
        assert(ab.skip(1) =~= a.skip(1) + b);
        if is_ws(a[0]) {
            if cur.len() == 0 {
                lemma_tok_split(cur, a.skip(1), b);
            } else {
                lemma_tok_split(Seq::empty(), a.skip(1), b);
                assert(seq![cur] + (tok_rec(Seq::empty(), a.skip(1)) + tok_rec(
                    Seq::empty(),
                    b.skip(1),
                )) =~= (seq![cur] + tok_rec(Seq::empty(), a.skip(1))) + tok_rec(
                    Seq::empty(),
                    b.skip(1),
                ));
            }
        } else {
            lemma_tok_split(cur.push(a[0]), a.skip(1), b);
        }
    }
}

/// Joining words with single spaces and tokenizing gives the words back.
pub proof fn lemma_tokens_of_join(ts: Seq<Seq<u8>>)
    requires
        forall|k: int| 0 <= k < ts.len() ==> wordy(#[trigger] ts[k]),
    ensures
        spec_tokens(join_sp(ts)) == ts,
    decreases ts.len(),
{
    if ts.len() == 0 {
        assert(spec_tokens(join_sp(ts)) =~= ts);
    } else if ts.len() == 1 {
        lemma_tok_word(Seq::empty(), ts[0]);
        assert(Seq::<u8>::empty() + ts[0] =~= ts[0]);
        assert(seq![ts[0]] =~= ts);
    } else {
        let pre = ts.drop_last();
        let sep_last = seq![32u8] + ts.last();
        assert(join_sp(ts) == join_sp(pre) + seq![32u8] + ts.last());
        assert(join_sp(pre) + seq![32u8] + ts.last() =~= join_sp(pre) + sep_last);
        lemma_tok_split(Seq::empty(), join_sp(pre), sep_last);
        assert(sep_last.skip(1) =~= ts.last());
        lemma_tokens_of_join(pre);
        lemma_tok_word(Seq::empty(), ts.last());
        assert(Seq::<u8>::empty() + ts.last() =~= ts.last());
        assert(pre + seq![ts.last()] =~= ts);
    }
}

/// A well-formed move token is a word.
pub proof fn lemma_move_token_wordy(m: UciMove)
    requires
        m.wf(),
    ensures
        wordy(crate::moves::spec_move_token(m)),
{
}

/// A command is fit for the wire: an `id` line carries exactly one of
/// name and author, as normalized text; a `bestmove` carries a
/// well-formed move.
pub open spec fn wf_gui_cmd(c: UciToGuiCmdData) -> bool {
    match c {
        UciToGuiCmdData::UciOk => true,
        UciToGuiCmdData::Id { name, author } => match (name, author) {
            (Some(n), None) => normalized_text(n),
            (None, Some(a)) => normalized_text(a),
            _ => false,
        },
        UciToGuiCmdData::Info(d) => wf_info(d),
        UciToGuiCmdData::BestMove { uci_move } => uci_move.wf(),
    }
}

/// The line that carries a command back over the wire.
pub open spec fn spec_serialize_gui(c: UciToGuiCmdData) -> Seq<u8> {
    match c {
        UciToGuiCmdData::UciOk => KW_UCIOK@,
        UciToGuiCmdData::Id { name, author } => match (name, author) {
            (Some(n), _) => KW_ID@ + seq![32u8] + KW_NAME@ + seq![32u8] + n,
            (None, Some(a)) => KW_ID@ + seq![32u8] + KW_AUTHOR@ + seq![32u8] + a,
            (None, None) => KW_ID@,
        },
        UciToGuiCmdData::Info(d) => join_sp(info_tokens(d)),
        UciToGuiCmdData::BestMove { uci_move } => KW_BESTMOVE@ + seq![32u8]
            + crate::moves::spec_move_token(uci_move),
    }
}

impl UciToGuiCmd {
    /// Serializes a well-formed command back into its line form.
    pub fn serialize(&self) -> (r: Vec<u8>)
        requires
            wf_gui_cmd(self.deep_view()),
        ensures
            r@ == spec_serialize_gui(self.deep_view()),
    {
        let mut out: Vec<u8> = Vec::new();
        match self {
            UciToGuiCmd::UciOk => {
                append_bytes(&mut out, KW_UCIOK.as_slice());
            },
            UciToGuiCmd::Id { name, author } => {
                append_bytes(&mut out, KW_ID.as_slice());
                match name {
                    Some(n) => {
                        out.push(32);
                        append_bytes(&mut out, KW_NAME.as_slice());
                        out.push(32);
                        append_bytes(&mut out, n.as_slice());
                    },
                    None => {
                        match author {
                            Some(a) => {
                                out.push(32);
                                append_bytes(&mut out, KW_AUTHOR.as_slice());
                                out.push(32);
                                append_bytes(&mut out, a.as_slice());
                            },
                            None => {},
                        }
                    },
                }
            },
            UciToGuiCmd::Info(i) => {
                let toks = info_tokens_exec(i);
                let joined = join_tokens(&toks, 0);
                proof {
                    assert(toks.deep_view().skip(0) =~= toks.deep_view());
                }
                out = joined;
            },
            UciToGuiCmd::BestMove { uci_move } => {
                append_bytes(&mut out, KW_BESTMOVE.as_slice());
                out.push(32);
                let token = crate::moves::uci_move_token(uci_move);
                append_bytes(&mut out, token.as_slice());
            },
        }
        proof {
            assert(out@ =~= spec_serialize_gui(self.deep_view()));
        }
        out
    }
}

/// The codec round-trips: rendering any well-formed command and parsing
/// the rendered line gives exactly the command back; and a line is
/// parsed successfully exactly when the wire grammar gives it a meaning.
pub proof fn lemma_gui_round_trip(c: UciToGuiCmdData)
    requires
        wf_gui_cmd(c),
    ensures
        spec_parse_line(spec_serialize_gui(c)) == Some(c),
{
    match c {
        UciToGuiCmdData::UciOk => {
            lemma_tok_word(Seq::empty(), KW_UCIOK@);
            assert(Seq::<u8>::empty() + KW_UCIOK@ =~= KW_UCIOK@);
        },
        UciToGuiCmdData::Id { name, author } => {
            let (kw2, text) = if name is Some {
                (KW_NAME@, name.unwrap())
            } else {
                (KW_AUTHOR@, author.unwrap())
            };
            let line = spec_serialize_gui(c);
            let tail = kw2 + seq![32u8] + text;
            assert(line =~= KW_ID@ + (seq![32u8] + tail));
            lemma_tok_split(Seq::empty(), KW_ID@, seq![32u8] + tail);
            lemma_tok_word(Seq::empty(), KW_ID@);
            assert(Seq::<u8>::empty() + KW_ID@ =~= KW_ID@);
            assert((seq![32u8] + tail).skip(1) =~= tail);
            assert(tail =~= kw2 + (seq![32u8] + text));
            lemma_tok_split(Seq::empty(), kw2, seq![32u8] + text);
            lemma_tok_word(Seq::empty(), kw2);
            assert(Seq::<u8>::empty() + kw2 =~= kw2);
            assert((seq![32u8] + text).skip(1) =~= text);
            let toks = spec_tokens(line);
            assert(toks =~= seq![KW_ID@] + (seq![kw2] + spec_tokens(text)));
            assert(toks.len() == 2 + spec_tokens(text).len());
            assert(toks.skip(2) =~= spec_tokens(text));
            assert(join_sp(toks.skip(2)) == text);
            assert(toks[1] == kw2);
            assert(!(KW_ID@ == KW_UCIOK@));
        },
        UciToGuiCmdData::Info(d) => {
            lemma_info_round_trip(d);
        },
        UciToGuiCmdData::BestMove { uci_move } => {
            let token = crate::moves::spec_move_token(uci_move);
            let line = spec_serialize_gui(c);
            lemma_move_token_wordy(uci_move);
            assert(line =~= KW_BESTMOVE@ + (seq![32u8] + token));
            lemma_tok_split(Seq::empty(), KW_BESTMOVE@, seq![32u8] + token);
            lemma_tok_word(Seq::empty(), KW_BESTMOVE@);
            assert(Seq::<u8>::empty() + KW_BESTMOVE@ =~= KW_BESTMOVE@);
            assert((seq![32u8] + token).skip(1) =~= token);
            lemma_tok_word(Seq::empty(), token);
            assert(Seq::<u8>::empty() + token =~= token);
            let toks = spec_tokens(line);
            assert(toks =~= seq![KW_BESTMOVE@, token]);
            crate::moves::lemma_move_token_round_trip(uci_move);
        },
    }
}


/// Every token produced by tokenization is a word: nonempty and free of
/// whitespace.
proof fn lemma_tok_rec_wordy(cur: Seq<u8>, s: Seq<u8>)
    requires
        forall|k: int| 0 <= k < cur.len() ==> !is_ws(#[trigger] cur[k]),
    ensures
        forall|k: int| 0 <= k < tok_rec(cur, s).len() ==> wordy(#[trigger] tok_rec(cur, s)[k]),
    decreases s.len(),
{
    if s.len() == 0 {
        if cur.len() > 0 {
            assert(wordy(cur));
            assert(tok_rec(cur, s) =~= seq![cur]);
        }
    } else if is_ws(s[0]) {
        lemma_tok_rec_wordy(Seq::empty(), s.skip(1));
        if cur.len() == 0 {
            assert(cur =~= Seq::<u8>::empty());
            assert(tok_rec(cur, s) == tok_rec(Seq::empty(), s.skip(1)));
        } else {
            assert(wordy(cur));
            assert(tok_rec(cur, s) == seq![cur] + tok_rec(Seq::empty(), s.skip(1)));
            assert forall|k: int|
                0 <= k < tok_rec(cur, s).len() implies wordy(#[trigger] tok_rec(cur, s)[k]) by {
                if k > 0 {
                    assert(tok_rec(cur, s)[k] == tok_rec(Seq::empty(), s.skip(1))[k - 1]);
                }
            }
        }
    } else {
        assert forall|k: int|
            0 <= k < cur.push(s[0]).len() implies !is_ws(#[trigger] cur.push(s[0])[k]) by {
            if k < cur.len() {
                assert(cur.push(s[0])[k] == cur[k]);
            }
        }
        lemma_tok_rec_wordy(cur.push(s[0]), s.skip(1));
        assert(tok_rec(cur, s) == tok_rec(cur.push(s[0]), s.skip(1)));
    }
}

/// The tokens of any byte string are words.
pub proof fn lemma_tokens_wordy(s: Seq<u8>)
    ensures
        forall|k: int| 0 <= k < spec_tokens(s).len() ==> wordy(#[trigger] spec_tokens(s)[k]),
{
    lemma_tok_rec_wordy(Seq::empty(), s);
}

/// The decimal rendering of a number is a word.
pub proof fn lemma_dec_bytes_wordy(n: int)
    requires
        n >= 0,
    ensures
        wordy(dec_bytes(n)),
{
    lemma_dec_bytes_val(n);
}

/// A run of rendered move tokens, followed by a non-move token or the
/// end of the line, reads back as exactly those moves.
proof fn lemma_moves_run_exact(toks: Seq<Seq<u8>>, j: int, ms: Seq<UciMove>)
    requires
        0 <= j,
        j + ms.len() <= toks.len(),
        forall|k: int|
            0 <= k < ms.len() ==> (#[trigger] ms[k]).wf() && toks[j + k]
                == crate::moves::spec_move_token(ms[k]),
        j + ms.len() == toks.len() || spec_parse_move(toks[j + ms.len()]) is None,
    ensures
        run_end(toks, j) == j + ms.len(),
        moves_run(toks, j) == ms,
    decreases ms.len(),
{
    if ms.len() == 0 {
        assert(moves_run(toks, j) =~= ms);
    } else {
        assert(ms[0].wf() && toks[j + 0] == crate::moves::spec_move_token(ms[0]));
        assert(toks[j] == crate::moves::spec_move_token(ms[0]));
        crate::moves::lemma_move_token_round_trip(ms[0]);
        let rest = ms.skip(1);
        assert forall|k: int|
            0 <= k < rest.len() implies (#[trigger] rest[k]).wf() && toks[j + 1 + k]
            == crate::moves::spec_move_token(rest[k]) by {
            assert(rest[k] == ms[k + 1]);
            assert(ms[k + 1].wf() && toks[j + (k + 1)] == crate::moves::spec_move_token(
                ms[k + 1],
            ));
            assert(toks[j + 1 + k] == toks[j + (k + 1)]);
        }
        lemma_moves_run_exact(toks, j + 1, rest);
        assert(moves_run(toks, j) == seq![ms[0]] + rest);
        assert(seq![ms[0]] + rest =~= ms);
    }
}


/// Every move of a line is well-formed.
pub open spec fn all_moves_wf(ms: Seq<UciMove>) -> bool {
    forall|k: int| 0 <= k < ms.len() ==> (#[trigger] ms[k]).wf()
}

/// The decimal rendering of a signed value: a minus sign before the
/// magnitude when negative.
pub open spec fn i16_bytes(v: i16) -> Seq<u8> {
    if v >= 0 {
        dec_bytes(v as int)
    } else {
        seq![45u8] + dec_bytes(0 - (v as int))
    }
}

/// Rendering a signed value and parsing it back gives the value.
pub proof fn lemma_i16_bytes_val(v: i16)
    ensures
        spec_parse_i16(i16_bytes(v)) == Some(v),
        wordy(i16_bytes(v)),
{
    if v >= 0 {
        lemma_dec_bytes_val(v as int);
    } else {
        lemma_dec_bytes_val(0 - (v as int));
        let t = i16_bytes(v);
        assert(t.skip(1) =~= dec_bytes(0 - (v as int)));
    }
}

/// The tokens of a move line, one per move.
pub open spec fn moves_token_list(ms: Seq<UciMove>) -> Seq<Seq<u8>> {
    Seq::new(ms.len(), |k: int| crate::moves::spec_move_token(ms[k]))
}

/// One keyword group of an `info` line, in semantic form.
pub ghost enum InfoGroup {
    Depth(u64),
    SelDepth(u64),
    Time(u64),
    Nodes(u64),
    MultiPv(u64),
    ScoreG(Score),
    CurrMove(UciMove),
    CurrMoveNumber(u64),
    HashFull(u16),
    Nps(u64),
    TbHits(u64),
    SbHits(u64),
    CpuLoad(u16),
    RefutationG(RefutationData),
    CurrentLineG(CurrentLineData),
    Pv(Seq<UciMove>),
    StringG(Seq<u8>),
}

/// The tokens of one group: its keyword and its arguments.
pub open spec fn group_toks(g: InfoGroup) -> Seq<Seq<u8>> {
    match g {
        InfoGroup::Depth(v) => seq![KW_DEPTH@, dec_bytes(v as int)],
        InfoGroup::SelDepth(v) => seq![KW_SELDEPTH@, dec_bytes(v as int)],
        InfoGroup::Time(v) => seq![KW_TIME@, dec_bytes(v as int)],
        InfoGroup::Nodes(v) => seq![KW_NODES@, dec_bytes(v as int)],
        InfoGroup::MultiPv(v) => seq![KW_MULTIPV@, dec_bytes(v as int)],
        InfoGroup::ScoreG(sc) => {
            let kind = match sc.value {
                ScoreValue::Centipawns(x) => KW_CP@,
                ScoreValue::Mate(x) => KW_MATE@,
            };
            let x = match sc.value {
                ScoreValue::Centipawns(x) => x,
                ScoreValue::Mate(x) => x,
            };
            let bound = match sc.bound {
                ScoreBound::Exact => Seq::<Seq<u8>>::empty(),
                ScoreBound::Lower => seq![KW_LOWERBOUND@],
                ScoreBound::Upper => seq![KW_UPPERBOUND@],
            };
            seq![KW_SCORE@, kind, i16_bytes(x)] + bound
        },
        InfoGroup::CurrMove(m) => seq![KW_CURRMOVE@, crate::moves::spec_move_token(m)],
        InfoGroup::CurrMoveNumber(v) => seq![KW_CURRMOVENUMBER@, dec_bytes(v as int)],
        InfoGroup::HashFull(v) => seq![KW_HASHFULL@, dec_bytes(v as int)],
        InfoGroup::Nps(v) => seq![KW_NPS@, dec_bytes(v as int)],
        InfoGroup::TbHits(v) => seq![KW_TBHITS@, dec_bytes(v as int)],
        InfoGroup::SbHits(v) => seq![KW_SBHITS@, dec_bytes(v as int)],
        InfoGroup::CpuLoad(v) => seq![KW_CPULOAD@, dec_bytes(v as int)],
        InfoGroup::RefutationG(r) => seq![
            KW_REFUTATION@,
            crate::moves::spec_move_token(r.refuted_move),
        ] + moves_token_list(r.refutation),
        InfoGroup::CurrentLineG(c) => seq![KW_CURRENTLINE@] + (match c.cpu_number {
            Some(v) => seq![dec_bytes(v as int)],
            None => Seq::<Seq<u8>>::empty(),
        }) + moves_token_list(c.line),
        InfoGroup::Pv(ms) => seq![KW_PV@] + moves_token_list(ms),
        InfoGroup::StringG(t) => seq![KW_STRING@] + spec_tokens(t),
    }
}

/// What a group means: the field it sets.
pub open spec fn apply_group(acc: UciInfoData, g: InfoGroup) -> UciInfoData {
    match g {
        InfoGroup::Depth(v) => UciInfoData { depth: Some(v), ..acc },
        InfoGroup::SelDepth(v) => UciInfoData { selective_depth: Some(v), ..acc },
        InfoGroup::Time(v) => UciInfoData { time: Some(v), ..acc },
        InfoGroup::Nodes(v) => UciInfoData { nodes: Some(v), ..acc },
        InfoGroup::MultiPv(v) => UciInfoData { multi_pv: Some(v), ..acc },
        InfoGroup::ScoreG(sc) => UciInfoData { score: Some(sc), ..acc },
        InfoGroup::CurrMove(m) => UciInfoData { current_move: Some(m), ..acc },
        InfoGroup::CurrMoveNumber(v) => UciInfoData { current_move_number: Some(v), ..acc },
        InfoGroup::HashFull(v) => UciInfoData { hash_full: Some(v), ..acc },
        InfoGroup::Nps(v) => UciInfoData { nodes_per_second: Some(v), ..acc },
        InfoGroup::TbHits(v) => UciInfoData { table_hits: Some(v), ..acc },
        InfoGroup::SbHits(v) => UciInfoData { shredder_hits: Some(v), ..acc },
        InfoGroup::CpuLoad(v) => UciInfoData { cpu_load: Some(v), ..acc },
        InfoGroup::RefutationG(r) => UciInfoData { refutation: Some(r), ..acc },
        InfoGroup::CurrentLineG(c) => UciInfoData { current_line: Some(c), ..acc },
        InfoGroup::Pv(ms) => UciInfoData { principal_variation: Some(ms), ..acc },
        InfoGroup::StringG(t) => UciInfoData { string: Some(t), ..acc },
    }
}

/// A group fit for the wire: moves are well-formed, a current line
/// without a CPU number cannot start with the all-digit null move, and a
/// display string survives tokenization.
pub open spec fn wf_group(g: InfoGroup) -> bool {
    match g {
        InfoGroup::CurrMove(m) => m.wf(),
        InfoGroup::RefutationG(r) => r.refuted_move.wf() && all_moves_wf(r.refutation),
        InfoGroup::CurrentLineG(c) => all_moves_wf(c.line) && (c.cpu_number is None ==> (
        c.line.len() == 0 || !(c.line[0] is Null))),
        InfoGroup::Pv(ms) => all_moves_wf(ms),
        InfoGroup::StringG(t) => join_sp(spec_tokens(t)) == t,
        _ => true,
    }
}

/// The tokens of a sequence of groups.
pub open spec fn concat_toks(gs: Seq<InfoGroup>) -> Seq<Seq<u8>>
    decreases gs.len(),
{
    if gs.len() == 0 {
        Seq::empty()
    } else {
        group_toks(gs[0]) + concat_toks(gs.skip(1))
    }
}

/// The meaning of a sequence of groups, applied in order.
pub open spec fn apply_groups(acc: UciInfoData, gs: Seq<InfoGroup>) -> UciInfoData
    decreases gs.len(),
{
    if gs.len() == 0 {
        acc
    } else {
        apply_groups(apply_group(acc, gs[0]), gs.skip(1))
    }
}

/// A sequence of groups fit for the wire: each group well-formed, and a
/// string group only at the very end, since it captures the rest of the
/// line.
pub open spec fn groups_wf(gs: Seq<InfoGroup>) -> bool {
    &&& forall|k: int| 0 <= k < gs.len() ==> wf_group(#[trigger] gs[k])
    &&& forall|k: int| 0 <= k < gs.len() ==> (#[trigger] gs[k]) is StringG ==> k == gs.len() - 1
}

/// The groups of an `info` value, in the order they are serialized.
pub open spec fn groups_of(d: UciInfoData) -> Seq<InfoGroup> {
    opt_group(match d.depth {
        Some(v) => Some(InfoGroup::Depth(v)),
        None => None,
    }) + opt_group(match d.selective_depth {
        Some(v) => Some(InfoGroup::SelDepth(v)),
        None => None,
    }) + opt_group(match d.time {
        Some(v) => Some(InfoGroup::Time(v)),
        None => None,
    }) + opt_group(match d.nodes {
        Some(v) => Some(InfoGroup::Nodes(v)),
        None => None,
    }) + opt_group(match d.multi_pv {
        Some(v) => Some(InfoGroup::MultiPv(v)),
        None => None,
    }) + opt_group(match d.score {
        Some(sc) => Some(InfoGroup::ScoreG(sc)),
        None => None,
    }) + opt_group(match d.current_move {
        Some(m) => Some(InfoGroup::CurrMove(m)),
        None => None,
    }) + opt_group(match d.current_move_number {
        Some(v) => Some(InfoGroup::CurrMoveNumber(v)),
        None => None,
    }) + opt_group(match d.hash_full {
        Some(v) => Some(InfoGroup::HashFull(v)),
        None => None,
    }) + opt_group(match d.nodes_per_second {
        Some(v) => Some(InfoGroup::Nps(v)),
        None => None,
    }) + opt_group(match d.table_hits {
        Some(v) => Some(InfoGroup::TbHits(v)),
        None => None,
    }) + opt_group(match d.shredder_hits {
        Some(v) => Some(InfoGroup::SbHits(v)),
        None => None,
    }) + opt_group(match d.cpu_load {
        Some(v) => Some(InfoGroup::CpuLoad(v)),
        None => None,
    }) + opt_group(match d.refutation {
        Some(r) => Some(InfoGroup::RefutationG(r)),
        None => None,
    }) + opt_group(match d.current_line {
        Some(c) => Some(InfoGroup::CurrentLineG(c)),
        None => None,
    }) + opt_group(match d.principal_variation {
        Some(ms) => Some(InfoGroup::Pv(ms)),
        None => None,
    }) + opt_group(match d.string {
        Some(t) => Some(InfoGroup::StringG(t)),
        None => None,
    })
}

/// Zero or one group.
pub open spec fn opt_group(o: Option<InfoGroup>) -> Seq<InfoGroup> {
    match o {
        Some(g) => seq![g],
        None => Seq::empty(),
    }
}

/// The token list of a full `info` line.
pub open spec fn info_tokens(d: UciInfoData) -> Seq<Seq<u8>> {
    seq![KW_INFO@] + concat_toks(groups_of(d))
}

/// An `info` value fit for the wire: its moves are well-formed, a
/// current line without a CPU number cannot start with the all-digit
/// null move, and a display string survives tokenization.
pub open spec fn wf_info(d: UciInfoData) -> bool {
    &&& match d.current_move {
        Some(m) => m.wf(),
        None => true,
    }
    &&& match d.refutation {
        Some(r) => r.refuted_move.wf() && all_moves_wf(r.refutation),
        None => true,
    }
    &&& match d.current_line {
        Some(c) => all_moves_wf(c.line) && (c.cpu_number is None ==> (c.line.len() == 0 || !(
        c.line[0] is Null))),
        None => true,
    }
    &&& match d.principal_variation {
        Some(ms) => all_moves_wf(ms),
        None => true,
    }
    &&& match d.string {
        Some(t) => join_sp(spec_tokens(t)) == t,
        None => true,
    }
}

/// A group sequence that is well-formed and free of string groups.
pub open spec fn wf_nostring(gs: Seq<InfoGroup>) -> bool {
    forall|k: int|
        0 <= k < gs.len() ==> wf_group(#[trigger] gs[k]) && !(gs[k] is StringG)
}

/// Concatenating string-free well-formed group sequences preserves both.
proof fn lemma_wf_nostring_concat(a: Seq<InfoGroup>, b: Seq<InfoGroup>)
    requires
        wf_nostring(a),
        wf_nostring(b),
    ensures
        wf_nostring(a + b),
{
    assert forall|k: int|
        0 <= k < (a + b).len() implies wf_group(#[trigger] (a + b)[k]) && !((a + b)[k]
        is StringG) by {
        if k < a.len() {
            assert((a + b)[k] == a[k]);
        } else {
            assert((a + b)[k] == b[k - a.len()]);
        }
    }
}

/// A string-free well-formed prefix followed by a well-formed sequence
/// is well-formed.
proof fn lemma_wf_concat_last(a: Seq<InfoGroup>, b: Seq<InfoGroup>)
    requires
        wf_nostring(a),
        groups_wf(b),
    ensures
        groups_wf(a + b),
{
    assert forall|k: int| 0 <= k < (a + b).len() implies wf_group(#[trigger] (a + b)[k]) && ((a
        + b)[k] is StringG ==> k == (a + b).len() - 1) by {
        if k < a.len() {
            assert((a + b)[k] == a[k]);
        } else {
            assert((a + b)[k] == b[k - a.len()]);
        }
    }
}


/// The token of a well-formed move other than the null move is not a
/// number: it starts with a letter.
proof fn lemma_move_token_not_number(m: UciMove)
    requires
        m.wf(),
        !(m is Null),
    ensures
        spec_parse_u64(crate::moves::spec_move_token(m)) is None,
{
    let t = crate::moves::spec_move_token(m);
    match m {
        crate::moves::UciMove::Normal { from, to, promotion } => {
            assert(!is_digit(t[0]));
        },
        crate::moves::UciMove::Put { role, to } => {
            assert(!is_digit(t[0]));
        },
        crate::moves::UciMove::Null => {},
    }
}

/// The shape of a serialized group: at least its keyword, whose token is
/// neither a move, nor a number, nor a bound suffix; and every token of
/// the group is a word.
proof fn lemma_group_shape(g: InfoGroup)
    requires
        wf_group(g),
    ensures
        group_toks(g).len() >= 1,
        !(spec_parse_move(group_toks(g)[0]) is Some),
        !(spec_parse_u64(group_toks(g)[0]) is Some),
        group_toks(g)[0] != KW_LOWERBOUND@,
        group_toks(g)[0] != KW_UPPERBOUND@,
        forall|k: int| 0 <= k < group_toks(g).len() ==> wordy(#[trigger] group_toks(g)[k]),
{
    let gt = group_toks(g);
    assert(!is_digit(gt[0][0]));
    match g {
        InfoGroup::ScoreG(sc) => {
            let x = match sc.value {
                ScoreValue::Centipawns(x) => x,
                ScoreValue::Mate(x) => x,
            };
            lemma_i16_bytes_val(x);
            assert forall|k: int| 0 <= k < gt.len() implies wordy(#[trigger] gt[k]) by {
                if k == 1 {
                    assert(wordy(gt[1]));
                }
            }
        },
        InfoGroup::CurrMove(m) => {
            lemma_move_token_wordy(m);
        },
        InfoGroup::RefutationG(r) => {
            lemma_move_token_wordy(r.refuted_move);
            assert forall|k: int| 0 <= k < gt.len() implies wordy(#[trigger] gt[k]) by {
                if k >= 2 {
                    assert(gt[k] == crate::moves::spec_move_token(r.refutation[k - 2]));
                    assert(r.refutation[k - 2].wf());
                    lemma_move_token_wordy(r.refutation[k - 2]);
                }
            }
        },
        InfoGroup::CurrentLineG(c) => {
            match c.cpu_number {
                Some(v) => {
                    lemma_dec_bytes_wordy(v as int);
                    assert forall|k: int| 0 <= k < gt.len() implies wordy(#[trigger] gt[k]) by {
                        if k >= 2 {
                            assert(gt[k] == crate::moves::spec_move_token(c.line[k - 2]));
                            assert(c.line[k - 2].wf());
                            lemma_move_token_wordy(c.line[k - 2]);
                        }
                    }
                },
                None => {
                    assert forall|k: int| 0 <= k < gt.len() implies wordy(#[trigger] gt[k]) by {
                        if k >= 1 {
                            assert(gt[k] == crate::moves::spec_move_token(c.line[k - 1]));
                            assert(c.line[k - 1].wf());
                            lemma_move_token_wordy(c.line[k - 1]);
                        }
                    }
                },
            }
        },
        InfoGroup::Pv(ms) => {
            assert forall|k: int| 0 <= k < gt.len() implies wordy(#[trigger] gt[k]) by {
                if k >= 1 {
                    assert(gt[k] == crate::moves::spec_move_token(ms[k - 1]));
                    assert(ms[k - 1].wf());
                    lemma_move_token_wordy(ms[k - 1]);
                }
            }
        },
        InfoGroup::StringG(t) => {
            lemma_tokens_wordy(t);
            assert forall|k: int| 0 <= k < gt.len() implies wordy(#[trigger] gt[k]) by {
                if k >= 1 {
                    assert(gt[k] == spec_tokens(t)[k - 1]);
                }
            }
        },
        InfoGroup::Depth(v) => {
            lemma_dec_bytes_wordy(v as int);
        },
        InfoGroup::SelDepth(v) => {
            lemma_dec_bytes_wordy(v as int);
        },
        InfoGroup::Time(v) => {
            lemma_dec_bytes_wordy(v as int);
        },
        InfoGroup::Nodes(v) => {
            lemma_dec_bytes_wordy(v as int);
        },
        InfoGroup::MultiPv(v) => {
            lemma_dec_bytes_wordy(v as int);
        },
        InfoGroup::CurrMoveNumber(v) => {
            lemma_dec_bytes_wordy(v as int);
        },
        InfoGroup::HashFull(v) => {
            lemma_dec_bytes_wordy(v as int);
        },
        InfoGroup::Nps(v) => {
            lemma_dec_bytes_wordy(v as int);
        },
        InfoGroup::TbHits(v) => {
            lemma_dec_bytes_wordy(v as int);
        },
        InfoGroup::SbHits(v) => {
            lemma_dec_bytes_wordy(v as int);
        },
        InfoGroup::CpuLoad(v) => {
            lemma_dec_bytes_wordy(v as int);
        },
    }
}

/// Every token of a well-formed group sequence is a word.
proof fn lemma_concat_toks_wordy(gs: Seq<InfoGroup>)
    requires
        groups_wf(gs),
    ensures
        forall|k: int| 0 <= k < concat_toks(gs).len() ==> wordy(#[trigger] concat_toks(gs)[k]),
    decreases gs.len(),
{
    if gs.len() > 0 {
        lemma_group_shape(gs[0]);
        assert(groups_wf(gs.skip(1))) by {
            assert forall|k: int|
                0 <= k < gs.skip(1).len() implies wf_group(#[trigger] gs.skip(1)[k]) && (gs.skip(
                1,
            )[k] is StringG ==> k == gs.skip(1).len() - 1) by {
                assert(gs.skip(1)[k] == gs[k + 1]);
            }
        }
        lemma_concat_toks_wordy(gs.skip(1));
        let ct = concat_toks(gs);
        let gt = group_toks(gs[0]);
        assert forall|k: int| 0 <= k < ct.len() implies wordy(#[trigger] ct[k]) by {
            if k < gt.len() {
                assert(ct[k] == gt[k]);
            } else {
                assert(ct[k] == concat_toks(gs.skip(1))[k - gt.len()]);
            }
        }
    }
}

/// Applying a concatenation of group sequences applies them in order.
proof fn lemma_apply_concat(acc: UciInfoData, a: Seq<InfoGroup>, b: Seq<InfoGroup>)
    ensures
        apply_groups(acc, a + b) == apply_groups(apply_groups(acc, a), b),
    decreases a.len(),
{
    if a.len() == 0 {
        assert(a + b =~= b);
    } else {
        assert((a + b)[0] == a[0]);
        assert((a + b).skip(1) =~= a.skip(1) + b);
        lemma_apply_concat(apply_group(acc, a[0]), a.skip(1), b);
    }
}


/// Scanning the tokens of a well-formed group sequence applies each
/// group to the accumulated `info` value in turn.
#[verifier::rlimit(100)]
proof fn lemma_scan_groups(T: Seq<Seq<u8>>, i: int, gs: Seq<InfoGroup>, acc: UciInfoData)
    requires
        0 <= i <= T.len(),
        T.skip(i) == concat_toks(gs),
        groups_wf(gs),
    ensures
        spec_info(T, i, acc) == Some(apply_groups(acc, gs)),
    decreases gs.len(),
{
    if gs.len() == 0 {
        assert(T.skip(i).len() == 0);
    } else {
        let g = gs[0];
        let gt = group_toks(g);
        let rest = gs.skip(1);
        assert(wf_group(g));
        lemma_group_shape(g);
        assert(concat_toks(gs) == gt + concat_toks(rest));
        assert(T.skip(i).len() == T.len() - i);
        assert(T.skip(i).len() == gt.len() + concat_toks(rest).len());
        let j = i + gt.len();
        assert(j <= T.len());
        assert forall|k: int| 0 <= k < gt.len() implies T[i + k] == gt[k] by {
            assert(T.skip(i)[k] == T[i + k]);
            assert(concat_toks(gs)[k] == gt[k]);
        }
        assert(T.skip(j) =~= concat_toks(rest)) by {
            assert forall|k: int|
                0 <= k < T.skip(j).len() implies T.skip(j)[k] == concat_toks(rest)[k] by {
                assert(T.skip(j)[k] == T[j + k]);
                assert(T.skip(i)[gt.len() + k] == T[i + (gt.len() + k)]);
                assert(concat_toks(gs)[gt.len() + k] == concat_toks(rest)[k]);
            }
        }
        assert(groups_wf(rest)) by {
            assert forall|k: int| 0 <= k < rest.len() implies wf_group(#[trigger] rest[k]) && (
            rest[k] is StringG ==> k == rest.len() - 1) by {
                assert(rest[k] == gs[k + 1]);
            }
        }
        if j < T.len() {
            assert(rest.len() > 0) by {
                assert(concat_toks(rest).len() == T.len() - j);
            }
            lemma_group_shape(rest[0]);
            assert(concat_toks(rest)[0] == group_toks(rest[0])[0]);
            assert(T[j] == group_toks(rest[0])[0]);
            assert(!(spec_parse_move(T[j]) is Some));
            assert(!(spec_parse_u64(T[j]) is Some));
        }
        if g is StringG {
            let t = match g {
                InfoGroup::StringG(t) => t,
                _ => Seq::empty(),
            };
            assert(0 == gs.len() - 1);
            assert(rest.len() == 0);
            assert(concat_toks(rest).len() == 0);
            assert(j == T.len());
            assert(T.skip(i + 1) =~= spec_tokens(t)) by {
                assert(T.skip(i).len() == 1 + spec_tokens(t).len());
                assert forall|k: int|
                    0 <= k < T.skip(i + 1).len() implies T.skip(i + 1)[k] == spec_tokens(t)[k] by {
                    assert(T.skip(i + 1)[k] == T[i + 1 + k]);
                    assert(T[i + (1 + k)] == gt[1 + k]);
                    assert(gt[1 + k] == spec_tokens(t)[k]);
                }
            }
            assert(join_sp(T.skip(i + 1)) == t);
            assert(spec_info(T, i, acc) == Some(apply_group(acc, g)));
            assert(apply_groups(acc, gs) == apply_groups(apply_group(acc, g), rest));
        } else {
            match g {
            InfoGroup::Depth(v) => {
                lemma_dec_bytes_val(v as int);
                assert(spec_info(T, i, acc) == spec_info(T, j, apply_group(acc, g)));
            },
            InfoGroup::SelDepth(v) => {
                lemma_dec_bytes_val(v as int);
                assert(spec_info(T, i, acc) == spec_info(T, j, apply_group(acc, g)));
            },
            InfoGroup::Time(v) => {
                lemma_dec_bytes_val(v as int);
                assert(spec_info(T, i, acc) == spec_info(T, j, apply_group(acc, g)));
            },
            InfoGroup::Nodes(v) => {
                lemma_dec_bytes_val(v as int);
                assert(spec_info(T, i, acc) == spec_info(T, j, apply_group(acc, g)));
            },
            InfoGroup::MultiPv(v) => {
                lemma_dec_bytes_val(v as int);
                assert(spec_info(T, i, acc) == spec_info(T, j, apply_group(acc, g)));
            },
            InfoGroup::CurrMoveNumber(v) => {
                lemma_dec_bytes_val(v as int);
                assert(spec_info(T, i, acc) == spec_info(T, j, apply_group(acc, g)));
            },
            InfoGroup::HashFull(v) => {
                lemma_dec_bytes_val(v as int);
                assert(spec_info(T, i, acc) == spec_info(T, j, apply_group(acc, g)));
            },
            InfoGroup::Nps(v) => {
                lemma_dec_bytes_val(v as int);
                assert(spec_info(T, i, acc) == spec_info(T, j, apply_group(acc, g)));
            },
            InfoGroup::TbHits(v) => {
                lemma_dec_bytes_val(v as int);
                assert(spec_info(T, i, acc) == spec_info(T, j, apply_group(acc, g)));
            },
            InfoGroup::SbHits(v) => {
                lemma_dec_bytes_val(v as int);
                assert(spec_info(T, i, acc) == spec_info(T, j, apply_group(acc, g)));
            },
            InfoGroup::CpuLoad(v) => {
                lemma_dec_bytes_val(v as int);
                assert(spec_info(T, i, acc) == spec_info(T, j, apply_group(acc, g)));
            },
            InfoGroup::ScoreG(sc) => {
                let kind = match sc.value {
                    ScoreValue::Centipawns(y) => KW_CP@,
                    ScoreValue::Mate(y) => KW_MATE@,
                };
                let x = match sc.value {
                    ScoreValue::Centipawns(y) => y,
                    ScoreValue::Mate(y) => y,
                };
                let bound = match sc.bound {
                    ScoreBound::Exact => Seq::<Seq<u8>>::empty(),
                    ScoreBound::Lower => seq![KW_LOWERBOUND@],
                    ScoreBound::Upper => seq![KW_UPPERBOUND@],
                };
                assert(gt == seq![KW_SCORE@, kind, i16_bytes(x)] + bound);
                lemma_i16_bytes_val(x);
                assert(gt[0] == KW_SCORE@ && gt[1] == kind && gt[2] == i16_bytes(x));
                assert(T[i + 0] == KW_SCORE@);
                assert(T[i + 1] == kind);
                assert(T[i + 2] == i16_bytes(x));
                match sc.bound {
                    ScoreBound::Exact => {
                        assert(spec_score(T, i + 1) == Some((sc, j)));
                    },
                    ScoreBound::Lower => {
                        assert(gt[3] == bound[0]);
                        assert(T[i + 3] == KW_LOWERBOUND@);
                        assert(spec_score(T, i + 1) == Some((sc, j)));
                    },
                    ScoreBound::Upper => {
                        assert(gt[3] == bound[0]);
                        assert(T[i + 3] == KW_UPPERBOUND@);
                        assert(spec_score(T, i + 1) == Some((sc, j)));
                    },
                }
                assert(spec_info(T, i, acc) == spec_info(T, j, apply_group(acc, g)));
            },
            InfoGroup::CurrMove(m) => {
                crate::moves::lemma_move_token_round_trip(m);
                assert(gt[1] == crate::moves::spec_move_token(m));
                assert(T[i + 0] == KW_CURRMOVE@);
                assert(T[i + 1] == crate::moves::spec_move_token(m));
                assert(spec_info(T, i, acc) == spec_info(T, j, apply_group(acc, g)));
            },
            InfoGroup::RefutationG(r) => {
                crate::moves::lemma_move_token_round_trip(r.refuted_move);
                assert(gt[1] == crate::moves::spec_move_token(r.refuted_move));
                assert(T[i + 0] == KW_REFUTATION@);
                assert(T[i + 1] == crate::moves::spec_move_token(r.refuted_move));
                assert forall|k: int|
                    0 <= k < r.refutation.len() implies (#[trigger] r.refutation[k]).wf() && T[i
                    + 2 + k] == crate::moves::spec_move_token(r.refutation[k]) by {
                    assert(gt[2 + k] == moves_token_list(r.refutation)[k]);
                    assert(T[i + (2 + k)] == gt[2 + k]);
                }
                lemma_moves_run_exact(T, i + 2, r.refutation);
                assert(spec_info(T, i, acc) == spec_info(T, j, apply_group(acc, g)));
            },
            InfoGroup::CurrentLineG(c) => {
                match c.cpu_number {
                    Some(v) => {
                        lemma_dec_bytes_val(v as int);
                        assert(gt[1] == dec_bytes(v as int));
                        assert(T[i + 0] == KW_CURRENTLINE@);
                        assert(T[i + 1] == dec_bytes(v as int));
                        assert(i + 1 < T.len());
                        assert forall|k: int|
                            0 <= k < c.line.len() implies (#[trigger] c.line[k]).wf() && T[i + 2
                            + k] == crate::moves::spec_move_token(c.line[k]) by {
                            assert(gt[2 + k] == moves_token_list(c.line)[k]);
                            assert(T[i + (2 + k)] == gt[2 + k]);
                        }
                        lemma_moves_run_exact(T, i + 2, c.line);
                        assert(spec_info(T, i, acc) == spec_info(T, j, apply_group(acc, g)));
                    },
                    None => {
                        if i + 1 < T.len() {
                            if c.line.len() > 0 {
                                assert(gt[1] == moves_token_list(c.line)[0]);
                                assert(T[i + 1] == crate::moves::spec_move_token(c.line[0]));
                                assert(c.line[0].wf() && !(c.line[0] is Null));
                                lemma_move_token_not_number(c.line[0]);
                            }
                        }
                        assert forall|k: int|
                            0 <= k < c.line.len() implies (#[trigger] c.line[k]).wf() && T[i + 1
                            + k] == crate::moves::spec_move_token(c.line[k]) by {
                            assert(gt[1 + k] == moves_token_list(c.line)[k]);
                            assert(T[i + (1 + k)] == gt[1 + k]);
                        }
                        lemma_moves_run_exact(T, i + 1, c.line);
                        assert(spec_info(T, i, acc) == spec_info(T, j, apply_group(acc, g)));
                    },
                }
            },
            InfoGroup::Pv(ms) => {
                assert forall|k: int|
                    0 <= k < ms.len() implies (#[trigger] ms[k]).wf() && T[i + 1 + k]
                    == crate::moves::spec_move_token(ms[k]) by {
                    assert(gt[1 + k] == moves_token_list(ms)[k]);
                    assert(T[i + (1 + k)] == gt[1 + k]);
                }
                lemma_moves_run_exact(T, i + 1, ms);
                assert(spec_info(T, i, acc) == spec_info(T, j, apply_group(acc, g)));
            },
            InfoGroup::StringG(t) => {
                assert(false);
            },
            }
            lemma_scan_groups(T, j, rest, apply_group(acc, g));
        }
    }
}


/// Applying zero or one group.
proof fn lemma_apply_opt(acc: UciInfoData, o: Option<InfoGroup>)
    ensures
        apply_groups(acc, opt_group(o)) == match o {
            Some(g) => apply_group(acc, g),
            None => acc,
        },
{
    match o {
        Some(g) => {
            assert(seq![g].skip(1) =~= Seq::<InfoGroup>::empty());
            assert(apply_groups(apply_group(acc, g), Seq::<InfoGroup>::empty()) == apply_group(
                acc,
                g,
            ));
        },
        None => {},
    }
}

/// The `info` value after applying the first nine groups: the leading
/// fields taken over, the rest still unset.
pub open spec fn first_groups_value(d: UciInfoData) -> UciInfoData {
    UciInfoData {
        depth: d.depth,
        selective_depth: d.selective_depth,
        time: d.time,
        nodes: d.nodes,
        multi_pv: d.multi_pv,
        score: d.score,
        current_move: d.current_move,
        current_move_number: d.current_move_number,
        hash_full: d.hash_full,
        nodes_per_second: None,
        table_hits: None,
        shredder_hits: None,
        cpu_load: None,
        refutation: None,
        current_line: None,
        principal_variation: None,
        string: None,
    }
}

/// Folding the first nine groups over the empty value takes over exactly
/// the leading fields.
#[verifier::rlimit(100)]
proof fn lemma_groups_first(d: UciInfoData, gs: Seq<InfoGroup>)
    requires
        gs == first_groups_of(d),
    ensures
        apply_groups(empty_info(), gs) == first_groups_value(d),
{
    let g1 = opt_group(
        match d.depth {
            Some(v) => Some(InfoGroup::Depth(v)),
            None => None,
        },
    );
    let g2 = opt_group(
        match d.selective_depth {
            Some(v) => Some(InfoGroup::SelDepth(v)),
            None => None,
        },
    );
    let g3 = opt_group(
        match d.time {
            Some(v) => Some(InfoGroup::Time(v)),
            None => None,
        },
    );
    let g4 = opt_group(
        match d.nodes {
            Some(v) => Some(InfoGroup::Nodes(v)),
            None => None,
        },
    );
    let g5 = opt_group(
        match d.multi_pv {
            Some(v) => Some(InfoGroup::MultiPv(v)),
            None => None,
        },
    );
    let g6 = opt_group(
        match d.score {
            Some(sc) => Some(InfoGroup::ScoreG(sc)),
            None => None,
        },
    );
    let g7 = opt_group(
        match d.current_move {
            Some(m) => Some(InfoGroup::CurrMove(m)),
            None => None,
        },
    );
    let g8 = opt_group(
        match d.current_move_number {
            Some(v) => Some(InfoGroup::CurrMoveNumber(v)),
            None => None,
        },
    );
    let g9 = opt_group(
        match d.hash_full {
            Some(v) => Some(InfoGroup::HashFull(v)),
            None => None,
        },
    );
    let p1 = g1;
    let p2 = p1 + g2;
    let p3 = p2 + g3;
    let p4 = p3 + g4;
    let p5 = p4 + g5;
    let p6 = p5 + g6;
    let p7 = p6 + g7;
    let p8 = p7 + g8;
    let p9 = p8 + g9;
    assert(gs == p9);
    lemma_apply_concat(empty_info(), p8, g9);
    lemma_apply_concat(empty_info(), p7, g8);
    lemma_apply_concat(empty_info(), p6, g7);
    lemma_apply_concat(empty_info(), p5, g6);
    lemma_apply_concat(empty_info(), p4, g5);
    lemma_apply_concat(empty_info(), p3, g4);
    lemma_apply_concat(empty_info(), p2, g3);
    lemma_apply_concat(empty_info(), p1, g2);
    lemma_apply_opt(
        empty_info(),
        match d.depth {
            Some(v) => Some(InfoGroup::Depth(v)),
            None => None,
        },
    );
    lemma_apply_opt(
        apply_groups(empty_info(), p1),
        match d.selective_depth {
            Some(v) => Some(InfoGroup::SelDepth(v)),
            None => None,
        },
    );
    lemma_apply_opt(
        apply_groups(empty_info(), p2),
        match d.time {
            Some(v) => Some(InfoGroup::Time(v)),
            None => None,
        },
    );
    lemma_apply_opt(
        apply_groups(empty_info(), p3),
        match d.nodes {
            Some(v) => Some(InfoGroup::Nodes(v)),
            None => None,
        },
    );
    lemma_apply_opt(
        apply_groups(empty_info(), p4),
        match d.multi_pv {
            Some(v) => Some(InfoGroup::MultiPv(v)),
            None => None,
        },
    );
    lemma_apply_opt(
        apply_groups(empty_info(), p5),
        match d.score {
            Some(sc) => Some(InfoGroup::ScoreG(sc)),
            None => None,
        },
    );
    lemma_apply_opt(
        apply_groups(empty_info(), p6),
        match d.current_move {
            Some(m) => Some(InfoGroup::CurrMove(m)),
            None => None,
        },
    );
    lemma_apply_opt(
        apply_groups(empty_info(), p7),
        match d.current_move_number {
            Some(v) => Some(InfoGroup::CurrMoveNumber(v)),
            None => None,
        },
    );
    lemma_apply_opt(
        apply_groups(empty_info(), p8),
        match d.hash_full {
            Some(v) => Some(InfoGroup::HashFull(v)),
            None => None,
        },
    );
}

/// Folding the remaining eight groups over the half-built value rebuilds
/// the whole value.
#[verifier::rlimit(100)]
proof fn lemma_groups_second(d: UciInfoData, mid: UciInfoData, gs: Seq<InfoGroup>)
    requires
        mid == first_groups_value(d),
        gs == second_groups_of(d),
    ensures
        apply_groups(mid, gs) == d,
{
    let g1 = opt_group(
        match d.nodes_per_second {
            Some(v) => Some(InfoGroup::Nps(v)),
            None => None,
        },
    );
    let g2 = opt_group(
        match d.table_hits {
            Some(v) => Some(InfoGroup::TbHits(v)),
            None => None,
        },
    );
    let g3 = opt_group(
        match d.shredder_hits {
            Some(v) => Some(InfoGroup::SbHits(v)),
            None => None,
        },
    );
    let g4 = opt_group(
        match d.cpu_load {
            Some(v) => Some(InfoGroup::CpuLoad(v)),
            None => None,
        },
    );
    let g5 = opt_group(
        match d.refutation {
            Some(r) => Some(InfoGroup::RefutationG(r)),
            None => None,
        },
    );
    let g6 = opt_group(
        match d.current_line {
            Some(c) => Some(InfoGroup::CurrentLineG(c)),
            None => None,
        },
    );
    let g7 = opt_group(
        match d.principal_variation {
            Some(ms) => Some(InfoGroup::Pv(ms)),
            None => None,
        },
    );
    let g8 = opt_group(
        match d.string {
            Some(t) => Some(InfoGroup::StringG(t)),
            None => None,
        },
    );
    let p1 = g1;
    let p2 = p1 + g2;
    let p3 = p2 + g3;
    let p4 = p3 + g4;
    let p5 = p4 + g5;
    let p6 = p5 + g6;
    let p7 = p6 + g7;
    let p8 = p7 + g8;
    assert(gs == p8);
    lemma_apply_concat(mid, p7, g8);
    lemma_apply_concat(mid, p6, g7);
    lemma_apply_concat(mid, p5, g6);
    lemma_apply_concat(mid, p4, g5);
    lemma_apply_concat(mid, p3, g4);
    lemma_apply_concat(mid, p2, g3);
    lemma_apply_concat(mid, p1, g2);
    lemma_apply_opt(
        mid,
        match d.nodes_per_second {
            Some(v) => Some(InfoGroup::Nps(v)),
            None => None,
        },
    );
    lemma_apply_opt(
        apply_groups(mid, p1),
        match d.table_hits {
            Some(v) => Some(InfoGroup::TbHits(v)),
            None => None,
        },
    );
    lemma_apply_opt(
        apply_groups(mid, p2),
        match d.shredder_hits {
            Some(v) => Some(InfoGroup::SbHits(v)),
            None => None,
        },
    );
    lemma_apply_opt(
        apply_groups(mid, p3),
        match d.cpu_load {
            Some(v) => Some(InfoGroup::CpuLoad(v)),
            None => None,
        },
    );
    lemma_apply_opt(
        apply_groups(mid, p4),
        match d.refutation {
            Some(r) => Some(InfoGroup::RefutationG(r)),
            None => None,
        },
    );
    lemma_apply_opt(
        apply_groups(mid, p5),
        match d.current_line {
            Some(c) => Some(InfoGroup::CurrentLineG(c)),
            None => None,
        },
    );
    lemma_apply_opt(
        apply_groups(mid, p6),
        match d.principal_variation {
            Some(ms) => Some(InfoGroup::Pv(ms)),
            None => None,
        },
    );
    lemma_apply_opt(
        apply_groups(mid, p7),
        match d.string {
            Some(t) => Some(InfoGroup::StringG(t)),
            None => None,
        },
    );
}

/// The first nine groups of an `info` value.
pub open spec fn first_groups_of(d: UciInfoData) -> Seq<InfoGroup> {
    opt_group(match d.depth { Some(v) => Some(InfoGroup::Depth(v)), None => None })
    + opt_group(match d.selective_depth { Some(v) => Some(InfoGroup::SelDepth(v)), None => None })
    + opt_group(match d.time { Some(v) => Some(InfoGroup::Time(v)), None => None })
    + opt_group(match d.nodes { Some(v) => Some(InfoGroup::Nodes(v)), None => None })
    + opt_group(match d.multi_pv { Some(v) => Some(InfoGroup::MultiPv(v)), None => None })
    + opt_group(match d.score { Some(sc) => Some(InfoGroup::ScoreG(sc)), None => None })
    + opt_group(match d.current_move { Some(m) => Some(InfoGroup::CurrMove(m)), None => None })
    + opt_group(
        match d.current_move_number { Some(v) => Some(InfoGroup::CurrMoveNumber(v)), None => None },
    )
    + opt_group(match d.hash_full { Some(v) => Some(InfoGroup::HashFull(v)), None => None })
}

/// The remaining eight groups of an `info` value.
pub open spec fn second_groups_of(d: UciInfoData) -> Seq<InfoGroup> {
    opt_group(match d.nodes_per_second { Some(v) => Some(InfoGroup::Nps(v)), None => None })
    + opt_group(match d.table_hits { Some(v) => Some(InfoGroup::TbHits(v)), None => None })
    + opt_group(match d.shredder_hits { Some(v) => Some(InfoGroup::SbHits(v)), None => None })
    + opt_group(match d.cpu_load { Some(v) => Some(InfoGroup::CpuLoad(v)), None => None })
    + opt_group(match d.refutation { Some(r) => Some(InfoGroup::RefutationG(r)), None => None })
    + opt_group(
        match d.current_line { Some(c) => Some(InfoGroup::CurrentLineG(c)), None => None },
    )
    + opt_group(
        match d.principal_variation { Some(ms) => Some(InfoGroup::Pv(ms)), None => None },
    )
    + opt_group(match d.string { Some(t) => Some(InfoGroup::StringG(t)), None => None })
}

/// Concatenation of group sequences is associative.
proof fn lemma_assoc(a: Seq<InfoGroup>, b: Seq<InfoGroup>, c: Seq<InfoGroup>)
    ensures
        (a + b) + c == a + (b + c),
{
    assert((a + b) + c =~= a + (b + c));
}

/// The groups of a value are its first nine and its remaining eight.
proof fn lemma_groups_split(d: UciInfoData)
    ensures
        groups_of(d) == first_groups_of(d) + second_groups_of(d),
{
    let a10 = opt_group(
        match d.nodes_per_second {
            Some(v) => Some(InfoGroup::Nps(v)),
            None => None,
        },
    );
    let a11 = opt_group(
        match d.table_hits {
            Some(v) => Some(InfoGroup::TbHits(v)),
            None => None,
        },
    );
    let a12 = opt_group(
        match d.shredder_hits {
            Some(v) => Some(InfoGroup::SbHits(v)),
            None => None,
        },
    );
    let a13 = opt_group(
        match d.cpu_load {
            Some(v) => Some(InfoGroup::CpuLoad(v)),
            None => None,
        },
    );
    let a14 = opt_group(
        match d.refutation {
            Some(r) => Some(InfoGroup::RefutationG(r)),
            None => None,
        },
    );
    let a15 = opt_group(
        match d.current_line {
            Some(c) => Some(InfoGroup::CurrentLineG(c)),
            None => None,
        },
    );
    let a16 = opt_group(
        match d.principal_variation {
            Some(ms) => Some(InfoGroup::Pv(ms)),
            None => None,
        },
    );
    let a17 = opt_group(
        match d.string {
            Some(t) => Some(InfoGroup::StringG(t)),
            None => None,
        },
    );
    let f = first_groups_of(d);
    let s11 = a10 + a11;
    lemma_assoc(f, a10, a11);
    let s12 = s11 + a12;
    lemma_assoc(f, s11, a12);
    let s13 = s12 + a13;
    lemma_assoc(f, s12, a13);
    let s14 = s13 + a14;
    lemma_assoc(f, s13, a14);
    let s15 = s14 + a15;
    lemma_assoc(f, s14, a15);
    let s16 = s15 + a16;
    lemma_assoc(f, s15, a16);
    let s17 = s16 + a17;
    lemma_assoc(f, s16, a17);
}

/// Folding the groups of an `info` value over the empty value rebuilds
/// the value.
proof fn lemma_groups_meaning(d: UciInfoData)
    ensures
        apply_groups(empty_info(), groups_of(d)) == d,
{
    lemma_groups_split(d);
    lemma_apply_concat(empty_info(), first_groups_of(d), second_groups_of(d));
    lemma_groups_first(d, first_groups_of(d));
    lemma_groups_second(d, first_groups_value(d), second_groups_of(d));
}

/// The first nine groups of a well-formed value are well-formed and
/// string-free.
#[verifier::rlimit(100)]
proof fn lemma_wf_first(d: UciInfoData)
    requires
        wf_info(d),
    ensures
        wf_nostring(first_groups_of(d)),
{
    let a1 = opt_group(
        match d.depth {
            Some(v) => Some(InfoGroup::Depth(v)),
            None => None,
        },
    );
    let a2 = opt_group(
        match d.selective_depth {
            Some(v) => Some(InfoGroup::SelDepth(v)),
            None => None,
        },
    );
    let a3 = opt_group(
        match d.time {
            Some(v) => Some(InfoGroup::Time(v)),
            None => None,
        },
    );
    let a4 = opt_group(
        match d.nodes {
            Some(v) => Some(InfoGroup::Nodes(v)),
            None => None,
        },
    );
    let a5 = opt_group(
        match d.multi_pv {
            Some(v) => Some(InfoGroup::MultiPv(v)),
            None => None,
        },
    );
    let a6 = opt_group(
        match d.score {
            Some(sc) => Some(InfoGroup::ScoreG(sc)),
            None => None,
        },
    );
    let a7 = opt_group(
        match d.current_move {
            Some(m) => Some(InfoGroup::CurrMove(m)),
            None => None,
        },
    );
    let a8 = opt_group(
        match d.current_move_number {
            Some(v) => Some(InfoGroup::CurrMoveNumber(v)),
            None => None,
        },
    );
    let a9 = opt_group(
        match d.hash_full {
            Some(v) => Some(InfoGroup::HashFull(v)),
            None => None,
        },
    );
    assert(wf_nostring(a1));
    assert(wf_nostring(a2));
    assert(wf_nostring(a3));
    assert(wf_nostring(a4));
    assert(wf_nostring(a5));
    assert(wf_nostring(a6));
    assert(wf_nostring(a7));
    assert(wf_nostring(a8));
    assert(wf_nostring(a9));
    let p1 = a1;
    let p2 = p1 + a2;
    lemma_wf_nostring_concat(p1, a2);
    let p3 = p2 + a3;
    lemma_wf_nostring_concat(p2, a3);
    let p4 = p3 + a4;
    lemma_wf_nostring_concat(p3, a4);
    let p5 = p4 + a5;
    lemma_wf_nostring_concat(p4, a5);
    let p6 = p5 + a6;
    lemma_wf_nostring_concat(p5, a6);
    let p7 = p6 + a7;
    lemma_wf_nostring_concat(p6, a7);
    let p8 = p7 + a8;
    lemma_wf_nostring_concat(p7, a8);
    let p9 = p8 + a9;
    lemma_wf_nostring_concat(p8, a9);
    assert(first_groups_of(d) == p9);
}

/// The remaining eight groups of a well-formed value are well-formed,
/// with the string group, if any, at the end.
#[verifier::rlimit(100)]
proof fn lemma_wf_second(d: UciInfoData)
    requires
        wf_info(d),
    ensures
        groups_wf(second_groups_of(d)),
{
    let a1 = opt_group(
        match d.nodes_per_second {
            Some(v) => Some(InfoGroup::Nps(v)),
            None => None,
        },
    );
    let a2 = opt_group(
        match d.table_hits {
            Some(v) => Some(InfoGroup::TbHits(v)),
            None => None,
        },
    );
    let a3 = opt_group(
        match d.shredder_hits {
            Some(v) => Some(InfoGroup::SbHits(v)),
            None => None,
        },
    );
    let a4 = opt_group(
        match d.cpu_load {
            Some(v) => Some(InfoGroup::CpuLoad(v)),
            None => None,
        },
    );
    let a5 = opt_group(
        match d.refutation {
            Some(r) => Some(InfoGroup::RefutationG(r)),
            None => None,
        },
    );
    let a6 = opt_group(
        match d.current_line {
            Some(c) => Some(InfoGroup::CurrentLineG(c)),
            None => None,
        },
    );
    let a7 = opt_group(
        match d.principal_variation {
            Some(ms) => Some(InfoGroup::Pv(ms)),
            None => None,
        },
    );
    let a8 = opt_group(
        match d.string {
            Some(t) => Some(InfoGroup::StringG(t)),
            None => None,
        },
    );
    assert(wf_nostring(a1));
    assert(wf_nostring(a2));
    assert(wf_nostring(a3));
    assert(wf_nostring(a4));
    assert(wf_nostring(a5));
    assert(wf_nostring(a6));
    assert(wf_nostring(a7));
    assert(groups_wf(a8));
    let p1 = a1;
    let p2 = p1 + a2;
    lemma_wf_nostring_concat(p1, a2);
    let p3 = p2 + a3;
    lemma_wf_nostring_concat(p2, a3);
    let p4 = p3 + a4;
    lemma_wf_nostring_concat(p3, a4);
    let p5 = p4 + a5;
    lemma_wf_nostring_concat(p4, a5);
    let p6 = p5 + a6;
    lemma_wf_nostring_concat(p5, a6);
    let p7 = p6 + a7;
    lemma_wf_nostring_concat(p6, a7);
    lemma_wf_concat_last(p7, a8);
    assert(second_groups_of(d) == p7 + a8);
}

/// A well-formed `info` value yields a well-formed group sequence, with
/// the string group, if any, at the very end.
proof fn lemma_wf_info_groups(d: UciInfoData)
    requires
        wf_info(d),
    ensures
        groups_wf(groups_of(d)),
{
    lemma_groups_split(d);
    lemma_wf_first(d);
    lemma_wf_second(d);
    lemma_wf_concat_last(first_groups_of(d), second_groups_of(d));
}

/// The codec round-trips `info` lines: rendering any well-formed `info`
/// value as a line and parsing it back gives exactly the value.
pub proof fn lemma_info_round_trip(d: UciInfoData)
    requires
        wf_info(d),
    ensures
        spec_parse_line(join_sp(info_tokens(d))) == Some(UciToGuiCmdData::Info(d)),
{
    let T = info_tokens(d);
    lemma_wf_info_groups(d);
    lemma_concat_toks_wordy(groups_of(d));
    assert(wordy(KW_INFO@));
    assert forall|k: int| 0 <= k < T.len() implies wordy(#[trigger] T[k]) by {
        if k > 0 {
            assert(T[k] == concat_toks(groups_of(d))[k - 1]);
        }
    }
    lemma_tokens_of_join(T);
    assert(T.skip(1) =~= concat_toks(groups_of(d)));
    lemma_scan_groups(T, 1, groups_of(d), empty_info());
    lemma_groups_meaning(d);
}


/// Concatenation of token sequences is associative.
proof fn lemma_assoc_toks(a: Seq<Seq<u8>>, b: Seq<Seq<u8>>, c: Seq<Seq<u8>>)
    ensures
        (a + b) + c == a + (b + c),
{
    assert((a + b) + c =~= a + (b + c));
}

/// The tokens of concatenated group sequences are the concatenated
/// tokens.
proof fn lemma_concat_concat(a: Seq<InfoGroup>, b: Seq<InfoGroup>)
    ensures
        concat_toks(a + b) == concat_toks(a) + concat_toks(b),
    decreases a.len(),
{
    if a.len() == 0 {
        assert(a + b =~= b);
        assert(concat_toks(a) + concat_toks(b) =~= concat_toks(b));
    } else {
        assert((a + b)[0] == a[0]);
        assert((a + b).skip(1) =~= a.skip(1) + b);
        lemma_concat_concat(a.skip(1), b);
        lemma_assoc_toks(group_toks(a[0]), concat_toks(a.skip(1)), concat_toks(b));
    }
}

/// The tokens of at most one group.
proof fn lemma_concat_single(gs: Seq<InfoGroup>)
    requires
        gs.len() <= 1,
    ensures
        concat_toks(gs) == if gs.len() == 0 {
            Seq::<Seq<u8>>::empty()
        } else {
            group_toks(gs[0])
        },
{
    if gs.len() == 1 {
        assert(gs.skip(1) =~= Seq::<InfoGroup>::empty());
        assert(concat_toks(gs.skip(1)) =~= Seq::<Seq<u8>>::empty());
        assert(group_toks(gs[0]) + concat_toks(gs.skip(1)) =~= group_toks(gs[0]));
    }
}

/// Copies a byte slice into a fresh vector.
fn bytes_of(s: &[u8]) -> (r: Vec<u8>)
    ensures
        r@ == s@,
{
    let mut v: Vec<u8> = Vec::new();
    crate::bytes::append_bytes(&mut v, s);
    proof {
        assert(v@ =~= s@);
    }
    v
}

/// Renders a signed value in decimal.
pub fn i16_dec(v: i16) -> (r: Vec<u8>)
    ensures
        r@ == i16_bytes(v),
{
    if v >= 0 {
        u64_dec(v as u64)
    } else {
        let mut out: Vec<u8> = Vec::new();
        out.push(45);
        let mag: u64 = (0 - (v as i32)) as u64;
        let digits = u64_dec(mag);
        crate::bytes::append_bytes(&mut out, digits.as_slice());
        proof {
            assert(mag as int == 0 - (v as int));
            assert(out@ =~= i16_bytes(v));
        }
        out
    }
}

/// Appends the token of each move of a line.
fn push_move_tokens(out: &mut Vec<Vec<u8>>, ms: &Vec<UciMove>)
    requires
        all_moves_wf(ms@),
    ensures
        final(out).deep_view() == old(out).deep_view() + moves_token_list(ms@),
{
    let ghost base = out.deep_view();
    let mut k: usize = 0;
    proof {
        assert(base + moves_token_list(ms@).take(0) =~= base);
    }
    while k < ms.len()
        invariant
            k <= ms@.len(),
            all_moves_wf(ms@),
            out.deep_view() == base + moves_token_list(ms@).take(k as int),
        decreases ms@.len() - k,
    {
        proof {
            assert(ms@[k as int].wf());
        }
        let tok = crate::moves::uci_move_token(&ms[k]);
        let ghost prevd = out.deep_view();
        out.push(tok);
        k = k + 1;
        proof {
            let l = moves_token_list(ms@);
            assert(out.deep_view() =~~= prevd.push(l[k - 1]));
            assert(l.take(k as int) =~= l.take(k - 1).push(l[k - 1]));
            assert((base + l.take(k - 1)).push(l[k - 1]) =~= base + l.take(k as int));
            assert(out.deep_view() == base + l.take(k as int));
        }
    }
    proof {
        assert(moves_token_list(ms@).take(ms@.len() as int) =~= moves_token_list(ms@));
    }
}

/// Appends one optional `info` keyword group.
fn push_group_depth(out: &mut Vec<Vec<u8>>, info: &UciInfo)
    requires
        wf_info(info.deep_view()),
    ensures
        final(out).deep_view() == old(out).deep_view() + concat_toks(
            opt_group(
                match info.deep_view().depth {
            Some(v) => Some(InfoGroup::Depth(v)),
            None => None,
        },
            ),
        ),
{
    let ghost d = info.deep_view();
    let ghost base = out.deep_view();
    let ghost seg = opt_group(
        match d.depth {
            Some(v) => Some(InfoGroup::Depth(v)),
            None => None,
        },
    );
    match &info.depth {
        Some(v) => {
            out.push(bytes_of(KW_DEPTH.as_slice()));
            out.push(u64_dec(*v));
        },
        None => {},
    }
    proof {
        lemma_concat_single(seg);
        assert(out.deep_view() =~~= base + concat_toks(seg));
    }
}

/// Appends one optional `info` keyword group.
fn push_group_seldepth(out: &mut Vec<Vec<u8>>, info: &UciInfo)
    requires
        wf_info(info.deep_view()),
    ensures
        final(out).deep_view() == old(out).deep_view() + concat_toks(
            opt_group(
                match info.deep_view().selective_depth {
            Some(v) => Some(InfoGroup::SelDepth(v)),
            None => None,
        },
            ),
        ),
{
    let ghost d = info.deep_view();
    let ghost base = out.deep_view();
    let ghost seg = opt_group(
        match d.selective_depth {
            Some(v) => Some(InfoGroup::SelDepth(v)),
            None => None,
        },
    );
    match &info.selective_depth {
        Some(v) => {
            out.push(bytes_of(KW_SELDEPTH.as_slice()));
            out.push(u64_dec(*v));
        },
        None => {},
    }
    proof {
        lemma_concat_single(seg);
        assert(out.deep_view() =~~= base + concat_toks(seg));
    }
}

/// Appends one optional `info` keyword group.
fn push_group_time(out: &mut Vec<Vec<u8>>, info: &UciInfo)
    requires
        wf_info(info.deep_view()),
    ensures
        final(out).deep_view() == old(out).deep_view() + concat_toks(
            opt_group(
                match info.deep_view().time {
            Some(v) => Some(InfoGroup::Time(v)),
            None => None,
        },
            ),
        ),
{
    let ghost d = info.deep_view();
    let ghost base = out.deep_view();
    let ghost seg = opt_group(
        match d.time {
            Some(v) => Some(InfoGroup::Time(v)),
            None => None,
        },
    );
    match &info.time {
        Some(v) => {
            out.push(bytes_of(KW_TIME.as_slice()));
            out.push(u64_dec(*v));
        },
        None => {},
    }
    proof {
        lemma_concat_single(seg);
        assert(out.deep_view() =~~= base + concat_toks(seg));
    }
}

/// Appends one optional `info` keyword group.
fn push_group_nodes(out: &mut Vec<Vec<u8>>, info: &UciInfo)
    requires
        wf_info(info.deep_view()),
    ensures
        final(out).deep_view() == old(out).deep_view() + concat_toks(
            opt_group(
                match info.deep_view().nodes {
            Some(v) => Some(InfoGroup::Nodes(v)),
            None => None,
        },
            ),
        ),
{
    let ghost d = info.deep_view();
    let ghost base = out.deep_view();
    let ghost seg = opt_group(
        match d.nodes {
            Some(v) => Some(InfoGroup::Nodes(v)),
            None => None,
        },
    );
    match &info.nodes {
        Some(v) => {
            out.push(bytes_of(KW_NODES.as_slice()));
            out.push(u64_dec(*v));
        },
        None => {},
    }
    proof {
        lemma_concat_single(seg);
        assert(out.deep_view() =~~= base + concat_toks(seg));
    }
}

/// Appends one optional `info` keyword group.
fn push_group_multipv(out: &mut Vec<Vec<u8>>, info: &UciInfo)
    requires
        wf_info(info.deep_view()),
    ensures
        final(out).deep_view() == old(out).deep_view() + concat_toks(
            opt_group(
                match info.deep_view().multi_pv {
            Some(v) => Some(InfoGroup::MultiPv(v)),
            None => None,
        },
            ),
        ),
{
    let ghost d = info.deep_view();
    let ghost base = out.deep_view();
    let ghost seg = opt_group(
        match d.multi_pv {
            Some(v) => Some(InfoGroup::MultiPv(v)),
            None => None,
        },
    );
    match &info.multi_pv {
        Some(v) => {
            out.push(bytes_of(KW_MULTIPV.as_slice()));
            out.push(u64_dec(*v));
        },
        None => {},
    }
    proof {
        lemma_concat_single(seg);
        assert(out.deep_view() =~~= base + concat_toks(seg));
    }
}

/// Appends one optional `info` keyword group.
fn push_group_score(out: &mut Vec<Vec<u8>>, info: &UciInfo)
    requires
        wf_info(info.deep_view()),
    ensures
        final(out).deep_view() == old(out).deep_view() + concat_toks(
            opt_group(
                match info.deep_view().score {
            Some(sc) => Some(InfoGroup::ScoreG(sc)),
            None => None,
        },
            ),
        ),
{
    let ghost d = info.deep_view();
    let ghost base = out.deep_view();
    let ghost seg = opt_group(
        match d.score {
            Some(sc) => Some(InfoGroup::ScoreG(sc)),
            None => None,
        },
    );
    match &info.score {
        Some(sc) => {
            out.push(bytes_of(KW_SCORE.as_slice()));
            match sc.value {
                ScoreValue::Centipawns(x) => {
                    out.push(bytes_of(KW_CP.as_slice()));
                    out.push(i16_dec(x));
                },
                ScoreValue::Mate(x) => {
                    out.push(bytes_of(KW_MATE.as_slice()));
                    out.push(i16_dec(x));
                },
            }
            match sc.bound {
                ScoreBound::Exact => {},
                ScoreBound::Lower => {
                    out.push(bytes_of(KW_LOWERBOUND.as_slice()));
                },
                ScoreBound::Upper => {
                    out.push(bytes_of(KW_UPPERBOUND.as_slice()));
                },
            }
        },
        None => {},
    }
    proof {
        lemma_concat_single(seg);
        assert(out.deep_view() =~~= base + concat_toks(seg));
    }
}

/// Appends one optional `info` keyword group.
fn push_group_currmove(out: &mut Vec<Vec<u8>>, info: &UciInfo)
    requires
        wf_info(info.deep_view()),
    ensures
        final(out).deep_view() == old(out).deep_view() + concat_toks(
            opt_group(
                match info.deep_view().current_move {
            Some(m) => Some(InfoGroup::CurrMove(m)),
            None => None,
        },
            ),
        ),
{
    let ghost d = info.deep_view();
    let ghost base = out.deep_view();
    let ghost seg = opt_group(
        match d.current_move {
            Some(m) => Some(InfoGroup::CurrMove(m)),
            None => None,
        },
    );
    match &info.current_move {
        Some(m) => {
            out.push(bytes_of(KW_CURRMOVE.as_slice()));
            out.push(crate::moves::uci_move_token(m));
        },
        None => {},
    }
    proof {
        lemma_concat_single(seg);
        assert(out.deep_view() =~~= base + concat_toks(seg));
    }
}

/// Appends one optional `info` keyword group.
fn push_group_currmovenumber(out: &mut Vec<Vec<u8>>, info: &UciInfo)
    requires
        wf_info(info.deep_view()),
    ensures
        final(out).deep_view() == old(out).deep_view() + concat_toks(
            opt_group(
                match info.deep_view().current_move_number {
            Some(v) => Some(InfoGroup::CurrMoveNumber(v)),
            None => None,
        },
            ),
        ),
{
    let ghost d = info.deep_view();
    let ghost base = out.deep_view();
    let ghost seg = opt_group(
        match d.current_move_number {
            Some(v) => Some(InfoGroup::CurrMoveNumber(v)),
            None => None,
        },
    );
    match &info.current_move_number {
        Some(v) => {
            out.push(bytes_of(KW_CURRMOVENUMBER.as_slice()));
            out.push(u64_dec(*v));
        },
        None => {},
    }
    proof {
        lemma_concat_single(seg);
        assert(out.deep_view() =~~= base + concat_toks(seg));
    }
}

/// Appends one optional `info` keyword group.
fn push_group_hashfull(out: &mut Vec<Vec<u8>>, info: &UciInfo)
    requires
        wf_info(info.deep_view()),
    ensures
        final(out).deep_view() == old(out).deep_view() + concat_toks(
            opt_group(
                match info.deep_view().hash_full {
            Some(v) => Some(InfoGroup::HashFull(v)),
            None => None,
        },
            ),
        ),
{
    let ghost d = info.deep_view();
    let ghost base = out.deep_view();
    let ghost seg = opt_group(
        match d.hash_full {
            Some(v) => Some(InfoGroup::HashFull(v)),
            None => None,
        },
    );
    match &info.hash_full {
        Some(v) => {
            out.push(bytes_of(KW_HASHFULL.as_slice()));
            out.push(u64_dec(*v as u64));
        },
        None => {},
    }
    proof {
        lemma_concat_single(seg);
        assert(out.deep_view() =~~= base + concat_toks(seg));
    }
}

/// Appends one optional `info` keyword group.
fn push_group_nps(out: &mut Vec<Vec<u8>>, info: &UciInfo)
    requires
        wf_info(info.deep_view()),
    ensures
        final(out).deep_view() == old(out).deep_view() + concat_toks(
            opt_group(
                match info.deep_view().nodes_per_second {
            Some(v) => Some(InfoGroup::Nps(v)),
            None => None,
        },
            ),
        ),
{
    let ghost d = info.deep_view();
    let ghost base = out.deep_view();
    let ghost seg = opt_group(
        match d.nodes_per_second {
            Some(v) => Some(InfoGroup::Nps(v)),
            None => None,
        },
    );
    match &info.nodes_per_second {
        Some(v) => {
            out.push(bytes_of(KW_NPS.as_slice()));
            out.push(u64_dec(*v));
        },
        None => {},
    }
    proof {
        lemma_concat_single(seg);
        assert(out.deep_view() =~~= base + concat_toks(seg));
    }
}

/// Appends one optional `info` keyword group.
fn push_group_tbhits(out: &mut Vec<Vec<u8>>, info: &UciInfo)
    requires
        wf_info(info.deep_view()),
    ensures
        final(out).deep_view() == old(out).deep_view() + concat_toks(
            opt_group(
                match info.deep_view().table_hits {
            Some(v) => Some(InfoGroup::TbHits(v)),
            None => None,
        },
            ),
        ),
{
    let ghost d = info.deep_view();
    let ghost base = out.deep_view();
    let ghost seg = opt_group(
        match d.table_hits {
            Some(v) => Some(InfoGroup::TbHits(v)),
            None => None,
        },
    );
    match &info.table_hits {
        Some(v) => {
            out.push(bytes_of(KW_TBHITS.as_slice()));
            out.push(u64_dec(*v));
        },
        None => {},
    }
    proof {
        lemma_concat_single(seg);
        assert(out.deep_view() =~~= base + concat_toks(seg));
    }
}

/// Appends one optional `info` keyword group.
fn push_group_sbhits(out: &mut Vec<Vec<u8>>, info: &UciInfo)
    requires
        wf_info(info.deep_view()),
    ensures
        final(out).deep_view() == old(out).deep_view() + concat_toks(
            opt_group(
                match info.deep_view().shredder_hits {
            Some(v) => Some(InfoGroup::SbHits(v)),
            None => None,
        },
            ),
        ),
{
    let ghost d = info.deep_view();
    let ghost base = out.deep_view();
    let ghost seg = opt_group(
        match d.shredder_hits {
            Some(v) => Some(InfoGroup::SbHits(v)),
            None => None,
        },
    );
    match &info.shredder_hits {
        Some(v) => {
            out.push(bytes_of(KW_SBHITS.as_slice()));
            out.push(u64_dec(*v));
        },
        None => {},
    }
    proof {
        lemma_concat_single(seg);
        assert(out.deep_view() =~~= base + concat_toks(seg));
    }
}

/// Appends one optional `info` keyword group.
fn push_group_cpuload(out: &mut Vec<Vec<u8>>, info: &UciInfo)
    requires
        wf_info(info.deep_view()),
    ensures
        final(out).deep_view() == old(out).deep_view() + concat_toks(
            opt_group(
                match info.deep_view().cpu_load {
            Some(v) => Some(InfoGroup::CpuLoad(v)),
            None => None,
        },
            ),
        ),
{
    let ghost d = info.deep_view();
    let ghost base = out.deep_view();
    let ghost seg = opt_group(
        match d.cpu_load {
            Some(v) => Some(InfoGroup::CpuLoad(v)),
            None => None,
        },
    );
    match &info.cpu_load {
        Some(v) => {
            out.push(bytes_of(KW_CPULOAD.as_slice()));
            out.push(u64_dec(*v as u64));
        },
        None => {},
    }
    proof {
        lemma_concat_single(seg);
        assert(out.deep_view() =~~= base + concat_toks(seg));
    }
}

/// Appends one optional `info` keyword group.
fn push_group_refutation(out: &mut Vec<Vec<u8>>, info: &UciInfo)
    requires
        wf_info(info.deep_view()),
    ensures
        final(out).deep_view() == old(out).deep_view() + concat_toks(
            opt_group(
                match info.deep_view().refutation {
            Some(r) => Some(InfoGroup::RefutationG(r)),
            None => None,
        },
            ),
        ),
{
    let ghost d = info.deep_view();
    let ghost base = out.deep_view();
    let ghost seg = opt_group(
        match d.refutation {
            Some(r) => Some(InfoGroup::RefutationG(r)),
            None => None,
        },
    );
    match &info.refutation {
        Some(r) => {
            out.push(bytes_of(KW_REFUTATION.as_slice()));
            out.push(crate::moves::uci_move_token(&r.refuted_move));
            push_move_tokens(out, &r.refutation);
        },
        None => {},
    }
    proof {
        lemma_concat_single(seg);
        assert(out.deep_view() =~~= base + concat_toks(seg));
    }
}

/// Appends one optional `info` keyword group.
fn push_group_currentline(out: &mut Vec<Vec<u8>>, info: &UciInfo)
    requires
        wf_info(info.deep_view()),
    ensures
        final(out).deep_view() == old(out).deep_view() + concat_toks(
            opt_group(
                match info.deep_view().current_line {
            Some(c) => Some(InfoGroup::CurrentLineG(c)),
            None => None,
        },
            ),
        ),
{
    let ghost d = info.deep_view();
    let ghost base = out.deep_view();
    let ghost seg = opt_group(
        match d.current_line {
            Some(c) => Some(InfoGroup::CurrentLineG(c)),
            None => None,
        },
    );
    match &info.current_line {
        Some(c) => {
            out.push(bytes_of(KW_CURRENTLINE.as_slice()));
            match c.cpu_number {
                Some(v) => {
                    out.push(u64_dec(v));
                },
                None => {},
            }
            push_move_tokens(out, &c.line);
        },
        None => {},
    }
    proof {
        lemma_concat_single(seg);
        assert(out.deep_view() =~~= base + concat_toks(seg));
    }
}

/// Appends one optional `info` keyword group.
fn push_group_pv(out: &mut Vec<Vec<u8>>, info: &UciInfo)
    requires
        wf_info(info.deep_view()),
    ensures
        final(out).deep_view() == old(out).deep_view() + concat_toks(
            opt_group(
                match info.deep_view().principal_variation {
            Some(ms) => Some(InfoGroup::Pv(ms)),
            None => None,
        },
            ),
        ),
{
    let ghost d = info.deep_view();
    let ghost base = out.deep_view();
    let ghost seg = opt_group(
        match d.principal_variation {
            Some(ms) => Some(InfoGroup::Pv(ms)),
            None => None,
        },
    );
    match &info.principal_variation {
        Some(ms) => {
            out.push(bytes_of(KW_PV.as_slice()));
            push_move_tokens(out, ms);
        },
        None => {},
    }
    proof {
        lemma_concat_single(seg);
        assert(out.deep_view() =~~= base + concat_toks(seg));
    }
}

/// Appends one optional `info` keyword group.
fn push_group_string(out: &mut Vec<Vec<u8>>, info: &UciInfo)
    requires
        wf_info(info.deep_view()),
    ensures
        final(out).deep_view() == old(out).deep_view() + concat_toks(
            opt_group(
                match info.deep_view().string {
            Some(t) => Some(InfoGroup::StringG(t)),
            None => None,
        },
            ),
        ),
{
    let ghost d = info.deep_view();
    let ghost base = out.deep_view();
    let ghost seg = opt_group(
        match d.string {
            Some(t) => Some(InfoGroup::StringG(t)),
            None => None,
        },
    );
    match &info.string {
        Some(t) => {
            out.push(bytes_of(KW_STRING.as_slice()));
            let mut ts = tokenize(t.as_slice());
            let ghost tsv = ts.deep_view();
            out.append(&mut ts);
            proof {
                assert(out.deep_view() =~~= base + (seq![KW_STRING@] + tsv));
            }
        },
        None => {},
    }
    proof {
        lemma_concat_single(seg);
        assert(out.deep_view() =~~= base + concat_toks(seg));
    }
}

/// Appends the token groups of the leading `info` fields.
fn push_info_first(out: &mut Vec<Vec<u8>>, info: &UciInfo)
    requires
        wf_info(info.deep_view()),
    ensures
        final(out).deep_view() == old(out).deep_view() + concat_toks(first_groups_of(info.deep_view())),
{
    let ghost d = info.deep_view();
    let ghost base = out.deep_view();
    let ghost a1 = opt_group(
        match d.depth {
            Some(v) => Some(InfoGroup::Depth(v)),
            None => None,
        },
    );
    let ghost a2 = opt_group(
        match d.selective_depth {
            Some(v) => Some(InfoGroup::SelDepth(v)),
            None => None,
        },
    );
    let ghost a3 = opt_group(
        match d.time {
            Some(v) => Some(InfoGroup::Time(v)),
            None => None,
        },
    );
    let ghost a4 = opt_group(
        match d.nodes {
            Some(v) => Some(InfoGroup::Nodes(v)),
            None => None,
        },
    );
    let ghost a5 = opt_group(
        match d.multi_pv {
            Some(v) => Some(InfoGroup::MultiPv(v)),
            None => None,
        },
    );
    let ghost a6 = opt_group(
        match d.score {
            Some(sc) => Some(InfoGroup::ScoreG(sc)),
            None => None,
        },
    );
    let ghost a7 = opt_group(
        match d.current_move {
            Some(m) => Some(InfoGroup::CurrMove(m)),
            None => None,
        },
    );
    let ghost a8 = opt_group(
        match d.current_move_number {
            Some(v) => Some(InfoGroup::CurrMoveNumber(v)),
            None => None,
        },
    );
    let ghost a9 = opt_group(
        match d.hash_full {
            Some(v) => Some(InfoGroup::HashFull(v)),
            None => None,
        },
    );
    let ghost p1 = a1;
    let ghost p2 = p1 + a2;
    let ghost p3 = p2 + a3;
    let ghost p4 = p3 + a4;
    let ghost p5 = p4 + a5;
    let ghost p6 = p5 + a6;
    let ghost p7 = p6 + a7;
    let ghost p8 = p7 + a8;
    let ghost p9 = p8 + a9;
    push_group_depth(out, info);
    push_group_seldepth(out, info);
    push_group_time(out, info);
    push_group_nodes(out, info);
    push_group_multipv(out, info);
    push_group_score(out, info);
    push_group_currmove(out, info);
    push_group_currmovenumber(out, info);
    push_group_hashfull(out, info);
    proof {
        lemma_concat_concat(p1, a2);
        lemma_concat_concat(p2, a3);
        lemma_concat_concat(p3, a4);
        lemma_concat_concat(p4, a5);
        lemma_concat_concat(p5, a6);
        lemma_concat_concat(p6, a7);
        lemma_concat_concat(p7, a8);
        lemma_concat_concat(p8, a9);
        lemma_assoc_toks(base, concat_toks(p1), concat_toks(a2));
        lemma_assoc_toks(base, concat_toks(p2), concat_toks(a3));
        lemma_assoc_toks(base, concat_toks(p3), concat_toks(a4));
        lemma_assoc_toks(base, concat_toks(p4), concat_toks(a5));
        lemma_assoc_toks(base, concat_toks(p5), concat_toks(a6));
        lemma_assoc_toks(base, concat_toks(p6), concat_toks(a7));
        lemma_assoc_toks(base, concat_toks(p7), concat_toks(a8));
        lemma_assoc_toks(base, concat_toks(p8), concat_toks(a9));
        assert(first_groups_of(d) == p9);
    }
}

/// Appends the token groups of the remaining `info` fields.
fn push_info_second(out: &mut Vec<Vec<u8>>, info: &UciInfo)
    requires
        wf_info(info.deep_view()),
    ensures
        final(out).deep_view() == old(out).deep_view() + concat_toks(second_groups_of(info.deep_view())),
{
    let ghost d = info.deep_view();
    let ghost base = out.deep_view();
    let ghost a1 = opt_group(
        match d.nodes_per_second {
            Some(v) => Some(InfoGroup::Nps(v)),
            None => None,
        },
    );
    let ghost a2 = opt_group(
        match d.table_hits {
            Some(v) => Some(InfoGroup::TbHits(v)),
            None => None,
        },
    );
    let ghost a3 = opt_group(
        match d.shredder_hits {
            Some(v) => Some(InfoGroup::SbHits(v)),
            None => None,
        },
    );
    let ghost a4 = opt_group(
        match d.cpu_load {
            Some(v) => Some(InfoGroup::CpuLoad(v)),
            None => None,
        },
    );
    let ghost a5 = opt_group(
        match d.refutation {
            Some(r) => Some(InfoGroup::RefutationG(r)),
            None => None,
        },
    );
    let ghost a6 = opt_group(
        match d.current_line {
            Some(c) => Some(InfoGroup::CurrentLineG(c)),
            None => None,
        },
    );
    let ghost a7 = opt_group(
        match d.principal_variation {
            Some(ms) => Some(InfoGroup::Pv(ms)),
            None => None,
        },
    );
    let ghost a8 = opt_group(
        match d.string {
            Some(t) => Some(InfoGroup::StringG(t)),
            None => None,
        },
    );
    let ghost p1 = a1;
    let ghost p2 = p1 + a2;
    let ghost p3 = p2 + a3;
    let ghost p4 = p3 + a4;
    let ghost p5 = p4 + a5;
    let ghost p6 = p5 + a6;
    let ghost p7 = p6 + a7;
    let ghost p8 = p7 + a8;
    push_group_nps(out, info);
    push_group_tbhits(out, info);
    push_group_sbhits(out, info);
    push_group_cpuload(out, info);
    push_group_refutation(out, info);
    push_group_currentline(out, info);
    push_group_pv(out, info);
    push_group_string(out, info);
    proof {
        lemma_concat_concat(p1, a2);
        lemma_concat_concat(p2, a3);
        lemma_concat_concat(p3, a4);
        lemma_concat_concat(p4, a5);
        lemma_concat_concat(p5, a6);
        lemma_concat_concat(p6, a7);
        lemma_concat_concat(p7, a8);
        lemma_assoc_toks(base, concat_toks(p1), concat_toks(a2));
        lemma_assoc_toks(base, concat_toks(p2), concat_toks(a3));
        lemma_assoc_toks(base, concat_toks(p3), concat_toks(a4));
        lemma_assoc_toks(base, concat_toks(p4), concat_toks(a5));
        lemma_assoc_toks(base, concat_toks(p5), concat_toks(a6));
        lemma_assoc_toks(base, concat_toks(p6), concat_toks(a7));
        lemma_assoc_toks(base, concat_toks(p7), concat_toks(a8));
        assert(second_groups_of(d) == p8);
    }
}

/// Builds the token list of an `info` line.
fn info_tokens_exec(info: &UciInfo) -> (r: Vec<Vec<u8>>)
    requires
        wf_info(info.deep_view()),
    ensures
        r.deep_view() == info_tokens(info.deep_view()),
{
    let ghost d = info.deep_view();
    let mut out: Vec<Vec<u8>> = Vec::new();
    out.push(bytes_of(KW_INFO.as_slice()));
    proof {
        assert(out.deep_view() =~~= seq![KW_INFO@]);
    }
    push_info_first(&mut out, info);
    push_info_second(&mut out, info);
    proof {
        lemma_groups_split(d);
        lemma_concat_concat(first_groups_of(d), second_groups_of(d));
        lemma_assoc_toks(
            seq![KW_INFO@],
            concat_toks(first_groups_of(d)),
            concat_toks(second_groups_of(d)),
        );
    }
    out
}

} // verus!
