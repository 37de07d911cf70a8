//! Itgo's side of the engine protocol: moves as squares, messages, limits and settings.

use vstd::prelude::*;
use vstd::string::StringSliceAdditionalSpecFns;
use vstd::utf8::{encode_utf8, is_ascii_chars, is_ascii_chars_encode_utf8};

use crate::text::push_char;

verus! {

/// Deepest search the engine runs.
pub const MAX_DEPTH: u32 = 64;

/// A protocol move: the square a piece is placed on, as `col | row << 3`.
#[derive(Debug, Clone, Copy, PartialEq, Eq, Hash, Structural)]
pub struct Mv(u8);

impl View for Mv {
    type V = int;

    closed spec fn view(&self) -> int {
        self.0 as int
    }
}

/// Why a square could not be read.
#[derive(Debug, Clone, Copy, PartialEq, Eq, Structural)]
pub enum ParseMvError {
    /// Not exactly two bytes.
    BadLen,
    /// The column is not `a`-`h`.
    BadCol,
    /// The row is not `1`-`8`.
    BadRow,
}

impl ParseMvError {
    /// The message shown for this error.
    pub fn message(&self) -> (r: &'static str)
        ensures
            r@ == spec_parse_mv_error_message(*self),
    {
        match self {
            ParseMvError::BadLen => "square too long or too short",
            ParseMvError::BadCol => "square column not a-h",
            ParseMvError::BadRow => "square row not 1-8",
        }
    }
}

/// The message of each error.
pub open spec fn spec_parse_mv_error_message(e: ParseMvError) -> Seq<char> {
    match e {
        ParseMvError::BadLen => "square too long or too short"@,
        ParseMvError::BadCol => "square column not a-h"@,
        ParseMvError::BadRow => "square row not 1-8"@,
    }
}

/// The square named by the bytes `b`, or why there is none.
pub open spec fn spec_parse_mv(b: Seq<u8>) -> Result<int, ParseMvError> {
    if b.len() != 2 {
        Err(ParseMvError::BadLen)
    } else if !(0x61 <= b[0] < 0x69) {
        Err(ParseMvError::BadCol)
    } else if !(0x31 <= b[1] < 0x39) {
        Err(ParseMvError::BadRow)
    } else {
        Ok((b[0] - 0x61) + 8 * (b[1] - 0x31))
    }
}

/// The two characters naming square `i`.
pub open spec fn spec_mv_text(i: int) -> Seq<char> {
    seq![(97 + i % 8) as char, (49 + i / 8) as char]
}

/// A square's name reads back as that square.
pub proof fn lemma_mv_text_roundtrip(i: int)
    requires
        0 <= i < 64,
    ensures
        spec_parse_mv(encode_utf8(spec_mv_text(i))) == Ok::<int, ParseMvError>(i),
{
    let cs = spec_mv_text(i);
    assert(is_ascii_chars(cs));
    is_ascii_chars_encode_utf8(cs);
    let e = encode_utf8(cs);
    assert(e[0] == cs[0] as u8);
    assert(e[1] == cs[1] as u8);
}

impl Mv {
    #[verifier::type_invariant]
    spec fn inv(self) -> bool {
        self.0 < 64
    }

    /// The index is in range.
    pub fn index_range(self)
        ensures
            0 <= self@ < 64,
    {
        proof {
            use_type_invariant(&self);
        }
    }

    /// Two moves with the same index are the same move.
    pub proof fn lemma_view_eq(a: Mv, b: Mv)
        requires
            a@ == b@,
        ensures
            a == b,
    {
    }

    /// The move on square `raw`, if `raw < 64`.
    pub fn from_raw(raw: u8) -> (r: Option<Mv>)
        ensures
            r is Some <==> raw < 64,
            r matches Some(m) ==> m@ == raw,
    {
        if raw < 64 {
            Some(Mv(raw))
        } else {
            None
        }
    }

    /// The move on column `col` and row `row`, if both are below 8.
    pub fn from_col_row(col: u8, row: u8) -> (r: Option<Mv>)
        ensures
            r is Some <==> col < 8 && row < 8,
            r matches Some(m) ==> m@ == col + 8 * row,
    {
        if col < 8 && row < 8 {
            assert(col | (row << 3u8) == col + 8 * row) by (bit_vector)
                requires
                    col < 8,
                    row < 8,
            ;
            Some(Mv(col | (row << 3)))
        } else {
            None
        }
    }

    /// The square's index.
    pub fn raw(self) -> (r: u8)
        ensures
            r == self@,
            r < 64,
    {
        proof {
            use_type_invariant(&self);
        }
        self.0
    }

    /// The column, 0 for `a`.
    pub fn col(self) -> (r: u8)
        ensures
            r == self@ % 8,
            0 <= self@ < 64,
    {
        proof {
            use_type_invariant(&self);
        }
        let x = self.0;
        assert(x & 7 == x % 8) by (bit_vector);
        x & 7
    }

    /// The row, 0 for `1`.
    pub fn row(self) -> (r: u8)
        ensures
            r == self@ / 8,
            0 <= self@ < 64,
    {
        proof {
            use_type_invariant(&self);
        }
        let x = self.0;
        assert(x >> 3 == x / 8) by (bit_vector);
        x >> 3
    }

    /// Read a square such as `a1` or `h8`.
    pub fn parse(s: &str) -> (r: Result<Mv, ParseMvError>)
        ensures
            match r {
                Ok(m) => spec_parse_mv(s.spec_bytes()) == Ok::<int, ParseMvError>(m@),
                Err(e) => spec_parse_mv(s.spec_bytes()) == Err::<int, ParseMvError>(e),
            },
    {
        let b = s.as_bytes();
        if b.len() != 2 {
            return Err(ParseMvError::BadLen);
        }
        let c = b[0].wrapping_sub(97u8);
        if c >= 8 {
            return Err(ParseMvError::BadCol);
        }
        let r = b[1].wrapping_sub(49u8);
        if r >= 8 {
            return Err(ParseMvError::BadRow);
        }
        let m = Mv::from_col_row(c, r).unwrap();
        Ok(m)
    }

    /// The square's name, such as `a1`.
    pub fn to_text(self) -> (r: String)
        ensures
            r@ == spec_mv_text(self@),
    {
        let col = 97u8 + self.col();
        let row = 49u8 + self.row();
        let mut s = String::new();
        push_char(&mut s, col as char);
        push_char(&mut s, row as char);
        proof {
            assert(s@ =~= spec_mv_text(self@));
        }
        s
    }
}

/// Evaluation of a position.
#[derive(Debug, Clone, Copy, PartialEq, Eq, Structural)]
pub enum Eval {
    /// A score in engine-defined units.
    Score(i32),
    /// A forced result, in plies to the end: positive for a win, negative for a loss.
    Decisive(i32),
}

/// Message from the engine.
#[derive(Debug)]
pub enum EngineMsg {
    /// Sent at startup to identify the engine.
    About { name: String, author: String, version: String, features: Vec<String> },
    /// Answer to a synchronization request.
    Ready,
    /// Search progress.
    Info {
        pv: Vec<Mv>,
        eval: Eval,
        depth: u32,
        time: u64,
        nodes: u64,
        knps: u64,
        evals: u64,
        keps: u64,
        pv_nodes: u64,
    },
    /// The best move found, or `None` when there is none.
    Best(Option<Mv>),
    /// A warning.
    Warn(String),
    /// An error.
    Error(String),
}

/// One search limit.
#[derive(Debug, Clone, Copy, PartialEq, Eq, Structural)]
pub enum Limit {
    /// Search to a fixed depth.
    Depth(u32),
    /// Search a fixed number of nodes.
    Nodes(u64),
    /// Search for a fixed time, in milliseconds.
    Ms(u64),
}

/// A real-time clock, in milliseconds.
#[derive(Debug, Clone, Copy, PartialEq, Eq, Structural)]
pub struct Clock {
    /// Time left on the clock.
    pub left: u64,
    /// Time gained (or lost, if negative) after a move.
    pub incr: i64,
}

impl Default for Clock {
    fn default() -> (r: Clock)
        ensures
            r == (Clock { left: 0, incr: 0 }),
    {
        Clock { left: 0, incr: 0 }
    }
}

/// The limits of one search.
#[derive(Debug, Clone, Copy, PartialEq, Eq, Structural)]
pub struct Limits {
    /// Search to a fixed depth.
    pub depth: u32,
    /// Search a fixed number of nodes.
    pub nodes: u64,
    /// Search for a fixed time, in milliseconds.
    pub time: u64,
    /// Real-time clock.
    pub clock: Option<Clock>,
}

/// No limit but the deepest search.
pub open spec fn spec_default_limits() -> Limits {
    Limits { depth: MAX_DEPTH, nodes: u64::MAX, time: u64::MAX, clock: None }
}

impl Default for Limits {
    fn default() -> (r: Limits)
        ensures
            r == spec_default_limits(),
    {
        Limits { depth: MAX_DEPTH, nodes: 0xffff_ffff_ffff_ffffu64, time: 0xffff_ffff_ffff_ffffu64, clock: None }
    }
}

/// What to do before a command that changes the game: go on, warn that it waits for the search,
/// or stop the search.
#[derive(Debug, Clone, Copy, PartialEq, Eq, Structural)]
pub enum BlockingAction {
    Proceed,
    Warn,
    Stop,
}

/// The action for a command that changes the game, given whether a search is running and the
/// policy set for such commands.
pub fn blocking_action(searching: bool, policy: BlockingCommand) -> (r: BlockingAction)
    ensures
        r == if !searching {
            BlockingAction::Proceed
        } else {
            match policy {
                BlockingCommand::Warn => BlockingAction::Warn,
                BlockingCommand::Allow => BlockingAction::Proceed,
                BlockingCommand::Stop => BlockingAction::Stop,
            }
        },
{
    if !searching {
        return BlockingAction::Proceed;
    }
    match policy {
        BlockingCommand::Warn => BlockingAction::Warn,
        BlockingCommand::Allow => BlockingAction::Proceed,
        BlockingCommand::Stop => BlockingAction::Stop,
    }
}

/// What the engine does with a command that arrives during a search.
#[derive(Debug, Clone, Copy, PartialEq, Eq, Structural)]
pub enum BlockingCommand {
    /// Take it for a mistake and warn the user.
    Warn,
    /// Allow it, for batch work.
    Allow,
    /// Stop the search at once, for interactive use.
    Stop,
}

impl Default for BlockingCommand {
    fn default() -> (r: BlockingCommand)
        ensures
            r == BlockingCommand::Warn,
    {
        BlockingCommand::Warn
    }
}

/// Bytes of one transposition table entry.
pub const ENTRY_BYTES: usize = 2;

/// Engine settings.
#[derive(Debug, Clone, Copy, PartialEq, Eq, Structural)]
pub struct Settings {
    pub blocking_command: BlockingCommand,
    /// Memory for the transposition table, in bytes.
    pub dyn_mem: usize,
}

/// A change to some of the settings; `None` keeps the current value.
#[derive(Debug, Clone, Copy, PartialEq, Eq, Structural)]
pub struct SettingsPatch {
    pub blocking_command: Option<BlockingCommand>,
    pub dyn_mem: Option<usize>,
}

impl Default for Settings {
    fn default() -> (r: Settings)
        ensures
            r == (Settings { blocking_command: BlockingCommand::Warn, dyn_mem: 16384 }),
    {
        Settings { blocking_command: BlockingCommand::Warn, dyn_mem: 16384 }
    }
}

impl Settings {
    /// Take each value the patch holds; keep the others.
    pub fn apply(&mut self, patch: &SettingsPatch)
        ensures
            final(self).blocking_command == match patch.blocking_command {
                Some(b) => b,
                None => old(self).blocking_command,
            },
            final(self).dyn_mem == match patch.dyn_mem {
                Some(m) => m,
                None => old(self).dyn_mem,
            },
    {
        let blocking_command = match patch.blocking_command {
            Some(b) => b,
            None => self.blocking_command,
        };
        let dyn_mem = match patch.dyn_mem {
            Some(m) => m,
            None => self.dyn_mem,
        };
        *self = Settings { blocking_command, dyn_mem };
    }

    /// How many transposition table entries fit in `dyn_mem`.
    pub fn tt_len(&self) -> (r: usize)
        ensures
            r == self.dyn_mem / ENTRY_BYTES,
    {
        self.dyn_mem / ENTRY_BYTES
    }
}

} // verus!
