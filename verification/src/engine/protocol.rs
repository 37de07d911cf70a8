//! The first engine's protocol: messages, limits, and moves written as squares.

use vstd::prelude::*;
use vstd::string::StringSliceAdditionalSpecFns;
use vstd::utf8::{encode_utf8, is_ascii_chars, is_ascii_chars_encode_utf8};

use crate::text::push_char;

verus! {

/// Message from the engine.
#[derive(Debug)]
pub enum EngineMsg {
    Id { name: Option<String>, author: Option<String>, version: Option<String> },
    Ready,
    Info { pv: Vec<Mv>, eval: i32, depth: u32, nodes: u64, time: u64, knps: u64 },
    Best(Option<Mv>),
    Error(String),
}

/// Message to the engine.
#[derive(Debug)]
pub enum UserMsg {
    Reset,
    Sync,
    Undo(usize),
    Play(Vec<Mv>),
    Go(Vec<Limit>),
    Stop,
}

/// A move: the square of the placed piece, as `col | row << 3`.
#[derive(Debug, Clone, Copy, PartialEq, Eq, Structural)]
pub struct Mv(u8);

impl View for Mv {
    type V = int;

    closed spec fn view(&self) -> int {
        self.0 as int
    }
}

/// Why a square could not be read.
#[derive(Debug, Clone, Copy, PartialEq, Eq, Structural)]
pub enum ParseMvError {
    BadLen,
    BadCol,
    BadRow,
}

impl ParseMvError {
    /// The message shown for this error.
    pub fn message(&self) -> (r: &'static str)
        ensures
            r@ == crate::itgo::protocol::spec_parse_mv_error_message(match self {
                ParseMvError::BadLen => crate::itgo::protocol::ParseMvError::BadLen,
                ParseMvError::BadCol => crate::itgo::protocol::ParseMvError::BadCol,
                ParseMvError::BadRow => crate::itgo::protocol::ParseMvError::BadRow,
            }),
    {
        match self {
            ParseMvError::BadLen => "square too long or too short",
            ParseMvError::BadCol => "square column not a-h",
            ParseMvError::BadRow => "square row not 1-8",
        }
    }
}

/// The square named by the bytes `b`, or why there is none.
pub open spec fn spec_parse(b: Seq<u8>) -> Result<int, ParseMvError> {
    if b.len() != 2 {
        Err(ParseMvError::BadLen)
    } else if !(0x61 <= b[0] < 0x69) {
        Err(ParseMvError::BadCol)
    } else if !(0x31 <= b[1] < 0x39) {
        Err(ParseMvError::BadRow)
    } else {
        Ok((b[0] - 0x61) + 8 * (b[1] - 0x31))
    }
}

/// A square's name reads back as that square.
pub proof fn lemma_text_roundtrip(i: int)
    requires
        0 <= i < 64,
    ensures
        spec_parse(encode_utf8(crate::itgo::protocol::spec_mv_text(i))) == Ok::<int, ParseMvError>(i),
{
    let cs = crate::itgo::protocol::spec_mv_text(i);
    assert(is_ascii_chars(cs));
    is_ascii_chars_encode_utf8(cs);
    let e = encode_utf8(cs);
    assert(e[0] == cs[0] as u8);
    assert(e[1] == cs[1] as u8);
}

impl Mv {
    #[verifier::type_invariant]
    spec fn inv(self) -> bool {
        self.0 < 64
    }

    /// The move on square `raw`, if `raw < 64`.
    pub fn new(raw: u8) -> (r: Option<Mv>)
        ensures
            r is Some <==> raw < 64,
            r matches Some(m) ==> m@ == raw,
    {
        if raw < 64 {
            Some(Mv(raw))
        } else {
            None
        }
    }

    /// The square's index.
    pub fn raw(self) -> (r: u8)
        ensures
            r == self@,
            r < 64,
    {
        proof {
            use_type_invariant(&self);
        }
        self.0
    }

    /// Read a square such as `a1`.
    pub fn parse(s: &str) -> (r: Result<Mv, ParseMvError>)
        ensures
            match r {
                Ok(m) => spec_parse(s.spec_bytes()) == Ok::<int, ParseMvError>(m@),
                Err(e) => spec_parse(s.spec_bytes()) == Err::<int, ParseMvError>(e),
            },
    {
        let b = s.as_bytes();
        if b.len() != 2 {
            return Err(ParseMvError::BadLen);
        }
        let c = b[0].wrapping_sub(97u8);
        if c >= 8 {
            return Err(ParseMvError::BadCol);
        }
        let r = b[1].wrapping_sub(49u8);
        if r >= 8 {
            return Err(ParseMvError::BadRow);
        }
        assert(c | (r << 3u8) == c + 8 * r) by (bit_vector)
            requires
                c < 8,
                r < 8,
        ;
        Ok(Mv(c | (r << 3)))
    }

    /// The square's name, such as `a1`.
    pub fn to_text(self) -> (r: String)
        ensures
            r@ == crate::itgo::protocol::spec_mv_text(self@),
    {
        proof {
            use_type_invariant(&self);
        }
        let v = self.0;
        assert(v & 7 == v % 8) by (bit_vector);
        assert(v >> 3 == v / 8) by (bit_vector);
        let c = (v & 7) + 97u8;
        let r = (v >> 3) + 49u8;
        let mut s = String::new();
        push_char(&mut s, c as char);
        push_char(&mut s, r as char);
        proof {
            assert(s@ =~= crate::itgo::protocol::spec_mv_text(self@));
        }
        s
    }
}

/// Search limit.
#[derive(Debug, Clone, Copy, PartialEq, Eq, Structural)]
pub enum Limit {
    Nodes(u64),
    Ms(u64),
}

} // verus!
