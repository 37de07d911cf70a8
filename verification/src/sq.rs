use vstd::prelude::*;
use vstd::string::StringSliceAdditionalSpecFns;
use vstd::utf8::*;

use crate::bits::bit;
use crate::error::ParseSqError;
use crate::text::push_char;

verus! {

/// A square on the 8x8 board.
///
/// Stored as `col | (row << 3)`: column 0 is `a`, row 0 is `1`.
#[derive(Debug, Clone, Copy, PartialEq, Eq, Hash, Structural)]
pub struct Sq(pub(crate) u8);

impl View for Sq {
    type V = int;

    /// The square's index, `col + 8 * row`.
    closed spec fn view(&self) -> int {
        self.0 as int
    }
}

pub open spec fn sq_col(i: int) -> int {
    i % 8
}

pub open spec fn sq_row(i: int) -> int {
    i / 8
}

impl Sq {
    #[verifier::type_invariant]
    spec fn inv(self) -> bool {
        self.0 < 64
    }

    /// The square with index `i`, for `0 <= i < 64`.
    pub closed spec fn spec_new(i: int) -> Sq {
        Sq(i as u8)
    }

    pub proof fn lemma_spec_new(i: int)
        requires
            0 <= i < 64,
        ensures
            #[trigger] Sq::spec_new(i)@ == i,
    {
    }

    pub proof fn lemma_view_eq(a: Sq, b: Sq)
        requires
            a@ == b@,
        ensures
            a == b,
    {
    }

    /// The index is in range.
    pub fn index_range(self)
        ensures
            0 <= self@ < 64,
    {
        proof {
            use_type_invariant(&self);
        }
    }

    /// Create from raw index (0-63). Returns `None` if out of range.
    pub fn from_raw(raw: u8) -> (r: Option<Sq>)
        ensures
            r is Some <==> raw < 64,
            r matches Some(s) ==> s@ == raw,
    {
        if raw < 64 {
            Some(Sq(raw))
        } else {
            None
        }
    }

    /// Create from column (0-7) and row (0-7). Returns `None` if out of range.
    pub fn from_col_row(col: u8, row: u8) -> (r: Option<Sq>)
        ensures
            r is Some <==> col < 8 && row < 8,
            r matches Some(s) ==> s@ == col + 8 * row,
    {
        if col < 8 && row < 8 {
            assert(col | (row << 3u8) == col + 8 * row) by (bit_vector)
                requires
                    col < 8,
                    row < 8,
            ;
            Some(Sq(col | (row << 3)))
        } else {
            None
        }
    }

    /// Raw index (0-63).
    pub fn raw(self) -> (r: u8)
        ensures
            r == self@,
            r < 64,
    {
        proof {
            use_type_invariant(&self);
        }
        self.0
    }

    /// Column index (0-7).
    pub fn col(self) -> (r: u8)
        ensures
            r == sq_col(self@),
            r < 8,
            0 <= self@ < 64,
    {
        proof {
            use_type_invariant(&self);
        }
        let x = self.0;
        assert(x & 7 == x % 8) by (bit_vector);
        x & 7
    }

    /// Row index (0-7).
    pub fn row(self) -> (r: u8)
        ensures
            r == sq_row(self@),
            r < 8,
            0 <= self@ < 64,
    {
        proof {
            use_type_invariant(&self);
        }
        let x = self.0;
        assert(x >> 3 == x / 8) by (bit_vector);
        x >> 3
    }

    /// Bitboard mask for this square.
    pub fn bit(self) -> (r: u64)
        ensures
            r == bit(self@),
            0 <= self@ < 64,
    {
        proof {
            use_type_invariant(&self);
        }
        1u64 << (self.0 as u64)
    }

    /// All 64 squares, in index order.
    pub fn all() -> (r: Vec<Sq>)
        ensures
            r@.len() == 64,
            forall|i: int| 0 <= i < 64 ==> (#[trigger] r@[i])@ == i,
    {
        let mut r: Vec<Sq> = Vec::new();
        let mut i: u8 = 0;
        while i < 64
            invariant
                i <= 64,
                r@.len() == i,
                forall|k: int| 0 <= k < i ==> (#[trigger] r@[k])@ == k,
            decreases 64 - i,
        {
            r.push(Sq(i));
            i += 1;
        }
        r
    }
}

/// The square that algebraic notation names, read from its UTF-8 bytes.
pub open spec fn spec_parse_sq(b: Seq<u8>) -> Result<int, ParseSqError> {
    if b.len() != 2 {
        Err(ParseSqError::BadLen)
    } else if !(0x61 <= b[0] < 0x69) {
        Err(ParseSqError::BadCol)
    } else if !(0x31 <= b[1] < 0x39) {
        Err(ParseSqError::BadRow)
    } else {
        Ok((b[0] - 0x61) + 8 * (b[1] - 0x31))
    }
}

/// Whether an exec result agrees with `spec_parse_sq`.
pub open spec fn parse_sq_agrees(r: Result<Sq, ParseSqError>, s: Result<int, ParseSqError>) -> bool {
    match r {
        Ok(sq) => s == Ok::<int, ParseSqError>(sq@),
        Err(e) => s == Err::<int, ParseSqError>(e),
    }
}

/// Algebraic notation of square `i`: column letter, then row digit.
pub open spec fn spec_format_sq(i: int) -> Seq<char> {
    seq![(97 + sq_col(i)) as char, (49 + sq_row(i)) as char]
}

fn parse_sq_bytes(b0: u8, b1: u8) -> (r: Result<Sq, ParseSqError>)
    ensures
        parse_sq_agrees(r, spec_parse_sq(seq![b0, b1])),
{
    let col = b0.wrapping_sub(97u8);
    if col >= 8 {
        return Err(ParseSqError::BadCol);
    }
    let row = b1.wrapping_sub(49u8);
    if row >= 8 {
        return Err(ParseSqError::BadRow);
    }
    let r = Sq::from_col_row(col, row);
    r.unwrap().index_range();
    Ok(r.unwrap())
}

/// Parse algebraic notation (e.g., "a1", "h8").
pub fn parse_sq(s: &str) -> (r: Result<Sq, ParseSqError>)
    ensures
        parse_sq_agrees(r, spec_parse_sq(s.spec_bytes())),
{
    let bytes = s.as_bytes();
    if bytes.len() != 2 {
        return Err(ParseSqError::BadLen);
    }
    let r = parse_sq_bytes(bytes[0], bytes[1]);
    assert(bytes@ =~= seq![bytes@[0], bytes@[1]]);
    r
}

proof fn lemma_encode_len(cs: Seq<char>)
    ensures
        encode_utf8(cs).len() >= cs.len(),
    decreases cs.len(),
{
    if cs.len() > 0 {
        lemma_encode_len(cs.drop_first());
    }
}

/// `parse_sq` on a character sequence: the same answer as on its UTF-8 bytes.
pub fn parse_sq_chars(cs: &Vec<char>) -> (r: Result<Sq, ParseSqError>)
    ensures
        parse_sq_agrees(r, spec_parse_sq(encode_utf8(cs@))),
{
    broadcast use char_is_scalar;

    proof {
        lemma_encode_len(cs@);
    }
    if cs.len() == 2 && (cs[0] as u32) < 128 && (cs[1] as u32) < 128 {
        let c0 = cs[0] as u32;
        let c1 = cs[1] as u32;
        proof {
            let e = encode_utf8(cs@);
            assert(cs@.drop_first().drop_first() =~= Seq::<char>::empty());
            assert(encode_utf8(cs@.drop_first()) =~= encode_scalar(c1) + encode_utf8(
                cs@.drop_first().drop_first(),
            ));
            assert(c0 & 0x7F == c0) by (bit_vector)
                requires
                    c0 < 128,
            ;
            assert(c1 & 0x7F == c1) by (bit_vector)
                requires
                    c1 < 128,
            ;
            assert(e =~= seq![c0 as u8, c1 as u8]);
        }
        parse_sq_bytes(c0 as u8, c1 as u8)
    } else if cs.len() == 1 && 0x80 <= (cs[0] as u32) && (cs[0] as u32) <= 0x7FF {
        let c = cs[0] as u32;
        proof {
            assert(cs@.drop_first() =~= Seq::<char>::empty());
            assert(encode_utf8(Seq::<char>::empty()) =~= Seq::<u8>::empty());
            assert(encode_utf8(cs@) =~= encode_scalar(c) + encode_utf8(cs@.drop_first()));
            let b0 = leading_byte_width_2(c);
            assert(0xC0 <= (0xC0u8 | ((c >> 6) & 0x1F) as u8)) by (bit_vector);
            assert(encode_utf8(cs@) =~= seq![b0, last_continuation_byte(c)]);
        }
        Err(ParseSqError::BadCol)
    } else {
        proof {
            let e = encode_utf8(cs@);
            if cs.len() == 1 {
                let c = cs@[0] as u32;
                assert(cs@.drop_first() =~= Seq::<char>::empty());
                assert(encode_utf8(Seq::<char>::empty()) =~= Seq::<u8>::empty());
                assert(e =~= encode_scalar(c) + encode_utf8(cs@.drop_first()));
                assert(e =~= encode_scalar(c));
            } else if cs.len() == 2 {
                let c0 = cs@[0] as u32;
                let c1 = cs@[1] as u32;
                assert(cs@.drop_first().drop_first() =~= Seq::<char>::empty());
                assert(encode_utf8(cs@.drop_first()) =~= encode_scalar(c1) + encode_utf8(
                    cs@.drop_first().drop_first(),
                ));
                assert(e =~= encode_scalar(c0) + encode_scalar(c1));
            }
        }
        Err(ParseSqError::BadLen)
    }
}

/// Format to algebraic notation (e.g., "a1", "h8").
pub fn format_sq(sq: Sq) -> (r: String)
    ensures
        r@ == spec_format_sq(sq@),
{
    let col = 97u8 + sq.col();
    let row = 49u8 + sq.row();
    let mut s = String::new();
    push_char(&mut s, col as char);
    push_char(&mut s, row as char);
    proof {
        assert(s@ =~= spec_format_sq(sq@));
    }
    s
}

/// Algebraic notation reads back as the square it was written from.
pub proof fn law_sq_roundtrip(i: int)
    requires
        0 <= i < 64,
    ensures
        spec_parse_sq(encode_utf8(spec_format_sq(i))) == Ok::<int, ParseSqError>(i),
{
    let cs = spec_format_sq(i);
    assert(is_ascii_chars(cs));
    is_ascii_chars_encode_utf8(cs);
    let e = encode_utf8(cs);
    assert(e[0] == cs[0] as u8);
    assert(e[1] == cs[1] as u8);
}

} // verus!
