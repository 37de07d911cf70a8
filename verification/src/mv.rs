use vstd::prelude::*;

use vstd::utf8::encode_utf8;

use crate::error::{ParseMvError, ParseSqError};
use crate::sq::{format_sq, law_sq_roundtrip, parse_sq_chars, spec_format_sq, spec_parse_sq, Sq};
use crate::text::{
    chars_of, decimal, find, find_char, is_ws, lemma_decimal, lemma_find_bound, lemma_find_char,
    lemma_parse_u8_decimal, lemma_split_ws_append, lemma_split_ws_trailing, lemma_trim_end,
    lemma_trim_start, push_char, push_decimal, push_str, spec_parse_u8, split_whitespace, split_ws,
    starts_with, sub_chars, trailing_count, trim, trim_chars, lemma_trailing_count, parse_u8,
};

verus! {

/// A single move: placement at a square.
#[derive(Debug, Clone, Copy, PartialEq, Eq, Structural)]
pub struct Mv {
    /// The square where the piece is placed.
    pub sq: Sq,
    /// Number of yugos formed by this move (0 if unknown or not encoded).
    pub yugos_formed: u8,
}

impl Mv {
    /// Create a move without yugo information.
    pub fn new(sq: Sq) -> (r: Mv)
        ensures
            r == (Mv { sq, yugos_formed: 0 }),
    {
        Mv { sq, yugos_formed: 0 }
    }

    /// Create a move with yugo count.
    pub fn with_yugos(sq: Sq, yugos_formed: u8) -> (r: Mv)
        ensures
            r == (Mv { sq, yugos_formed }),
    {
        Mv { sq, yugos_formed }
    }
}

/// Move format for parsing and stringification.
#[derive(Debug, Clone, Copy, PartialEq, Eq, Structural)]
pub enum MvFormat {
    /// Plain square notation: "d4"
    Plain,
    /// Yugo count in parentheses: "d6 (1 yugo)" or "d4" if 0
    YugosParens,
    /// Yugo count as plus suffix: "d6+" or "d4" if 0
    YugosPlus,
}

impl Default for MvFormat {
    fn default() -> (r: MvFormat)
        ensures
            r == MvFormat::Plain,
    {
        MvFormat::Plain
    }
}

/// The move on the square that `cs` names, with no yugo count.
pub open spec fn spec_parse_plain(cs: Seq<char>) -> Result<Mv, ParseMvError> {
    match spec_parse_sq(encode_utf8(cs)) {
        Err(e) => Err(ParseMvError::Sq(e)),
        Ok(i) => Ok(Mv { sq: Sq::spec_new(i), yugos_formed: 0 }),
    }
}

/// A move written as `"d6 (1 yugo)"`, `"e4 (2 yugos)"` or just `"d6"`.
pub open spec fn spec_parse_parens(cs: Seq<char>) -> Result<Mv, ParseMvError> {
    match find_char(cs, '(') {
        None => spec_parse_plain(cs),
        Some(p) => match spec_parse_sq(encode_utf8(trim(cs.take(p)))) {
            Err(e) => Err(ParseMvError::Sq(e)),
            Ok(i) => {
                let rest = cs.skip(p + 1);
                match find_char(rest, ')') {
                    None => Err(ParseMvError::BadYugoFormat),
                    Some(q) => {
                        let parts = split_ws(trim(rest.take(q)));
                        if parts.len() != 2 {
                            Err(ParseMvError::BadYugoFormat)
                        } else {
                            match spec_parse_u8(parts[0]) {
                                None => Err(ParseMvError::BadYugoFormat),
                                Some(n) => if !starts_with(parts[1], seq!['y', 'u', 'g', 'o']) {
                                    Err(ParseMvError::BadYugoFormat)
                                } else {
                                    Ok(Mv { sq: Sq::spec_new(i), yugos_formed: n })
                                },
                            }
                        }
                    },
                }
            },
        },
    }
}

/// A move written as `"d6+"`, `"e4++"` or just `"d6"`: one `+` per yugo, the count kept modulo 256.
pub open spec fn spec_parse_plus(cs: Seq<char>) -> Result<Mv, ParseMvError> {
    let k = (trailing_count(cs, '+') % 256) as int;
    match spec_parse_sq(encode_utf8(cs.take(cs.len() - k))) {
        Err(e) => Err(ParseMvError::Sq(e)),
        Ok(i) => Ok(Mv { sq: Sq::spec_new(i), yugos_formed: k as u8 }),
    }
}

pub open spec fn spec_parse_mv(cs: Seq<char>, format: MvFormat) -> Result<Mv, ParseMvError> {
    match format {
        MvFormat::Plain => spec_parse_plain(cs),
        MvFormat::YugosParens => spec_parse_parens(cs),
        MvFormat::YugosPlus => spec_parse_plus(cs),
    }
}

/// The format `parse_mv_auto` picks: parentheses if any `(`, plus signs if it ends in `+`.
pub open spec fn spec_parse_mv_auto(cs: Seq<char>) -> Result<Mv, ParseMvError> {
    if find_char(cs, '(') is Some {
        spec_parse_parens(cs)
    } else if cs.len() > 0 && cs.last() == '+' {
        spec_parse_plus(cs)
    } else {
        spec_parse_plain(cs)
    }
}

fn parse_plain_chars(cs: &Vec<char>) -> (r: Result<Mv, ParseMvError>)
    ensures
        r == spec_parse_plain(cs@),
{
    match parse_sq_chars(cs) {
        Ok(sq) => {
            sq.index_range();
            let mv = Mv::new(sq);
            proof {
                Sq::lemma_spec_new(sq@);
                Sq::lemma_view_eq(sq, Sq::spec_new(sq@));
            }
            Ok(mv)
        },
        Err(e) => Err(ParseMvError::Sq(e)),
    }
}

fn parse_mv_parens(cs: &Vec<char>) -> (r: Result<Mv, ParseMvError>)
    ensures
        r == spec_parse_parens(cs@),
{
    match find(cs, '(') {
        None => parse_plain_chars(cs),
        Some(paren_start) => {
            proof {
                crate::text::lemma_find_bound(cs@, '(');
            }
            assert(paren_start < cs.len());
            let head = sub_chars(cs, 0, paren_start);
            assert(head@ =~= cs@.take(paren_start as int));
            let sq_part = trim_chars(&head);
            let sq = match parse_sq_chars(&sq_part) {
                Ok(sq) => sq,
                Err(e) => return Err(ParseMvError::Sq(e)),
            };
            let rest = sub_chars(cs, paren_start + 1, cs.len());
            assert(rest@ =~= cs@.skip(paren_start + 1));
            let paren_end = match find(&rest, ')') {
                Some(q) => q,
                None => return Err(ParseMvError::BadYugoFormat),
            };
            proof {
                crate::text::lemma_find_bound(rest@, ')');
            }
            let body = sub_chars(&rest, 0, paren_end);
            assert(body@ =~= rest@.take(paren_end as int));
            let inner = trim_chars(&body);
            let parts = split_whitespace(&inner);
            let ghost pv = parts.deep_view();
            if parts.len() != 2 {
                return Err(ParseMvError::BadYugoFormat);
            }
            assert(parts@[0]@ =~= pv[0]);
            assert(parts@[1]@ =~= pv[1]);
            let count = match parse_u8(&parts[0]) {
                Some(n) => n,
                None => return Err(ParseMvError::BadYugoFormat),
            };
            let p1 = &parts[1];
            if !(p1.len() >= 4 && p1[0] == 'y' && p1[1] == 'u' && p1[2] == 'g' && p1[3] == 'o') {
                proof {
                    if starts_with(pv[1], seq!['y', 'u', 'g', 'o']) {
                        assert(pv[1].take(4)[0] == 'y');
                        assert(pv[1].take(4)[1] == 'u');
                        assert(pv[1].take(4)[2] == 'g');
                        assert(pv[1].take(4)[3] == 'o');
                    }
                }
                return Err(ParseMvError::BadYugoFormat);
            }
            assert(pv[1].take(4) =~= seq!['y', 'u', 'g', 'o']);
            sq.index_range();
            proof {
                Sq::lemma_spec_new(sq@);
                Sq::lemma_view_eq(sq, Sq::spec_new(sq@));
            }
            Ok(Mv::with_yugos(sq, count))
        },
    }
}

fn parse_mv_plus(cs: &Vec<char>) -> (r: Result<Mv, ParseMvError>)
    ensures
        r == spec_parse_plus(cs@),
{
    let mut b: usize = cs.len();
    while b > 0 && cs[b - 1] == '+'
        invariant
            b <= cs.len(),
            forall|j: int| b <= j < cs.len() ==> cs@[j] == '+',
        decreases b,
    {
        b -= 1;
    }
    proof {
        lemma_trailing_count(cs@, '+', b as int);
    }
    let n = cs.len() - b;
    let plus_count = #[verifier::truncate] (n as u8);
    assert((#[verifier::truncate] (n as u8)) == n % 256) by (bit_vector);
    let sq_part = sub_chars(cs, 0, cs.len() - plus_count as usize);
    assert(sq_part@ =~= cs@.take(cs.len() - plus_count));
    match parse_sq_chars(&sq_part) {
        Ok(sq) => {
            sq.index_range();
            proof {
                Sq::lemma_spec_new(sq@);
                Sq::lemma_view_eq(sq, Sq::spec_new(sq@));
            }
            Ok(Mv::with_yugos(sq, plus_count))
        },
        Err(e) => Err(ParseMvError::Sq(e)),
    }
}

/// Parse a move of the given format, on characters.
pub fn parse_mv_chars(cs: &Vec<char>, format: MvFormat) -> (r: Result<Mv, ParseMvError>)
    ensures
        r == spec_parse_mv(cs@, format),
{
    match format {
        MvFormat::Plain => parse_plain_chars(cs),
        MvFormat::YugosParens => parse_mv_parens(cs),
        MvFormat::YugosPlus => parse_mv_plus(cs),
    }
}

/// Parse a move, detecting its format, on characters.
pub fn parse_mv_auto_chars(cs: &Vec<char>) -> (r: Result<Mv, ParseMvError>)
    ensures
        r == spec_parse_mv_auto(cs@),
{
    if find(cs, '(').is_some() {
        parse_mv_parens(cs)
    } else if cs.len() > 0 && cs[cs.len() - 1] == '+' {
        parse_mv_plus(cs)
    } else {
        parse_plain_chars(cs)
    }
}

/// Parse a move in the given format.
pub fn parse_mv(s: &str, format: MvFormat) -> (r: Result<Mv, ParseMvError>)
    ensures
        r == spec_parse_mv(s@, format),
{
    let cs = chars_of(s);
    parse_mv_chars(&cs, format)
}

/// Parse a move, auto-detecting the format.
pub fn parse_mv_auto(s: &str) -> (r: Result<Mv, ParseMvError>)
    ensures
        r == spec_parse_mv_auto(s@),
{
    let cs = chars_of(s);
    parse_mv_auto_chars(&cs)
}

/// `n` plus signs.
pub open spec fn pluses(n: nat) -> Seq<char>
    decreases n,
{
    if n == 0 {
        seq![]
    } else {
        pluses((n - 1) as nat).push('+')
    }
}

/// The text of a move in the given format.
pub open spec fn spec_format_mv(mv: Mv, format: MvFormat) -> Seq<char> {
    let sq = spec_format_sq(mv.sq@);
    match format {
        MvFormat::Plain => sq,
        MvFormat::YugosParens => if mv.yugos_formed == 0 {
            sq
        } else if mv.yugos_formed == 1 {
            sq + " (1 yugo)"@
        } else {
            sq + " ("@ + decimal(mv.yugos_formed as nat) + " yugos)"@
        },
        MvFormat::YugosPlus => if mv.yugos_formed == 0 {
            sq
        } else {
            sq + pluses(mv.yugos_formed as nat)
        },
    }
}

/// Format a move in the given format.
pub fn format_mv(mv: Mv, format: MvFormat) -> (r: String)
    ensures
        r@ == spec_format_mv(mv, format),
{
    let mut s = format_sq(mv.sq);
    match format {
        MvFormat::Plain => {},
        MvFormat::YugosParens => {
            if mv.yugos_formed == 0 {
            } else if mv.yugos_formed == 1 {
                push_str(&mut s, " (1 yugo)");
            } else {
                push_str(&mut s, " (");
                push_decimal(&mut s, mv.yugos_formed as u64);
                push_str(&mut s, " yugos)");
                assert(s@ =~= spec_format_mv(mv, format));
            }
        },
        MvFormat::YugosPlus => {
            let mut i: u8 = 0;
            let ghost base = s@;
            while i < mv.yugos_formed
                invariant
                    i <= mv.yugos_formed,
                    s@ == base + pluses(i as nat),
                decreases mv.yugos_formed - i,
            {
                push_char(&mut s, '+');
                assert(s@ =~= base + pluses((i + 1) as nat));
                i += 1;
            }
            assert(s@ =~= spec_format_mv(mv, format));
        },
    }
    s
}


proof fn lemma_pluses(n: nat)
    ensures
        pluses(n).len() == n,
        forall|j: int| 0 <= j < n ==> #[trigger] pluses(n)[j] == '+',
    decreases n,
{
    if n > 0 {
        lemma_pluses((n - 1) as nat);
    }
}

/// The two characters of a square's name: a letter and a digit, which read back as the square.
pub proof fn lemma_sq_text(sq: Sq)
    requires
        0 <= sq@ < 64,
    ensures
        spec_format_sq(sq@).len() == 2,
        'a' <= spec_format_sq(sq@)[0] <= 'h',
        '1' <= spec_format_sq(sq@)[1] <= '8',
        spec_parse_sq(encode_utf8(spec_format_sq(sq@))) == Ok::<int, ParseSqError>(sq@),
        Sq::spec_new(sq@) == sq,
{
    law_sq_roundtrip(sq@);
    Sq::lemma_spec_new(sq@);
    Sq::lemma_view_eq(Sq::spec_new(sq@), sq);
}

/// The square's name, ` (`, the count, a space, a word that starts with `yugo`, and `)`.
proof fn lemma_parens_text(sq: Sq, n: u8, word: Seq<char>)
    requires
        0 <= sq@ < 64,
        word.len() >= 4,
        word.take(4) == seq!['y', 'u', 'g', 'o'],
        forall|j: int| 0 <= j < word.len() ==> !is_ws(#[trigger] word[j]) && word[j] != ')',
    ensures
        spec_parse_parens(
            spec_format_sq(sq@) + seq![' ', '('] + decimal(n as nat) + seq![' '] + word + seq![')'],
        ) == Ok::<Mv, ParseMvError>(Mv { sq, yugos_formed: n }),
{
    let t = spec_format_sq(sq@);
    let d = decimal(n as nat);
    let cs = t + seq![' ', '('] + d + seq![' '] + word + seq![')'];
    lemma_sq_text(sq);
    lemma_decimal(n as nat);
    lemma_parse_u8_decimal(n as nat);
    assert forall|j: int| 0 <= j < d.len() implies !is_ws(#[trigger] d[j]) && d[j] != ')' by {
        assert(crate::text::is_digit(d[j]));
    }
    assert(cs[0] == t[0] && cs[1] == t[1] && cs[2] == ' ' && cs[3] == '(');
    lemma_find_char(cs, '(', 3);
    let head = cs.take(3);
    assert(head =~= t.push(' '));
    lemma_trim_start(head, 0);
    assert(head.skip(0) =~= head);
    lemma_trim_end(head, 2);
    assert(head.take(2) =~= t);
    let rest = cs.skip(4);
    assert(rest =~= d + seq![' '] + word + seq![')']);
    let q: int = (d.len() + 1 + word.len()) as int;
    assert forall|j: int| 0 <= j < q implies rest[j] != ')' by {
        if j < d.len() {
            assert(rest[j] == d[j]);
        } else if j > d.len() {
            assert(rest[j] == word[j - d.len() - 1]);
        }
    }
    lemma_find_char(rest, ')', q);
    let inner = rest.take(q);
    assert(inner =~= d.push(' ') + word);
    assert(inner[0] == d[0]);
    lemma_trim_start(inner, 0);
    assert(inner.skip(0) =~= inner);
    assert(inner[inner.len() - 1] == word[word.len() - 1]);
    lemma_trim_end(inner, inner.len() as int);
    assert(inner.take(inner.len() as int) =~= inner);
    lemma_split_ws_append(d.push(' '), word);
    lemma_split_ws_trailing(d, ' ');
    lemma_split_ws_append(Seq::<char>::empty(), d);
    assert(Seq::<char>::empty() + d =~= d);
    let parts = split_ws(inner);
    assert(parts =~= seq![d, word]);
    assert(starts_with(parts[1], seq!['y', 'u', 'g', 'o']));
}

/// What reading back the text of `mv` in `format` gives: the move itself, except that plain
/// notation carries no yugo count.
pub open spec fn spec_read_back(mv: Mv, format: MvFormat) -> Mv {
    match format {
        MvFormat::Plain => Mv { sq: mv.sq, yugos_formed: 0 },
        _ => mv,
    }
}

/// A move written in a format reads back, in that format and with the format detected, as the
/// same move (without its yugo count in plain notation).
pub proof fn law_mv_roundtrip(mv: Mv, format: MvFormat)
    requires
        0 <= mv.sq@ < 64,
    ensures
        spec_parse_mv(spec_format_mv(mv, format), format) == Ok::<Mv, ParseMvError>(
            spec_read_back(mv, format),
        ),
        spec_parse_mv_auto(spec_format_mv(mv, format)) == Ok::<Mv, ParseMvError>(
            spec_read_back(mv, format),
        ),
{
    let t = spec_format_sq(mv.sq@);
    let n = mv.yugos_formed;
    let cs = spec_format_mv(mv, format);
    lemma_sq_text(mv.sq);
    lemma_find_char(t, '(', 2);
    if n == 0 || format == MvFormat::Plain {
        assert(cs == t);
        assert(cs.last() == t[1]);
        if format == MvFormat::YugosPlus {
            assert(trailing_count(t, '+') == 0);
            assert(t.take(t.len() - 0) =~= t);
        }
    } else if format == MvFormat::YugosParens {
        reveal_strlit(" (1 yugo)");
        reveal_strlit(" (");
        reveal_strlit(" yugos)");
        if n == 1 {
            let word = seq!['y', 'u', 'g', 'o'];
            assert(decimal(1) == seq![crate::text::digit_char(1)]);
            assert(crate::text::digit_char(1) == '1');
            assert(cs =~= t + seq![' ', '('] + decimal(1) + seq![' '] + word + seq![')']);
            assert(word.take(4) =~= word);
            lemma_parens_text(mv.sq, n, word);
        } else {
            let word = seq!['y', 'u', 'g', 'o', 's'];
            assert(cs =~= t + seq![' ', '('] + decimal(n as nat) + seq![' '] + word + seq![')']);
            assert(word.take(4) =~= seq!['y', 'u', 'g', 'o']);
            lemma_parens_text(mv.sq, n, word);
        }
        assert(cs[3] == '(');
        lemma_find_bound(cs, '(');
    } else {
        lemma_pluses(n as nat);
        let p = pluses(n as nat);
        assert(cs =~= t + p);
        assert forall|j: int| 2 <= j < cs.len() implies cs[j] == '+' by {
            assert(cs[j] == p[j - 2]);
        }
        lemma_trailing_count(cs, '+', 2);
        assert(cs.take(cs.len() - n) =~= t);
        assert(cs.last() == p[n - 1]);
        lemma_find_char(cs, '(', cs.len() as int);
    }
}

} // verus!
