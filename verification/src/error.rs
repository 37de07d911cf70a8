use vstd::prelude::*;


verus! {

/// Why a square could not be read.
#[derive(Debug, Clone, Copy, PartialEq, Eq, Structural)]
pub enum ParseSqError {
    /// The text is not exactly two bytes long.
    BadLen,
    /// The column is not `a`-`h`.
    BadCol,
    /// The row is not `1`-`8`.
    BadRow,
}

/// Why a move could not be read.
#[derive(Debug, Clone, Copy, PartialEq, Eq, Structural)]
pub enum ParseMvError {
    /// The square part is invalid.
    Sq(ParseSqError),
    /// The yugo count annotation is malformed.
    BadYugoFormat,
}

/// Why a position string could not be read.
#[derive(Debug, Clone)]
pub enum ParseStateError {
    /// The board part is malformed; the text says how.
    Board(String),
    /// The side to move is neither `w` nor `b`.
    BadSide,
    /// A score is not a number from 0 to 255; holds the offending text.
    BadScore(String),
    /// The string does not have exactly four whitespace-separated parts.
    BadFormat,
}

/// What a `ParseStateError` says, with its text as characters.
pub enum ParseStateErrorView {
    Board(Seq<char>),
    BadSide,
    BadScore(Seq<char>),
    BadFormat,
}

impl View for ParseStateError {
    type V = ParseStateErrorView;

    open spec fn view(&self) -> ParseStateErrorView {
        match self {
            ParseStateError::Board(m) => ParseStateErrorView::Board(m@),
            ParseStateError::BadSide => ParseStateErrorView::BadSide,
            ParseStateError::BadScore(t) => ParseStateErrorView::BadScore(t@),
            ParseStateError::BadFormat => ParseStateErrorView::BadFormat,
        }
    }
}

/// Why a move list could not be read.
#[derive(Debug, Clone)]
pub enum ParseGameError {
    /// The move at this position could not be read.
    Move { index: usize, source: ParseMvError },
    /// The move at this position is not legal.
    Illegal(usize),
    /// The annotated yugo count of a move differs from the count the move really forms.
    YugoMismatch { index: usize, expected: u8, got: u8 },
    /// The result string is not one of the known forms; holds it.
    BadResult(String),
}

/// What a `ParseGameError` says, with its text as characters.
pub enum ParseGameErrorView {
    Move { index: usize, source: ParseMvError },
    Illegal(usize),
    YugoMismatch { index: usize, expected: u8, got: u8 },
    BadResult(Seq<char>),
}

impl View for ParseGameError {
    type V = ParseGameErrorView;

    open spec fn view(&self) -> ParseGameErrorView {
        match self {
            ParseGameError::Move { index, source } => ParseGameErrorView::Move {
                index: *index,
                source: *source,
            },
            ParseGameError::Illegal(i) => ParseGameErrorView::Illegal(*i),
            ParseGameError::YugoMismatch { index, expected, got } =>
                ParseGameErrorView::YugoMismatch { index: *index, expected: *expected, got: *got },
            ParseGameError::BadResult(s) => ParseGameErrorView::BadResult(s@),
        }
    }
}

/// Why a move cannot be played.
#[derive(Debug, Clone, Copy, PartialEq, Eq, Structural)]
pub enum PlayError {
    /// The square is already occupied.
    Occupied,
    /// The placement would make a line of more than four of the mover's pieces.
    LineTooLong,
    /// The game has already ended.
    GameOver,
}

} // verus!
