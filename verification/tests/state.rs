use migoyugo::error::{ParseStateError, PlayError};
use migoyugo::mv::Mv;
use migoyugo::outcome::{Outcome, WegoResult};
use migoyugo::piece::{Color, PieceKind};
use migoyugo::sq::{parse_sq, Sq};
use migoyugo::state::{format_state, parse_state, State};

#[test]
fn test_empty_state() {
    let state = State::new();
    assert_eq!(state.side_to_move(), Color::White);
    assert_eq!(state.score(Color::White), 0);
    assert_eq!(state.score(Color::Black), 0);
    assert_eq!(state.occupied(), 0);
}

#[test]
fn test_fen_empty() {
    let fen = "8/8/8/8/8/8/8/8 w 0 0";
    let state = parse_state(fen).unwrap();
    assert_eq!(state.occupied(), 0);
    assert_eq!(state.side_to_move(), Color::White);
    assert_eq!(format_state(&state), fen);
}

#[test]
fn test_fen_roundtrip() {
    let fen = "8/8/8/3w4/8/8/8/8 w 0 0";
    let state = parse_state(fen).unwrap();
    assert_eq!(format_state(&state), fen);

    let fen = "8/8/8/3Wb3/8/8/8/8 b 1 2";
    let state = parse_state(fen).unwrap();
    assert_eq!(format_state(&state), fen);
}

#[test]
fn test_legal_moves_empty() {
    let state = State::new();
    assert_eq!(state.legal_moves().len(), 64);
}

#[test]
fn test_play_simple() {
    let state = State::new();
    let mv = Mv::new(Sq::from_col_row(3, 3).unwrap()); // d4
    let (new_state, yugos) = state.play(mv).unwrap();

    assert_eq!(yugos, 0);
    assert_eq!(new_state.side_to_move(), Color::Black);
    assert!(new_state.at(mv.sq).is_some());
}

#[test]
fn test_line_too_long() {
    let mut state = State::new();
    for (w_col, b_col) in [(0, 0), (1, 1), (3, 3), (4, 4)] {
        let mv = Mv::new(Sq::from_col_row(w_col, 0).unwrap());
        (state, _) = state.play_unchecked(mv);
        let mv = Mv::new(Sq::from_col_row(b_col, 7).unwrap());
        (state, _) = state.play_unchecked(mv);
    }
    let mv = Mv::new(Sq::from_col_row(2, 0).unwrap());
    assert!(matches!(state.play(mv), Err(PlayError::LineTooLong)));
}

#[test]
fn test_yugo_formation() {
    let mut state = State::new();
    let moves = ["a1", "a8", "b1", "b8", "c1", "c8"];
    for mv_str in moves {
        let sq = parse_sq(mv_str).unwrap();
        let mv = Mv::new(sq);
        (state, _) = state.play_unchecked(mv);
    }
    let sq = parse_sq("d1").unwrap();
    let (new_state, yugos) = state.play(Mv::new(sq)).unwrap();

    assert_eq!(yugos, 1);
    assert_eq!(new_state.score(Color::White), 1);
    let piece = new_state.at(sq).unwrap();
    assert_eq!(piece.kind, PieceKind::Yugo);
    assert!(new_state.at(parse_sq("a1").unwrap()).is_none());
    assert!(new_state.at(parse_sq("b1").unwrap()).is_none());
    assert!(new_state.at(parse_sq("c1").unwrap()).is_none());
}

#[test]
fn state_occupied_square() {
    let state = State::new();
    let sq = parse_sq("e5").unwrap();
    let (state, _) = state.play(Mv::new(sq)).unwrap();
    assert!(matches!(state.play(Mv::new(sq)), Err(PlayError::Occupied)));
    assert!(!state.is_empty(sq));
    assert!(!state.is_legal_placement(sq));
    assert_eq!(state.legal_moves().len(), 63);
}

#[test]
fn state_two_lines_at_once() {
    // White completes a row and a column through d4 with one placement.
    let fen = "8/8/8/8/3w4/3w4/3w4/www5 w 0 0";
    let state = parse_state(fen).unwrap();
    // d1 joins a1-c1 (row) and d2-d4 (column).
    let (next, yugos) = state.play(Mv::new(parse_sq("d1").unwrap())).unwrap();
    assert_eq!(yugos, 2);
    assert_eq!(next.score(Color::White), 2);
    assert_eq!(next.migos(Color::White), 0);
    assert_eq!(next.yugos(Color::White), parse_sq("d1").unwrap().bit());
    assert_eq!(format_state(&next), "8/8/8/8/8/8/8/3W4 b 2 0");
}

#[test]
fn state_yugos_stay_in_lines() {
    // A line that passes through an existing yugo keeps it.
    let state = parse_state("8/8/8/8/8/8/8/wWw5 w 0 0").unwrap();
    let (next, yugos) = state.play(Mv::new(parse_sq("d1").unwrap())).unwrap();
    assert_eq!(yugos, 1);
    assert_eq!(format_state(&next), "8/8/8/8/8/8/8/1W1W4 b 1 0");
}

#[test]
fn state_fen_errors() {
    assert!(matches!(parse_state("8/8/8 w 0 0"), Err(ParseStateError::Board(ref m)) if m == "expected 8 rows"));
    assert!(matches!(parse_state("8/8/8/8/8/8/8/9 w 0 0"), Err(ParseStateError::Board(ref m)) if m == "invalid char: 9"));
    assert!(matches!(parse_state("8/8/8/8/8/8/8/44w w 0 0"), Err(ParseStateError::Board(ref m)) if m == "row 8 too long"));
    assert!(matches!(parse_state("8/8/7/8/8/8/8/8 w 0 0"), Err(ParseStateError::Board(ref m)) if m == "row 3 incomplete: only 7 cols"));
    assert!(matches!(parse_state("8/8/8/8/8/8/8/8 x 0 0"), Err(ParseStateError::BadSide)));
    assert!(matches!(parse_state("8/8/8/8/8/8/8/8 w 256 0"), Err(ParseStateError::BadScore(ref s)) if s == "256"));
    assert!(matches!(parse_state("8/8/8/8/8/8/8/8 w 0"), Err(ParseStateError::BadFormat)));
}

#[test]
fn state_outcomes() {
    // Four white yugos in a column: Igo for white.
    let state = parse_state("8/8/8/8/W7/W7/W7/W7 b 4 0").unwrap();
    assert_eq!(state.outcome(), Some(Outcome::Igo(Color::White)));
    assert_eq!(state.outcome().unwrap().winner(), Some(Color::White));
    // An empty board has moves and no outcome.
    assert_eq!(State::new().outcome(), None);
    // A full board: Wego, decided by score.
    let full = parse_state("wbwbwbwb/bwbwbwbw/wbwbwbwb/bwbwbwbw/wbwbwbwb/bwbwbwbw/wbwbwbwb/bwbwbwbw w 3 1").unwrap();
    assert!(!full.has_legal_moves());
    assert_eq!(full.outcome(), Some(Outcome::Wego(WegoResult::Win(Color::White))));
    let drawn = parse_state("wbwbwbwb/bwbwbwbw/wbwbwbwb/bwbwbwbw/wbwbwbwb/bwbwbwbw/wbwbwbwb/bwbwbwbw w 2 2").unwrap();
    assert_eq!(drawn.outcome(), Some(Outcome::Wego(WegoResult::Draw)));
    assert_eq!(drawn.outcome().unwrap().winner(), None);
}

#[test]
fn state_format_reads_back() {
    let mut state = parse_state("8/8/8/8/8/8/8/wWw5 w 3 250").unwrap();
    for name in ["d1", "h8", "e4", "a8", "f6"] {
        state = state.play(Mv::new(parse_sq(name).unwrap())).unwrap().0;
        let text = format_state(&state);
        assert_eq!(parse_state(&text).unwrap(), state);
    }
    let empty = State::new();
    assert_eq!(parse_state(&format_state(&empty)).unwrap(), empty);
}

#[test]
fn score_counts_yugos() {
    let mut s = State::new();
    for name in ["a1", "a8", "b1", "b8", "c1", "c8", "d1"] {
        s = s.play(Mv::new(parse_sq(name).unwrap())).unwrap().0;
        for c in [Color::White, Color::Black] {
            let y = s.yugos(c).count_ones();
            assert!(y <= s.score(c) as u32 && s.score(c) as u32 <= 4 * y);
        }
    }
    assert_eq!(s.score(Color::White), 1);
    assert_eq!(s.yugos(Color::White).count_ones(), 1);
    assert_eq!(s.migos(Color::White), 0);
}
