use migoyugo::arena::book::{line_fits, parse_book_line, OpeningBook, OpeningError};
use migoyugo::arena::log::{LogReason, MoveResult};
use migoyugo::arena::referee::{next_turn, rule, Ruling, Turn, MAX_MOVES};
use migoyugo::arena::protocol::{Limits, Mv as ArenaMv};
use migoyugo::arena::stats::{
    dev_score, error_result, FaultyEngine, GamePairResult, GameResult, MatchStats, Pentanomial,
    PentanomialCounts, Score, TerminationKind,
};
use migoyugo::error::{ParseSqError, PlayError};
use migoyugo::game::Game;
use migoyugo::mv::Mv;
use migoyugo::outcome::{Outcome, WegoResult};
use migoyugo::piece::Color;
use migoyugo::sq::{format_sq, parse_sq};

fn line(names: &[&str]) -> Vec<Mv> {
    names.iter().map(|s| Mv::new(parse_sq(s).unwrap())).collect()
}

#[test]
fn test_empty_book() {
    let book = OpeningBook::empty();
    assert_eq!(book.len(), 1);
    assert!(book.get_opening(0).is_empty());
}

#[test]
fn test_generate_random() {
    let book = OpeningBook::generate_random(10, 6);
    assert_eq!(book.len(), 10);
    for i in 0..10 {
        let opening = book.get_opening(i);
        assert!(opening.len() <= 6);
    }
}

#[test]
fn test_cycling() {
    let book = OpeningBook::generate_random(3, 4);
    assert_eq!(book.get_opening(0), book.get_opening(3));
    assert_eq!(book.get_opening(1), book.get_opening(4));
    assert_eq!(book.get_opening(2), book.get_opening(5));
}

#[test]
fn test_validation() {
    // Generated openings should always be valid
    let book = OpeningBook::generate_random(10, 6);
    for i in 0..10 {
        let opening = book.get_opening(i);
        assert!(OpeningBook::validate_opening(&opening).is_ok());
    }
}

#[test]
fn book_generate_zero_and_full_depth() {
    let book = OpeningBook::generate_random(0, 3);
    assert_eq!(book.len(), 1);
    let book = OpeningBook::generate_random(2, 5);
    for i in 0..2 {
        assert_eq!(book.get_opening(i).len(), 5);
    }
}

#[test]
fn book_validate_opening_errors() {
    assert_eq!(OpeningBook::validate_opening(&line(&["d4", "e5"])), Ok(()));
    let bad = line(&["d4", "d4"]);
    assert_eq!(
        OpeningBook::validate_opening(&bad),
        Err(OpeningError::Move { index: 1, sq: parse_sq("d4").unwrap(), error: PlayError::Occupied })
    );
    let long = line(&["a1", "a8", "b1", "b8", "c1", "h5", "e1", "h6", "d1"]);
    assert!(matches!(
        OpeningBook::validate_opening(&long),
        Err(OpeningError::Move { index: 8, error: PlayError::LineTooLong, .. })
    ));
}

#[test]
fn book_validate_keeps_valid() {
    let mut book = OpeningBook::generate_random(3, 2);
    let before: Vec<Vec<Mv>> = (0..3).map(|i| book.get_opening(i)).collect();
    let dropped = book.validate().unwrap();
    assert!(dropped.is_empty());
    assert_eq!(book.len(), 3);
    for i in 0..3 {
        assert_eq!(book.get_opening(i), before[i]);
    }
}

#[test]
fn pentanomial_from_scores() {
    assert_eq!(Pentanomial::from_scores(Score::Loss, Score::Loss), Pentanomial::Ll);
    assert_eq!(Pentanomial::from_scores(Score::Loss, Score::Draw), Pentanomial::Ld);
    assert_eq!(Pentanomial::from_scores(Score::Draw, Score::Draw), Pentanomial::DdWl);
    assert_eq!(Pentanomial::from_scores(Score::Win, Score::Loss), Pentanomial::DdWl);
    assert_eq!(Pentanomial::from_scores(Score::Draw, Score::Win), Pentanomial::Wd);
    assert_eq!(Pentanomial::from_scores(Score::Win, Score::Win), Pentanomial::Ww);
    assert_eq!(Pentanomial::Ww.index(), 4);
    assert_eq!(Pentanomial::Ll.index(), 0);
    assert_eq!(Pentanomial::DdWl.label(), "DD/WL");
}

#[test]
fn stats_record_pair() {
    let mut stats = MatchStats::default();
    let g1 = GameResult { game: Game::new(), dev_score: Score::Win, termination: None };
    let g2 = error_result(Game::new(), false, true, TerminationKind::Timeout, "Timeout".to_string());
    assert_eq!(g2.dev_score, Score::Win);
    let t = g2.termination.clone().unwrap();
    assert_eq!(t.faulty_engine, Some(FaultyEngine::Base));
    let outcome = Pentanomial::from_scores(g1.dev_score, g2.dev_score);
    stats.record_pair(&GamePairResult { game1: g1, game2: g2, outcome });
    assert_eq!(stats.total_games(), 2);
    assert_eq!(stats.dev_wins, 2);
    assert_eq!(stats.base_timeouts, 1);
    assert_eq!(stats.dev_timeouts, 0);
    assert_eq!(stats.pentanomial.0, [0, 0, 0, 0, 1]);
    let g3 = error_result(Game::new(), true, true, TerminationKind::Crash, "Engine crashed".to_string());
    let g4 = GameResult { game: Game::new(), dev_score: Score::Draw, termination: None };
    stats.record_pair(&GamePairResult { game1: g3, game2: g4, outcome: Pentanomial::Ld });
    assert_eq!(stats.total_games(), 4);
    assert_eq!(stats.dev_crashes, 1);
    assert_eq!(stats.dev_losses, 1);
    assert_eq!(stats.draws, 1);
    assert_eq!(stats.pentanomial.0, [0, 1, 0, 0, 1]);
}

#[test]
fn stats_counts_record() {
    let mut c = PentanomialCounts::default();
    c.record(Pentanomial::Wd);
    c.record(Pentanomial::Wd);
    assert_eq!(c.0, [0, 0, 0, 2, 0]);
}

#[test]
fn stats_dev_score() {
    assert_eq!(dev_score(&Outcome::Igo(Color::White), true), Score::Win);
    assert_eq!(dev_score(&Outcome::Igo(Color::White), false), Score::Loss);
    assert_eq!(dev_score(&Outcome::Wego(WegoResult::Win(Color::Black)), false), Score::Win);
    assert_eq!(dev_score(&Outcome::Wego(WegoResult::Draw), true), Score::Draw);
}

#[test]
fn arena_protocol() {
    let l = Limits::time(250);
    assert_eq!(l.time, Some(250));
    assert_eq!(l.depth, None);
    assert_eq!(l.nodes, None);
    assert_eq!(ArenaMv::from_raw(10).unwrap().sq().raw(), 10);
    assert!(ArenaMv::from_raw(64).is_none());
    assert_eq!(LogReason::ProtocolError.as_str(), "protocol_error");
    assert_eq!(LogReason::NoMove.as_str(), "no_move");
}

#[test]
fn book_lines() {
    let cs = |s: &str| s.chars().collect::<Vec<char>>();
    assert_eq!(parse_book_line(&cs("   ")), Ok(None));
    assert_eq!(parse_book_line(&cs("  # d4 e5")), Ok(None));
    let moves = parse_book_line(&cs(" d4  e5\tc3 ")).unwrap().unwrap();
    assert_eq!(moves.len(), 3);
    assert_eq!(format_sq(moves[1].sq), "e5");
    assert_eq!(moves[1].yugos_formed, 0);
    assert_eq!(parse_book_line(&cs("d4 e9 z1")), Err((1, ParseSqError::BadRow)));
    assert!(line_fits(&moves));
}

#[test]
fn referee_turns() {
    let mut game = Game::new();
    assert_eq!(next_turn(&game, false, 0), Turn::Ask { white: true });
    assert_eq!(next_turn(&game, true, 0), Turn::Stopped);
    assert_eq!(next_turn(&game, true, MAX_MOVES), Turn::TooLong { white: true });
    game.play(Mv::new(parse_sq("d4").unwrap())).unwrap();
    assert_eq!(next_turn(&game, false, 1), Turn::Ask { white: false });
    assert_eq!(next_turn(&game, false, MAX_MOVES), Turn::TooLong { white: false });
}

#[test]
fn referee_rulings() {
    let mut game = Game::new();
    let d4 = parse_sq("d4").unwrap();
    assert_eq!(rule(&mut game, &MoveResult::Move(d4)), Ruling::Relay(d4));
    assert_eq!(game.len(), 1);
    assert_eq!(rule(&mut game, &MoveResult::Move(d4)), Ruling::Illegal(PlayError::Occupied));
    assert_eq!(game.len(), 1);
    assert_eq!(rule(&mut game, &MoveResult::EngineError("busy".to_string())), Ruling::AskAgain);
    assert_eq!(rule(&mut game, &MoveResult::Stopped), Ruling::Stopped);
    assert_eq!(
        rule(&mut game, &MoveResult::NoMove),
        Ruling::Fault { kind: TerminationKind::NoMove, log: Some(LogReason::NoMove) }
    );
    assert_eq!(rule(&mut game, &MoveResult::Timeout), Ruling::Fault { kind: TerminationKind::Timeout, log: None });
    assert_eq!(rule(&mut game, &MoveResult::Crash), Ruling::Fault { kind: TerminationKind::Crash, log: None });
    assert_eq!(
        rule(&mut game, &MoveResult::ProtocolError("bad".to_string())),
        Ruling::Fault { kind: TerminationKind::ProtocolError, log: Some(LogReason::ProtocolError) }
    );
    assert_eq!(game.len(), 1);
}
