use migoyugo::error::{ParseGameError, PlayError};
use migoyugo::game::{format_game, format_result, parse_game, parse_result, Game, PgnFormat};
use migoyugo::mv::{Mv, MvFormat};
use migoyugo::outcome::{Outcome, WegoResult};
use migoyugo::piece::Color;
use migoyugo::sq::parse_sq;

#[test]
fn test_empty_game() {
    let game = Game::new();
    assert!(game.is_empty());
    assert_eq!(game.len(), 0);
    assert!(game.outcome().is_none());
}

#[test]
fn test_play_and_undo() {
    let mut game = Game::new();
    let mv = Mv::new(parse_sq("d4").unwrap());

    game.play(mv).unwrap();
    assert_eq!(game.len(), 1);
    assert_eq!(game.current_state().side_to_move(), Color::Black);

    let undone = game.undo();
    assert_eq!(undone.map(|m| m.sq), Some(mv.sq));
    assert!(game.is_empty());
}

#[test]
fn test_parse_simple() {
    let pgn = "d4 c3 c4 e4";
    let (game, _) = parse_game(pgn, false).unwrap();
    assert_eq!(game.len(), 4);
}

#[test]
fn test_parse_with_numbers() {
    let pgn = "1. d4 c3 2. c4 e4 3. d5 e3";
    let (game, _) = parse_game(pgn, false).unwrap();
    assert_eq!(game.len(), 6);
}

#[test]
fn test_parse_with_yugos() {
    let pgn = "1. d4 c3 2. c4 e4 3. d5 e3 4. d3 e6 5. d6 (1 yugo) e5 (1 yugo)";
    let (game, fmt) = parse_game(pgn, true).unwrap();
    assert_eq!(game.len(), 10);
    assert_eq!(fmt, Some(MvFormat::YugosParens));
}

#[test]
fn game_test_format_plain() {
    let mut game = Game::new();
    for sq in ["d4", "c3", "c4", "e4"] {
        game.play(Mv::new(parse_sq(sq).unwrap())).unwrap();
    }
    let fmt = PgnFormat { move_numbers: false, newlines: false, mv_format: MvFormat::Plain };
    assert_eq!(format_game(&game, &fmt, false, false), "d4 c3 c4 e4");
}

#[test]
fn test_format_with_numbers() {
    let mut game = Game::new();
    for sq in ["d4", "c3", "c4", "e4"] {
        game.play(Mv::new(parse_sq(sq).unwrap())).unwrap();
    }
    let fmt = PgnFormat { move_numbers: true, newlines: false, mv_format: MvFormat::Plain };
    assert_eq!(format_game(&game, &fmt, false, false), "1. d4 c3 2. c4 e4");
}

#[test]
fn game_format_newlines_and_result() {
    let mut game = Game::new();
    for sq in ["d4", "c3", "c4"] {
        game.play(Mv::new(parse_sq(sq).unwrap())).unwrap();
    }
    let fmt = PgnFormat { move_numbers: true, newlines: true, mv_format: MvFormat::Plain };
    assert_eq!(format_game(&game, &fmt, true, true), "1. d4 c3\n2. c4\n*");
}

#[test]
fn game_plus_format_detection_and_roundtrip() {
    let pgn = "d4 c3 c4 e4 d5 e3 d3 e6 d6+ e5+";
    let (game, fmt) = parse_game(pgn, true).unwrap();
    assert_eq!(game.len(), 10);
    assert_eq!(fmt, Some(MvFormat::YugosPlus));
    let f = PgnFormat { move_numbers: false, newlines: false, mv_format: MvFormat::YugosPlus };
    assert_eq!(format_game(&game, &f, false, false), pgn);
    let f = PgnFormat { move_numbers: true, newlines: false, mv_format: MvFormat::YugosParens };
    let text = format_game(&game, &f, false, false);
    let (again, _) = parse_game(&text, true).unwrap();
    assert_eq!(again.moves(), game.moves());
    // An unfinished game's result marker `*` is not read back as a result.
    let text = format_game(&game, &f, true, false);
    assert!(text.ends_with(" *"));
    assert!(matches!(parse_game(&text, true), Err(ParseGameError::Move { index: 10, .. })));
}

#[test]
fn game_parse_errors() {
    assert!(matches!(parse_game("d4 z9", false), Err(ParseGameError::Move { index: 1, .. })));
    assert!(matches!(parse_game("d4 d4", false), Err(ParseGameError::Illegal(1))));
    assert!(matches!(
        parse_game("d4 c3 c4 e4 d5 e3 d3 e6 d6 (2 yugos)", true),
        Err(ParseGameError::YugoMismatch { index: 8, expected: 1, got: 2 })
    ));
    // Without validation the annotation is not checked.
    assert!(parse_game("d4 c3 c4 e4 d5 e3 d3 e6 d6 (2 yugos)", false).is_ok());
}

#[test]
fn game_parse_split_annotations() {
    // The annotation may be split across tokens.
    let (game, fmt) = parse_game("d4 c3 c4 e4 d5 e3 d3 e6 d6 ( 1 yugo ) e5 (1 yugo) 1-0 (igo)", true).unwrap();
    assert_eq!(game.len(), 10);
    assert_eq!(fmt, Some(MvFormat::YugosParens));
}

#[test]
fn game_play_after_end() {
    let mut game = Game::new();
    let fmt = PgnFormat::default();
    assert_eq!(format_game(&game, &fmt, true, false), "*");
    assert!(matches!(game.play(Mv::new(parse_sq("a1").unwrap())), Ok(())));
    assert!(matches!(game.play(Mv::new(parse_sq("a1").unwrap())), Err(PlayError::Occupied)));
    assert_eq!(Game::from_moves(&[Mv::new(parse_sq("a1").unwrap())]).unwrap().len(), 1);
}

#[test]
fn game_results() {
    assert_eq!(format_result(None, true), "*");
    assert_eq!(format_result(Some(Outcome::Igo(Color::White)), true), "1-0 (igo)");
    assert_eq!(format_result(Some(Outcome::Wego(WegoResult::Win(Color::Black))), false), "0-1");
    assert_eq!(format_result(Some(Outcome::Wego(WegoResult::Draw)), true), "1/2-1/2 (wego)");
    assert_eq!(parse_result(" * ").unwrap(), None);
    assert_eq!(parse_result("1-0 (igo)").unwrap(), Some((Some(Color::White), true)));
    assert_eq!(parse_result("0-1 (wego)").unwrap(), Some((Some(Color::Black), false)));
    assert_eq!(parse_result("0-1").unwrap(), Some((Some(Color::Black), false)));
    assert_eq!(parse_result("1/2-1/2 (igo)").unwrap(), Some((None, false)));
    assert!(matches!(parse_result(" 2-0 "), Err(ParseGameError::BadResult(ref s)) if s == "2-0"));
}

#[test]
fn game_bare_text_reads_back() {
    let (game, _) = parse_game("d4 c3 c4 e4 d5 e3 d3 e6 d6 (1 yugo) e5+", true).unwrap();
    let text = format_game(&game, &PgnFormat::default(), false, false);
    assert_eq!(text, "d4 c3 c4 e4 d5 e3 d3 e6 d6 e5");
    let (again, fmt) = parse_game(&text, false).unwrap();
    assert_eq!(fmt, None);
    // The yugo counts come back from replaying the squares.
    assert_eq!(again.moves(), game.moves());
    assert_eq!(again.moves()[8].yugos_formed, 1);
    assert_eq!(again.current_state(), game.current_state());
}

#[test]
fn result_text_read_back() {
    let outcomes = [
        None,
        Some(Outcome::Igo(Color::White)),
        Some(Outcome::Igo(Color::Black)),
        Some(Outcome::Wego(WegoResult::Win(Color::White))),
        Some(Outcome::Wego(WegoResult::Win(Color::Black))),
        Some(Outcome::Wego(WegoResult::Draw)),
    ];
    for o in outcomes {
        for t in [false, true] {
            let expected = o.map(|x| (x.winner(), t && matches!(x, Outcome::Igo(_))));
            assert_eq!(parse_result(&format_result(o, t)).unwrap(), expected);
        }
    }
}

#[test]
fn result_text_whitespace_and_refusals() {
    assert_eq!(parse_result("  1-0   (igo)\n").unwrap(), Some((Some(Color::White), true)));
    assert_eq!(parse_result("\t*  ").unwrap(), None);
    assert_eq!(parse_result("0-1(wego)").unwrap(), Some((Some(Color::Black), false)));
    assert!(matches!(parse_result(" 2-0 "), Err(ParseGameError::BadResult(t)) if t == "2-0"));
    assert!(matches!(parse_result("1-0 (draw)"), Err(ParseGameError::BadResult(t)) if t == "1-0 (draw)"));
}

#[test]
fn from_moves_is_successive_play() {
    let names = ["d4", "e5", "d5", "e4", "d3", "e3", "d6"];
    let ms: Vec<Mv> = names.iter().map(|s| Mv::new(parse_sq(s).unwrap())).collect();
    let g = Game::from_moves(&ms).unwrap();
    let mut h = Game::new();
    for m in &ms {
        h.play(*m).unwrap();
    }
    assert_eq!(g.moves(), h.moves());
    assert_eq!(g.len(), ms.len());
    let bad = [ms[0], ms[1], ms[0]];
    assert_eq!(Game::from_moves(&bad).err(), Some(PlayError::Occupied));
}
