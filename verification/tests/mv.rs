use migoyugo::error::{ParseMvError, ParseSqError};
use migoyugo::mv::{format_mv, parse_mv, parse_mv_auto, Mv, MvFormat};
use migoyugo::sq::{format_sq, parse_sq};

#[test]
fn test_parse_plain() {
    let mv = parse_mv("d4", MvFormat::Plain).unwrap();
    assert_eq!(mv.sq, parse_sq("d4").unwrap());
    assert_eq!(mv.yugos_formed, 0);
}

#[test]
fn test_parse_parens() {
    let mv = parse_mv("d6 (1 yugo)", MvFormat::YugosParens).unwrap();
    assert_eq!(format_sq(mv.sq), "d6");
    assert_eq!(mv.yugos_formed, 1);

    let mv = parse_mv("e4 (2 yugos)", MvFormat::YugosParens).unwrap();
    assert_eq!(format_sq(mv.sq), "e4");
    assert_eq!(mv.yugos_formed, 2);

    let mv = parse_mv("a1", MvFormat::YugosParens).unwrap();
    assert_eq!(format_sq(mv.sq), "a1");
    assert_eq!(mv.yugos_formed, 0);
}

#[test]
fn test_parse_plus() {
    let mv = parse_mv("d6+", MvFormat::YugosPlus).unwrap();
    assert_eq!(format_sq(mv.sq), "d6");
    assert_eq!(mv.yugos_formed, 1);

    let mv = parse_mv("e4++", MvFormat::YugosPlus).unwrap();
    assert_eq!(format_sq(mv.sq), "e4");
    assert_eq!(mv.yugos_formed, 2);

    let mv = parse_mv("a1", MvFormat::YugosPlus).unwrap();
    assert_eq!(format_sq(mv.sq), "a1");
    assert_eq!(mv.yugos_formed, 0);
}

#[test]
fn test_parse_auto() {
    let mv = parse_mv_auto("d4").unwrap();
    assert_eq!(mv.yugos_formed, 0);

    let mv = parse_mv_auto("d6 (1 yugo)").unwrap();
    assert_eq!(mv.yugos_formed, 1);

    let mv = parse_mv_auto("e4++").unwrap();
    assert_eq!(mv.yugos_formed, 2);
}

#[test]
fn mv_test_format_plain() {
    let mv = Mv::with_yugos(parse_sq("d6").unwrap(), 1);
    assert_eq!(format_mv(mv, MvFormat::Plain), "d6");
}

#[test]
fn test_format_parens() {
    let mv = Mv::new(parse_sq("d4").unwrap());
    assert_eq!(format_mv(mv, MvFormat::YugosParens), "d4");

    let mv = Mv::with_yugos(parse_sq("d6").unwrap(), 1);
    assert_eq!(format_mv(mv, MvFormat::YugosParens), "d6 (1 yugo)");

    let mv = Mv::with_yugos(parse_sq("e4").unwrap(), 2);
    assert_eq!(format_mv(mv, MvFormat::YugosParens), "e4 (2 yugos)");
}

#[test]
fn test_format_plus() {
    let mv = Mv::new(parse_sq("d4").unwrap());
    assert_eq!(format_mv(mv, MvFormat::YugosPlus), "d4");

    let mv = Mv::with_yugos(parse_sq("d6").unwrap(), 1);
    assert_eq!(format_mv(mv, MvFormat::YugosPlus), "d6+");

    let mv = Mv::with_yugos(parse_sq("e4").unwrap(), 3);
    assert_eq!(format_mv(mv, MvFormat::YugosPlus), "e4+++");
}

#[test]
fn mv_parse_errors() {
    assert_eq!(parse_mv("d6 (1 yugo", MvFormat::YugosParens), Err(ParseMvError::BadYugoFormat));
    assert_eq!(parse_mv("d6 (x yugo)", MvFormat::YugosParens), Err(ParseMvError::BadYugoFormat));
    assert_eq!(parse_mv("d6 (1 pawn)", MvFormat::YugosParens), Err(ParseMvError::BadYugoFormat));
    assert_eq!(parse_mv("d6 (1)", MvFormat::YugosParens), Err(ParseMvError::BadYugoFormat));
    assert_eq!(parse_mv("z6 (1 yugo)", MvFormat::YugosParens), Err(ParseMvError::Sq(ParseSqError::BadCol)));
    assert_eq!(parse_mv("d9+", MvFormat::YugosPlus), Err(ParseMvError::Sq(ParseSqError::BadRow)));
    assert_eq!(parse_mv("d6 (+3 yugos)", MvFormat::YugosParens).unwrap().yugos_formed, 3);
    assert_eq!(parse_mv(" d6  ( 300 yugos )", MvFormat::YugosParens), Err(ParseMvError::BadYugoFormat));
}

#[test]
fn mv_roundtrip_examples() {
    for n in [0u8, 1, 2, 7, 255] {
        let mv = Mv::with_yugos(parse_sq("h1").unwrap(), n);
        for f in [MvFormat::YugosParens, MvFormat::YugosPlus] {
            let text = format_mv(mv, f);
            assert_eq!(parse_mv(&text, f).unwrap(), mv);
            assert_eq!(parse_mv_auto(&text).unwrap(), mv);
        }
    }
}
