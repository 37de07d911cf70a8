use migoyugo::error::ParseSqError;
use migoyugo::sq::{format_sq, parse_sq, Sq};

#[test]
fn test_sq_construction() {
    let sq = Sq::from_col_row(0, 0).unwrap();
    assert_eq!(sq.raw(), 0);
    assert_eq!(sq.col(), 0);
    assert_eq!(sq.row(), 0);

    let sq = Sq::from_col_row(7, 7).unwrap();
    assert_eq!(sq.raw(), 63);
    assert_eq!(sq.col(), 7);
    assert_eq!(sq.row(), 7);

    let sq = Sq::from_col_row(3, 4).unwrap();
    assert_eq!(sq.col(), 3);
    assert_eq!(sq.row(), 4);
}

#[test]
fn test_sq_out_of_range() {
    assert!(Sq::from_raw(64).is_none());
    assert!(Sq::from_col_row(8, 0).is_none());
    assert!(Sq::from_col_row(0, 8).is_none());
}

#[test]
fn test_algebraic_parse() {
    assert_eq!(parse_sq("a1").unwrap(), Sq::from_col_row(0, 0).unwrap());
    assert_eq!(parse_sq("h8").unwrap(), Sq::from_col_row(7, 7).unwrap());
    assert_eq!(parse_sq("d4").unwrap(), Sq::from_col_row(3, 3).unwrap());
    assert_eq!(parse_sq("e5").unwrap(), Sq::from_col_row(4, 4).unwrap());
}

#[test]
fn test_algebraic_format() {
    assert_eq!(format_sq(Sq::from_col_row(0, 0).unwrap()), "a1");
    assert_eq!(format_sq(Sq::from_col_row(7, 7).unwrap()), "h8");
    assert_eq!(format_sq(Sq::from_col_row(3, 3).unwrap()), "d4");
}

#[test]
fn test_algebraic_roundtrip() {
    for sq in Sq::all() {
        let s = format_sq(sq);
        assert_eq!(parse_sq(&s).unwrap(), sq);
    }
}

#[test]
fn test_parse_errors() {
    assert!(matches!(parse_sq("a"), Err(ParseSqError::BadLen)));
    assert!(matches!(parse_sq("a1b"), Err(ParseSqError::BadLen)));
    assert!(matches!(parse_sq("i1"), Err(ParseSqError::BadCol)));
    assert!(matches!(parse_sq("a0"), Err(ParseSqError::BadRow)));
    assert!(matches!(parse_sq("a9"), Err(ParseSqError::BadRow)));
}

#[test]
fn sq_bit_and_index() {
    let sq = Sq::from_raw(10).unwrap();
    assert_eq!(sq.bit(), 1u64 << 10);
    assert_eq!(sq.col(), 2);
    assert_eq!(sq.row(), 1);
    assert_eq!(Sq::all().len(), 64);
}

#[test]
fn sq_parse_non_ascii() {
    // One two-byte character: two bytes, but not a column letter.
    assert!(matches!(parse_sq("é"), Err(ParseSqError::BadCol)));
    // Two characters, three bytes.
    assert!(matches!(parse_sq("é1"), Err(ParseSqError::BadLen)));
    assert!(matches!(parse_sq(""), Err(ParseSqError::BadLen)));
    assert!(matches!(parse_sq("A1"), Err(ParseSqError::BadCol)));
}
