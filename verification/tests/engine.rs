use migoyugo::engine::protocol::{Mv, ParseMvError};
use migoyugo::engine::state::{apply, make, Frame, Global, MakeData, MakeResult, Position, PositionError, Thread};

fn frame(migo: u64, yugo: u64, score: i32) -> Frame {
    Frame { opp_migo: migo, opp_yugo: yugo, score, ply: 0 }
}

#[test]
fn engine_mv_text() {
    assert!(Mv::new(64).is_none());
    assert_eq!(Mv::new(27).unwrap().raw(), 27);
    assert_eq!(Mv::parse("d4").ok().unwrap().raw(), 27);
    assert_eq!(Mv::parse("h8").ok().unwrap().raw(), 63);
    assert_eq!(Mv::new(0).unwrap().to_text(), "a1");
    assert_eq!(Mv::new(36).unwrap().to_text(), "e5");
    assert!(matches!(Mv::parse("d"), Err(ParseMvError::BadLen)));
    assert!(matches!(Mv::parse("z4"), Err(ParseMvError::BadCol)));
    assert!(matches!(Mv::parse("d0"), Err(ParseMvError::BadRow)));
    assert_eq!(ParseMvError::BadRow.message(), "square row not 1-8");
    for raw in 0..64u8 {
        let m = Mv::new(raw).unwrap();
        assert_eq!(Mv::parse(&m.to_text()).ok().unwrap(), m);
    }
}

#[test]
fn engine_make_plain_move() {
    let r = make(&frame(0, 0, 0), &frame(0, 0, 5), 27);
    assert_eq!(r, MakeResult::Made(MakeData { migo: 1 << 27, yugo: 0, score: -5 }));
    // Three migos in a row with a gap keep being plain migos.
    let r = make(&frame(0b1011, 0, 0), &frame(0, 0, 0), 5);
    assert_eq!(r, MakeResult::Made(MakeData { migo: 0b10_1011, yugo: 0, score: 0 }));
}

#[test]
fn engine_make_lines() {
    // A fifth piece in a row is illegal.
    assert_eq!(make(&frame(0b11011, 0, 0), &frame(0, 0, 0), 2), MakeResult::Illegal);
    // Four in a row with migos among them ends the game.
    assert_eq!(make(&frame(0b0111, 0, 0), &frame(0, 0, 0), 3), MakeResult::Igo);
    // Four in a row whose other pieces are yugos: the new piece is a yugo too.
    let r = make(&frame(0, 0b0111, 0), &frame(0, 0, 2), 3);
    assert_eq!(r, MakeResult::Made(MakeData { migo: 0, yugo: 0b1111, score: -2 }));
}

#[test]
fn engine_apply_and_position() {
    let mut f = Frame { opp_migo: 1, opp_yugo: 2, score: 3, ply: 7 };
    apply(&mut f, MakeData { migo: 8, yugo: 16, score: -4 });
    assert_eq!(f, Frame { opp_migo: 8, opp_yugo: 16, score: -4, ply: 7 });
    let p = Position::default();
    assert_eq!(p.stack.len(), 417);
    assert_eq!(p.index, 1);
    assert!(!p.unplayable);
    assert_eq!(p.stack[0].ply, -1);
    assert_eq!(p.stack[416].ply, 415);
    assert_eq!(p.stack[5], Frame { opp_migo: 0, opp_yugo: 0, score: 0, ply: 4 });
}

#[test]
fn engine_thread_and_clock() {
    let mut t = Thread::new(100);
    assert_eq!(t.countdown, 0);
    assert!(t.tick_countdown());
    assert_eq!(t.countdown, u32::MAX);
    assert!(!t.tick_countdown());
    t.reset_countdown();
    assert_eq!(t.countdown, 100);
    t.node_limit = 100_000;
    t.nodes = 10;
    t.reset_countdown();
    assert_eq!(t.countdown, 8192);
    let g = Global { started_at: 1000, stop: false, limits: Vec::new() };
    assert_eq!(g.elapsed(1500), 500);
    assert_eq!(g.elapsed(900), 0);
}

#[test]
fn engine_position_requests() {
    let mut pos = Position::default();
    assert_eq!(pos.undo(1), Err(PositionError::TooManyUndos));
    assert_eq!(pos.index, 1);
    assert_eq!(pos.undo(0), Ok(()));
    let d4 = Mv::parse("d4").ok().unwrap();
    let e4 = Mv::parse("e4").ok().unwrap();
    assert_eq!(pos.play(&[d4, e4]), Ok(()));
    assert_eq!(pos.index, 3);
    assert_eq!(pos.stack[2].opp_migo, 1u64 << 27);
    assert_eq!(pos.stack[3].opp_migo, 1u64 << 28);
    assert_eq!(pos.stack[3].ply, 2);
    assert_eq!(pos.searchable(), Ok(()));
    assert_eq!(pos.undo(2), Ok(()));
    assert_eq!(pos.index, 1);
    pos.unplayable = true;
    assert_eq!(pos.play(&[d4]), Err(PositionError::Unplayable));
    assert_eq!(pos.searchable(), Err(PositionError::Unsearchable));
    assert_eq!(pos.undo(0), Ok(()));
    assert!(pos.unplayable);
    assert_eq!(PositionError::TooManyUndos.message(), "Too many undos");
    assert_eq!(PositionError::Unplayable.message(), "Cannot play on this game state");
    assert_eq!(PositionError::Unsearchable.message(), "Cannot search this game state");
}

#[test]
fn engine_countdown_run() {
    let mut t = Thread::new(100);
    assert!(t.tick_countdown());
    t.nodes = 97;
    t.reset_countdown();
    for _ in 0..3 {
        assert!(!t.tick_countdown());
    }
    assert!(t.tick_countdown());
}
