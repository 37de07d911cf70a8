use migoyugo::itgo::alphabeta::depth_bound;
use migoyugo::itgo::bitboard::{almost_lines, has_line};
use migoyugo::itgo::protocol::{blocking_action, BlockingAction};
use migoyugo::itgo::game::{Game, LOOKBEHIND, STACK_LEN};
use migoyugo::itgo::limits::Limits as SearchLimits;
use migoyugo::itgo::protocol::{
    BlockingCommand, Clock, Eval, Limit, Limits, Mv, ParseMvError, Settings, SettingsPatch, MAX_DEPTH,
};
use migoyugo::itgo::search::{convert_eval, empty, Node, Pv, Zw, DECISIVE, MAX_VALUE};
use migoyugo::itgo::shared::Shared;
use migoyugo::itgo::state::{psqt_migo, psqt_yugo, to_symmetrical, DirectMakeResult};
use migoyugo::itgo::thread::Thread;
use migoyugo::itgo::tt::{Entry, HashKeys, Table, HASH_STM};

fn mvs(names: &[&str]) -> Vec<Mv> {
    names.iter().map(|s| Mv::parse(s).ok().unwrap()).collect()
}

#[test]
fn itgo_mv_construction() {
    assert_eq!(Mv::from_raw(0).unwrap().raw(), 0);
    assert_eq!(Mv::from_raw(63).unwrap().raw(), 63);
    assert!(Mv::from_raw(64).is_none());
    let m = Mv::from_col_row(3, 4).unwrap();
    assert_eq!(m.raw(), 35);
    assert_eq!(m.col(), 3);
    assert_eq!(m.row(), 4);
    assert!(Mv::from_col_row(8, 0).is_none());
    assert!(Mv::from_col_row(0, 8).is_none());
}

#[test]
fn itgo_mv_text() {
    assert_eq!(Mv::parse("a1").ok().unwrap().raw(), 0);
    assert_eq!(Mv::parse("h8").ok().unwrap().raw(), 63);
    assert_eq!(Mv::parse("d5").ok().unwrap().raw(), 35);
    assert!(matches!(Mv::parse("a"), Err(ParseMvError::BadLen)));
    assert!(matches!(Mv::parse("a10"), Err(ParseMvError::BadLen)));
    assert!(matches!(Mv::parse("i1"), Err(ParseMvError::BadCol)));
    assert!(matches!(Mv::parse("a9"), Err(ParseMvError::BadRow)));
    assert!(matches!(Mv::parse("a0"), Err(ParseMvError::BadRow)));
    assert_eq!(Mv::from_raw(35).unwrap().to_text(), "d5");
    assert_eq!(Mv::from_raw(0).unwrap().to_text(), "a1");
    for raw in 0..64u8 {
        let m = Mv::from_raw(raw).unwrap();
        assert_eq!(Mv::parse(&m.to_text()).ok().unwrap(), m);
    }
    assert_eq!(ParseMvError::BadCol.message(), "square column not a-h");
}

#[test]
fn itgo_settings() {
    let mut s = Settings::default();
    assert_eq!(s.blocking_command, BlockingCommand::Warn);
    assert_eq!(s.dyn_mem, 16384);
    assert_eq!(s.tt_len(), 8192);
    s.apply(&SettingsPatch { blocking_command: Some(BlockingCommand::Stop), dyn_mem: None });
    assert_eq!(s.blocking_command, BlockingCommand::Stop);
    assert_eq!(s.dyn_mem, 16384);
    s.apply(&SettingsPatch { blocking_command: None, dyn_mem: Some(100) });
    assert_eq!(s.blocking_command, BlockingCommand::Stop);
    assert_eq!(s.tt_len(), 50);
    assert_eq!(BlockingCommand::default(), BlockingCommand::Warn);
}

#[test]
fn itgo_protocol_limits_default() {
    let l = Limits::default();
    assert_eq!(l.depth, MAX_DEPTH);
    assert_eq!(l.nodes, u64::MAX);
    assert_eq!(l.time, u64::MAX);
    assert!(l.clock.is_none());
    let c = Clock::default();
    assert_eq!((c.left, c.incr), (0, 0));
}

#[test]
fn itgo_search_limits_take_minimum() {
    let l = SearchLimits::new(&[Limit::Depth(10), Limit::Nodes(500), Limit::Depth(20), Limit::Ms(7)]);
    assert_eq!(l.depth, 10);
    assert_eq!(l.nodes, 500);
    assert_eq!(l.ms, 7);
    let l2 = l.and(&[Limit::Nodes(100), Limit::Ms(9)]);
    assert_eq!(l2.nodes, 100);
    assert_eq!(l2.ms, 7);
    assert_eq!(l2.depth, 10);
    let d = SearchLimits::new(&[]);
    assert_eq!(d.depth, 64);
    assert_eq!(d.nodes, u64::MAX);
    assert_eq!(d.ms, u64::MAX);
}

#[test]
fn itgo_thread_countdown() {
    let mut t = Thread::new(100);
    assert_eq!(t.nodes, 0);
    assert!(t.tick_countdown());
    t.nodes = 95;
    t.reset_countdown();
    assert_eq!(t.countdown, 5);
    for _ in 0..4 {
        assert!(!t.tick_countdown());
    }
    assert!(t.tick_countdown());
    let mut big = Thread::new(u64::MAX);
    big.reset_countdown();
    assert_eq!(big.countdown, 8192);
}

#[test]
fn itgo_convert_eval() {
    assert_eq!(convert_eval(0, 100), Eval::Score(100));
    assert_eq!(convert_eval(0, -100), Eval::Score(-100));
    assert_eq!(convert_eval(3, MAX_VALUE - 5), Eval::Decisive(2));
    assert_eq!(convert_eval(3, -(MAX_VALUE - 5)), Eval::Decisive(-2));
    assert_eq!(convert_eval(0, DECISIVE - 1), Eval::Score(DECISIVE - 1));
    assert_eq!(convert_eval(0, DECISIVE), Eval::Decisive(MAX_VALUE - DECISIVE));
}

#[test]
fn itgo_node_kinds() {
    assert!(Pv::pv() && !Pv::zw());
    assert!(Zw::zw() && !Zw::pv());
    assert_eq!(migoyugo::itgo::search::Get::<i32>::get(5i32), Some(5));
    assert_eq!(migoyugo::itgo::search::Get::<i32>::get(empty::<i32>()), None);
}

#[test]
fn itgo_square_tables() {
    let t = to_symmetrical([0, 1, 2, 3, 4, 5, 6, 7, 8, 9]);
    assert_eq!(t[0], 0); // a1
    assert_eq!(t[1], 1); // b1
    assert_eq!(t[8], 1); // a2
    assert_eq!(t[3], 3); // d1
    assert_eq!(t[4], 3); // e1
    assert_eq!(t[9], 4); // b2
    assert_eq!(t[27], 9); // d4
    assert_eq!(t[63], 0); // h8
    assert_eq!(t[62], 1); // g8
    for i in 0..64usize {
        let (r, c) = (i / 8, i % 8);
        assert_eq!(t[i], t[c * 8 + r]);
        assert_eq!(t[i], t[(7 - r) * 8 + c]);
    }
    assert_eq!(psqt_migo(0), 2);
    assert_eq!(psqt_migo(27), 5);
    assert_eq!(psqt_migo(1), 3);
    assert_eq!(psqt_yugo(0), 50);
    assert_eq!(psqt_yugo(27), 70);
    let m = to_symmetrical([2, 3, 4, 6, 6, 7, 9, 12, 11, 5]);
    for i in 0..64u8 {
        assert_eq!(psqt_migo(i), m[i as usize]);
    }
}

#[test]
fn itgo_has_line() {
    assert!(has_line(0b1111));
    assert!(!has_line(0b0111));
    // f1 g1 h1 a2 are not in a row.
    assert!(!has_line((1 << 5) | (1 << 6) | (1 << 7) | (1 << 8)));
    // a1 a2 a3 a4
    assert!(has_line(1 | (1 << 8) | (1 << 16) | (1 << 24)));
    // a1 b2 c3 d4
    assert!(has_line(1 | (1 << 9) | (1 << 18) | (1 << 27)));
    // d1 c2 b3 a4
    assert!(has_line((1 << 3) | (1 << 10) | (1 << 17) | (1 << 24)));
    assert!(!has_line(0));
}

#[test]
fn itgo_almost_lines() {
    let a = almost_lines(0b0111); // a1 b1 c1
    assert_eq!(a.ext_three_b.0, 1 << 3); // d1 after three
    assert_eq!(a.any_line.0, 1 << 3);
    assert_eq!(a.any_line.2, 0);
    let b = almost_lines(0b1011); // a1 b1 d1
    assert_eq!(b.two_one_b.0, 1 << 2); // c1 fills the gap
}

#[test]
fn itgo_game_play_and_undo() {
    let mut g = Game::new();
    assert_eq!(g.index, LOOKBEHIND);
    assert_eq!(g.stack.len(), STACK_LEN);
    assert_eq!(g.play(&mvs(&["d4", "e5"]), false), Ok(()));
    assert_eq!(g.index, 3);
    assert_eq!(g.stack[2].opp_migo, 1 << 27);
    assert_eq!(g.stack[3].opp_migo, 1 << 36);
    assert_eq!(g.stack[2].ply, 1);
    assert_eq!(g.undo(1), Ok(()));
    assert_eq!(g.index, 2);
    assert_eq!(g.undo(5), Err("Requested too many moves to undo, cancelling"));
    assert_eq!(g.index, 2);
    assert_eq!(g.play(&mvs(&["a1"]), true), Ok(()));
    assert_eq!(g.index, 2);
    assert_eq!(g.stack[2].opp_migo, 1);
    g.undo_all();
    assert_eq!(g.index, LOOKBEHIND);
}

#[test]
fn itgo_game_refuses_illegal_sequences() {
    let mut g = Game::new();
    assert_eq!(g.play(&mvs(&["d4", "e5"]), false), Ok(()));
    assert_eq!(g.play(&mvs(&["a1", "d4"]), false), Err("Sequence contains illegal move(s), cancelling"));
    assert_eq!(g.index, 3);
}

#[test]
fn itgo_game_forms_yugo() {
    let mut g = Game::new();
    let line = mvs(&["a1", "a8", "b1", "b8", "c1", "c8", "d1"]);
    assert_eq!(g.play(&line, false), Ok(()));
    assert_eq!(g.index, 8);
    let f = g.stack[8];
    assert_eq!(f.opp_yugo, 1 << 3);
    assert_eq!(f.opp_migo, 0);
    assert_eq!(f.score, -1);
    // The value of a yugo on d1 (an edge square) from the mover's side, turned.
    let before = g.stack[7].psqt_value;
    assert_eq!(f.psqt_value, -(before + psqt_yugo(3) - psqt_migo(0) - psqt_migo(1) - psqt_migo(2)));
    assert_eq!(f.hash, g.stack[8].hash);
}

#[test]
fn itgo_game_refuses_overline() {
    let mut g = Game::new();
    let seq = mvs(&["a1", "a8", "b1", "b8", "c1", "h5", "e1", "h6"]);
    assert_eq!(g.play(&seq, false), Ok(()));
    assert_eq!(g.play(&mvs(&["d1"]), false), Err("Sequence contains illegal move(s), cancelling"));
    assert_eq!(g.stack[g.index - 1].opp_too_long & (1 << 3), 1 << 3);
}

#[test]
fn itgo_game_sync_and_reset() {
    let mut a = Game::new();
    a.play(&mvs(&["d4", "e5", "c3"]), false).unwrap();
    let mut b = Game::new();
    b.sync_with(&a);
    assert_eq!(b.index, a.index);
    assert_eq!(b.stack[b.index].opp_migo, a.stack[a.index].opp_migo);
    assert_eq!(b.stack[b.index - 1].opp_migo, a.stack[a.index - 1].opp_migo);
    assert_eq!(b.stack[b.index].hash, a.stack[a.index].hash);
    b.stack[5].killers = [9, 9];
    b.searcher_reset();
    assert_eq!(b.stack[5].killers, [0, 1]);
}

#[test]
fn itgo_hash_keys_are_drawn() {
    let k1 = HashKeys::new();
    let k2 = HashKeys::new();
    let mut nonzero = 0;
    for side in 0..2u8 {
        for sq in 0..64u8 {
            assert_eq!(k1.key(side, false, sq), k2.key(side, false, sq));
            if k1.key(side, true, sq) != 0 {
                nonzero += 1;
            }
        }
    }
    assert!(nonzero > 100);
    assert_ne!(k1.key(0, false, 0), k1.key(1, false, 0));
    // A game's hash changes with each move and differs by who placed the piece.
    let mut g = Game::new();
    g.play(&mvs(&["a1"]), false).unwrap();
    assert_eq!(g.stack[2].hash, k1.key(0, false, 0) ^ HASH_STM);
}

#[test]
fn itgo_table() {
    let mut t = Table::new(16);
    assert_eq!(t.raw.len(), 16);
    assert_eq!(t.to_index(0), 0);
    assert_eq!(t.to_index(u64::MAX), 15);
    assert_eq!(t.to_index(1 << 63), 8);
    t.store(1 << 63, 12, 34);
    assert_eq!(t.get(1 << 63), Entry { mv: 12, sig: 34 });
    assert_eq!(t.get(0), Entry::new());
    t.clear();
    assert_eq!(t.raw.len(), 16);
    assert_eq!(t.get(1 << 63), Entry::default());
    t.resize(4);
    assert_eq!(t.raw.len(), 4);
}

#[test]
fn itgo_shared() {
    let mut s = Shared::new(8);
    assert!(!s.active());
    s.set_active(true);
    assert!(s.active());
    let mut l = Limits::default();
    l.clock = Some(Clock { left: 60_000, incr: 0 });
    s.go(5, l, 1234);
    assert_eq!(s.started_at, 5);
    assert_eq!(s.limits.time, 1234);
    s.go(6, Limits::default(), 1234);
    assert_eq!(s.limits.time, u64::MAX);
    s.game.play(&mvs(&["a1"]), false).unwrap();
    s.tt.store(0, 1, 1);
    s.reset();
    assert_eq!(s.game.index, LOOKBEHIND);
    assert_eq!(s.tt.get(0), Entry::new());
}

#[test]
fn itgo_direct_make_results() {
    assert_ne!(DirectMakeResult::Made, DirectMakeResult::Illegal);
}

#[test]
fn itgo_game_undo_returns_to_frame() {
    let mut g = Game::new();
    assert_eq!(g.play(&mvs(&["d4", "e5"]), false), Ok(()));
    let index = g.index;
    let frame = g.stack[index];
    let below = g.stack[index - 1];
    assert_eq!(g.play(&mvs(&["a1", "h8", "c3"]), false), Ok(()));
    assert_eq!(g.index, index + 3);
    assert_eq!(g.undo(3), Ok(()));
    assert_eq!(g.index, index);
    for (now, before) in [(g.stack[index], frame), (g.stack[index - 1], below)] {
        assert_eq!(now.opp_migo, before.opp_migo);
        assert_eq!(now.opp_yugo, before.opp_yugo);
        assert_eq!(now.score, before.score);
        assert_eq!(now.psqt_value, before.psqt_value);
        assert_eq!(now.hash, before.hash);
        assert_eq!(now.ply, before.ply);
    }
}

#[test]
fn itgo_game_refused_replay_keeps_game() {
    let mut g = Game::new();
    assert_eq!(g.play(&mvs(&["d4", "e5"]), false), Ok(()));
    let before: Vec<(u64, u64, i32)> = g.stack[..4].iter().map(|f| (f.opp_migo, f.opp_yugo, f.score)).collect();
    assert_eq!(g.play(&mvs(&["a1", "a1"]), true), Err("Sequence contains illegal move(s), cancelling"));
    assert_eq!(g.index, 3);
    let after: Vec<(u64, u64, i32)> = g.stack[..4].iter().map(|f| (f.opp_migo, f.opp_yugo, f.score)).collect();
    assert_eq!(before, after);
}

#[test]
fn itgo_countdown_run() {
    let mut t = Thread::new(100);
    assert!(t.tick_countdown());
    t.nodes = 95;
    t.reset_countdown();
    for _ in 0..4 {
        assert!(!t.tick_countdown());
    }
    assert!(t.tick_countdown());
    t.nodes = 0;
    t.node_limit = 1_000_000;
    t.reset_countdown();
    for _ in 0..8191 {
        assert!(!t.tick_countdown());
    }
    assert!(t.tick_countdown());
}

#[test]
fn itgo_blocking_and_depth_bound() {
    assert_eq!(blocking_action(false, BlockingCommand::Stop), BlockingAction::Proceed);
    assert_eq!(blocking_action(true, BlockingCommand::Warn), BlockingAction::Warn);
    assert_eq!(blocking_action(true, BlockingCommand::Allow), BlockingAction::Proceed);
    assert_eq!(blocking_action(true, BlockingCommand::Stop), BlockingAction::Stop);
    assert_eq!(depth_bound(5, LOOKBEHIND), 5);
    assert_eq!(depth_bound(200, LOOKBEHIND), MAX_DEPTH);
    assert_eq!(depth_bound(200, STACK_LEN - 11), 10);
}
