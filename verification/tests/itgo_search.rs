use migoyugo::itgo::alphabeta::{depth_report, pv_moves, search};
use migoyugo::itgo::game::Game;
use migoyugo::itgo::protocol::{EngineMsg, Eval, Mv};
use migoyugo::itgo::state::{apply, gen_mv, make_migo, make_yugo, Frame};
use migoyugo::itgo::thread::Thread;
use migoyugo::itgo::tt::{HashKeys, Table};

fn mvs(names: &[&str]) -> Vec<Mv> {
    names.iter().map(|s| Mv::parse(s).ok().unwrap()).collect()
}

/// Plain negamax over the same frames, for comparison.
fn brute(stack: &mut Vec<Frame>, keys: &HashKeys, index: usize, depth: u32) -> i32 {
    let prev = stack[index - 1];
    let cur = stack[index];
    let g = gen_mv(&prev, &cur);
    if prev.opp_makes_igo & g.playable != 0 {
        return 0x7FFF - (cur.ply + 1);
    }
    if g.playable == 0 {
        return if cur.score > 0 {
            0x7FFF - cur.ply
        } else if cur.score == 0 {
            0
        } else {
            cur.ply - 0x7FFF
        };
    }
    let mut best = -i32::MAX;
    for mv in 0..64u8 {
        if g.playable & (1u64 << mv) == 0 {
            continue;
        }
        let d = if g.makes_yugo & (1u64 << mv) != 0 {
            make_yugo(&prev, &cur, keys, mv)
        } else {
            make_migo(&prev, &cur, keys, mv)
        };
        let v = if depth <= 1 {
            d.score * 20 + d.psqt_value
        } else {
            let mut next = stack[index + 1];
            apply(&mut next, d, true);
            stack[index + 1] = next;
            -brute(stack, keys, index + 1, depth - 1)
        };
        best = best.max(v);
    }
    best
}

fn searched(game: &Game, depth: u32, pv: bool, alpha: i32, beta: i32) -> (i32, Frame) {
    let mut stack = game.stack.clone();
    let mut tt = Table::new(64);
    let mut hist = [[0i8; 64]; 2];
    let mut thread = Thread::new(u64::MAX);
    let r = search(pv, &game.keys, &mut tt, &mut hist, &mut thread, &|| false, &mut stack, game.index, depth, alpha, beta);
    (r.ok().unwrap(), stack[game.index])
}

#[test]
fn search_matches_negamax() {
    let mut game = Game::new();
    game.play(&mvs(&["d4", "e5", "d5", "e4", "c3"]), false).unwrap();
    for depth in 1..=3u32 {
        let mut stack = game.stack.clone();
        let expected = brute(&mut stack, &game.keys, game.index, depth);
        let (v, f) = searched(&game, depth, true, -i32::MAX, i32::MAX);
        assert_eq!(v, expected, "depth {depth}");
        assert!(f.pv_len >= 1);
        // The zero-window search tells which side of a value the position is on.
        let (hi, _) = searched(&game, depth, false, expected - 1, expected);
        assert!(hi >= expected);
        let (lo, _) = searched(&game, depth, false, expected, expected + 1);
        assert!(lo <= expected);
    }
}

#[test]
fn search_finds_line_completion() {
    // White can complete a line of four on d1 or h... : the search prefers completing it.
    let mut game = Game::new();
    game.play(&mvs(&["a1", "a8", "b1", "b8", "c1", "h5"]), false).unwrap();
    let (v, f) = searched(&game, 1, true, -i32::MAX, i32::MAX);
    let mut stack = game.stack.clone();
    assert_eq!(v, brute(&mut stack, &game.keys, game.index, 1));
    assert_eq!(f.pv[0], 3); // d1
}

#[test]
fn search_stops_on_request() {
    let mut game = Game::new();
    game.play(&mvs(&["d4"]), false).unwrap();
    let mut stack = game.stack.clone();
    let mut tt = Table::new(64);
    let mut hist = [[0i8; 64]; 2];
    let mut thread = Thread::new(u64::MAX);
    let r = search(true, &game.keys, &mut tt, &mut hist, &mut thread, &|| true, &mut stack, game.index, 2, -i32::MAX, i32::MAX);
    assert!(r.is_err());
    let mut thread = Thread::new(0);
    let r = search(true, &game.keys, &mut tt, &mut hist, &mut thread, &|| false, &mut stack, game.index, 2, -i32::MAX, i32::MAX);
    assert!(r.is_err());
}

#[test]
fn search_report() {
    let mut game = Game::new();
    game.play(&mvs(&["d4", "e5"]), false).unwrap();
    let (v, f) = searched(&game, 2, true, -i32::MAX, i32::MAX);
    let pv = pv_moves(&f);
    assert_eq!(pv.len(), f.pv_len);
    let mut thread = Thread::new(100);
    thread.nodes = 50;
    thread.evals = 10;
    let (best, msg, deeper) = depth_report(&f, v, 2, 2_000_000, &thread);
    assert_eq!(best.unwrap().raw(), f.pv[0]);
    assert!(deeper);
    match msg {
        EngineMsg::Info { eval, depth, time, nodes, knps, evals, keps, .. } => {
            assert_eq!(eval, Eval::Score(v));
            assert_eq!(depth, 2);
            assert_eq!(time, 2);
            assert_eq!(nodes, 50);
            assert_eq!(knps, 25);
            assert_eq!(evals, 10);
            assert_eq!(keps, 5);
        }
        _ => panic!("expected an info message"),
    }
    let mut empty_line = f;
    empty_line.pv_len = 0;
    let (best, _, _) = depth_report(&empty_line, v, 2, 2_000_000, &thread);
    assert!(best.is_none());
}
