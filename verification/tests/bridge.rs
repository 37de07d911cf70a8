use std::collections::VecDeque;

use migoyugo::bridge::config::{
    interpret_config, parse_config_text, ConfigChild, ConfigEntry, ConfigError, ConfigNode, ConfigValue,
};
use migoyugo::bridge::session::Session;
use migoyugo::bridge::controller::{
    average_latency, challenge_decision, go_command, rematch_decision, site_coords, site_square,
    AcceptRule, ChallengeDecision,
};

fn rule(time: u64, incr: i64) -> AcceptRule {
    AcceptRule { time, incr, engine_cmd: "itgo".to_string(), engine_args: vec![], engine_set: None }
}

#[test]
fn bridge_average_latency() {
    assert_eq!(average_latency(&VecDeque::new()), 500);
    assert_eq!(average_latency(&VecDeque::from(vec![100, 200])), 150);
    assert_eq!(average_latency(&VecDeque::from(vec![10, 20, 31])), 20);
}

#[test]
fn bridge_go_command() {
    let g = go_command(10_000, 2_000, 100);
    assert_eq!(g.clock_left, Some(7_900));
    assert_eq!(g.clock_incr, Some(1_900));
    assert_eq!(g.depth, None);
    assert_eq!(g.time, None);
    let g = go_command(1_000, 0, 500);
    assert_eq!(g.clock_left, Some(0));
    assert_eq!(g.clock_incr, Some(-500));
}

#[test]
fn bridge_challenges() {
    let rules = vec![rule(300, 0), rule(180, 2)];
    assert_eq!(challenge_decision(true, false, &rules, 5, 0), ChallengeDecision::DeclineShuttingDown);
    assert_eq!(challenge_decision(false, true, &rules, 5, 0), ChallengeDecision::DeclineBusy);
    assert_eq!(challenge_decision(false, false, &rules, 5, 0), ChallengeDecision::Accept { rule: 0 });
    assert_eq!(challenge_decision(false, false, &rules, 3, 2), ChallengeDecision::Accept { rule: 1 });
    assert_eq!(challenge_decision(false, false, &rules, 3, 0), ChallengeDecision::DeclineNoRule);
    assert!(rematch_decision(false, true, false));
    assert!(!rematch_decision(true, true, false));
    assert!(!rematch_decision(false, false, false));
    assert!(!rematch_decision(false, true, true));
}

#[test]
fn bridge_squares() {
    assert_eq!(site_square(7, 0), "a1");
    assert_eq!(site_square(0, 7), "h8");
    assert_eq!(site_coords(&"a1".chars().collect()), Some((7, 0)));
    assert_eq!(site_coords(&"h8".chars().collect()), Some((0, 7)));
    assert_eq!(site_coords(&"z9".chars().collect()), None);
    assert_eq!(site_coords(&"a".chars().collect()), None);
}

fn s(v: &str) -> ConfigValue {
    ConfigValue::Str(v.to_string())
}

fn arg(v: ConfigValue) -> ConfigEntry {
    ConfigEntry { name: None, value: v }
}

fn prop(name: &str, v: ConfigValue) -> ConfigEntry {
    ConfigEntry { name: Some(name.to_string()), value: v }
}

fn child(name: &str, entries: Vec<ConfigEntry>) -> ConfigChild {
    ConfigChild { name: name.to_string(), entries }
}

fn accept(entries: Vec<ConfigEntry>, children: Option<Vec<ConfigChild>>) -> ConfigNode {
    ConfigNode { name: "accept".to_string(), entries, children }
}

#[test]
fn bridge_config_rules() {
    let nodes = vec![
        ConfigNode { name: "comment".to_string(), entries: vec![], children: None },
        accept(
            vec![prop("time", ConfigValue::Int(60)), prop("incr", ConfigValue::Int(-1))],
            Some(vec![
                child("engine", vec![arg(s("itgo")), arg(s("--fast")), arg(ConfigValue::Int(3)), arg(s("-q"))]),
                child("set", vec![arg(s("{\"dyn_mem\": 4096}"))]),
                child("other", vec![arg(s("ignored"))]),
            ]),
        ),
        accept(
            vec![prop("time", ConfigValue::Int(1)), prop("incr", ConfigValue::Int(0)), prop("time", ConfigValue::Int(300))],
            Some(vec![child("engine", vec![arg(s("a"))]), child("engine", vec![arg(ConfigValue::Other), arg(s("b"))])]),
        ),
    ];
    let config = interpret_config(&nodes).ok().unwrap();
    assert_eq!(config.accept_rules.len(), 2);
    let r = &config.accept_rules[0];
    assert_eq!((r.time, r.incr), (60, -1));
    assert_eq!(r.engine_cmd, "itgo");
    assert_eq!(r.engine_args, vec!["--fast".to_string(), "-q".to_string()]);
    assert_eq!(r.engine_set.as_deref(), Some("{\"dyn_mem\": 4096}"));
    // The last `time` property counts; a later `engine` child without a command keeps the first
    // one's, and adds its arguments.
    let r = &config.accept_rules[1];
    assert_eq!((r.time, r.incr), (300, 0));
    assert_eq!(r.engine_cmd, "a");
    assert_eq!(r.engine_args, vec!["b".to_string()]);
    assert_eq!(r.engine_set, None);
}

#[test]
fn bridge_config_errors() {
    let engine = || Some(vec![child("engine", vec![arg(s("itgo"))])]);
    let no_time = vec![accept(vec![prop("incr", ConfigValue::Int(0))], engine())];
    assert_eq!(interpret_config(&no_time).err(), Some(ConfigError::Time));
    let bad_time = vec![accept(vec![prop("time", s("60")), prop("incr", ConfigValue::Int(0))], engine())];
    assert_eq!(interpret_config(&bad_time).err(), Some(ConfigError::Time));
    let no_incr = vec![accept(vec![prop("time", ConfigValue::Int(60))], engine())];
    assert_eq!(interpret_config(&no_incr).err(), Some(ConfigError::Incr));
    let no_engine = vec![accept(vec![prop("time", ConfigValue::Int(60)), prop("incr", ConfigValue::Int(0))], None)];
    assert_eq!(interpret_config(&no_engine).err(), Some(ConfigError::Engine));
    let bad_set = vec![accept(
        vec![prop("time", ConfigValue::Int(60)), prop("incr", ConfigValue::Int(0))],
        Some(vec![child("engine", vec![arg(s("itgo"))]), child("set", vec![arg(s("{oops"))])]),
    )];
    let e = interpret_config(&bad_set).err().unwrap();
    assert_eq!(e, ConfigError::SetJson("{oops".to_string()));
    assert_eq!(e.message(), "Failed to parse 'set' json payload: {oops");
    assert_eq!(ConfigError::Engine.message(), "Missing 'engine' block in 'accept' node");
    // Time and increment wrap into their fields' widths.
    let wide = vec![accept(
        vec![prop("time", ConfigValue::Int((1i128 << 64) + 5)), prop("incr", ConfigValue::Int(-(1i128 << 64) - 2))],
        engine(),
    )];
    let r = &interpret_config(&wide).ok().unwrap().accept_rules[0];
    assert_eq!((r.time, r.incr), (5, -2));
}

#[test]
fn bridge_session_game_flow() {
    let mut sess = Session::new(vec![rule(300, 5), rule(60, 0)]);
    assert!(!sess.should_exit());
    // A challenge of one minute and no increment matches the second rule.
    assert_eq!(sess.on_challenge(1, 0), ChallengeDecision::Accept { rule: 1 });
    assert_eq!(sess.on_challenge(2, 0), ChallengeDecision::DeclineNoRule);
    sess.on_challenge_accepted(77, 1, 1, 0);
    assert_eq!(sess.on_challenge(1, 0), ChallengeDecision::DeclineBusy);
    {
        let g = sess.active_game.as_ref().unwrap();
        assert_eq!(g.pending_challenge_id, Some(77));
        assert_eq!(g.matched_time_ms, 60_000);
        assert_eq!(g.matched_incr_ms, 0);
        assert_eq!(g.rule.time, 60);
        assert_eq!(g.game_id, "");
    }
    assert!(sess.on_game_start("g1".to_string(), "white".to_string()));
    // White moves first once the engine is ready: the whole clock less buffer and latency.
    let go = sess.on_engine_ready().unwrap();
    assert_eq!(go.clock_left, Some(60_000 - 2_000 - 500));
    assert_eq!(go.clock_incr, Some(-500));
    let best = sess.on_engine_best(&vec!['d', '4']).unwrap();
    assert_eq!((best.game_id.as_str(), best.row, best.col), ("g1", 4, 3));
    assert_eq!(sess.active_game.as_ref().unwrap().moves_played, 1);
    assert!(sess.on_engine_ready().is_none());
    assert!(sess.on_engine_best(&vec!['d']).is_none());
    // The opponent's move: the engine is told, and searches since it is our turn.
    let a = sess.on_move_update(3, 4, &"white".to_string(), false, 50, 58).unwrap();
    assert_eq!(a.play, "e5");
    assert_eq!(a.go.unwrap().clock_left, Some(50_000 - 2_000 - 500));
    // Our own move echoed back: the engine is told, no search.
    let a = sess.on_move_update(4, 3, &"black".to_string(), false, 50, 58).unwrap();
    assert_eq!(a.play, "d4");
    assert!(a.go.is_none());
    assert!(sess.on_move_update(4, 3, &"white".to_string(), true, 50, 58).is_none());
    // Another game ending leaves ours alone.
    sess.on_game_end(&"other".to_string());
    assert!(sess.active_game.is_some());
    assert!(!sess.on_rematch_requested());
    sess.on_game_end(&"g1".to_string());
    assert!(sess.active_game.is_none());
    assert!(sess.on_rematch_requested());
    let last = sess.on_rematch_accepted().unwrap();
    assert_eq!(last.matched_time_ms, 60_000);
    assert!(sess.last_game.is_none());
    sess.start_rematch("g2".to_string(), "black".to_string(), last);
    let g = sess.active_game.as_ref().unwrap();
    assert_eq!((g.game_id.as_str(), g.my_color.as_str(), g.moves_played), ("g2", "black", 0));
    assert!(sess.on_engine_ready().is_none());
}

#[test]
fn bridge_session_latency_and_shutdown() {
    let mut sess = Session::new(vec![rule(60, 0)]);
    assert_eq!(sess.average_latency(), 500);
    sess.on_pong(1_000);
    assert!(sess.latency_samples.is_empty());
    for k in 0..12u64 {
        sess.on_ping_sent(1_000 * k);
        sess.on_pong(1_000 * k + 10 * k);
    }
    // Only the newest ten samples are kept: 20, 30, ..., 110.
    assert_eq!(sess.latency_samples.len(), 10);
    assert_eq!(sess.latency_samples[0], 20);
    assert_eq!(sess.average_latency(), 65);
    sess.on_ping_sent(5_000);
    sess.on_pong(4_000);
    assert_eq!(sess.latency_samples[9], 0);
    sess.on_ctrl_c();
    assert!(sess.should_exit());
    assert_eq!(sess.on_challenge(1, 0), ChallengeDecision::DeclineShuttingDown);
    sess.on_config_reloaded(vec![rule(180, 2)]);
    assert_eq!(sess.rules[0].time, 180);
}

#[test]
fn bridge_config_text() {
    let text = "accept time=60 incr=1 {\n    engine \"itgo\" \"--fast\"\n    set \"{\\\"dyn_mem\\\": 4096}\"\n}\nother 1\n";
    let cfg = parse_config_text(text).unwrap().ok().unwrap();
    assert_eq!(cfg.accept_rules.len(), 1);
    let r = &cfg.accept_rules[0];
    assert_eq!((r.time, r.incr), (60, 1));
    assert_eq!(r.engine_cmd, "itgo");
    assert_eq!(r.engine_args, vec!["--fast".to_string()]);
    assert_eq!(r.engine_set.as_deref(), Some("{\"dyn_mem\": 4096}"));
    assert!(parse_config_text("accept time=60 {").is_none());
    assert_eq!(parse_config_text("accept incr=0 { engine \"a\" }").unwrap().err(), Some(ConfigError::Time));
}

#[test]
fn bridge_session_best_move_bytes() {
    let mut sess = Session::new(vec![rule(60, 0)]);
    sess.on_challenge_accepted(1, 0, 1, 0);
    assert!(sess.on_game_start("g".to_string(), "black".to_string()));
    // A column past `h` is passed on as it is.
    let m = sess.on_engine_best(&vec!['k', '1']).unwrap();
    assert_eq!((m.row, m.col), (7, 10));
    let m = sess.on_engine_best(&vec!['a', '0']).unwrap();
    assert_eq!((m.row, m.col), (8, 0));
}
