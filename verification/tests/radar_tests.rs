use readonly::radar::{in_game, ProcessWait, RadarState, WaitAction};

#[test]
fn waiting_announces_once() {
    let mut w = ProcessWait::new();
    assert!(matches!(w.poll(false), WaitAction::Retry { announce: true }));
    assert!(matches!(w.poll(false), WaitAction::Retry { announce: false }));
    assert!(matches!(w.poll(false), WaitAction::Retry { announce: false }));
    assert!(matches!(w.poll(true), WaitAction::Found));
}

#[test]
fn found_at_first_look() {
    let mut w = ProcessWait::new();
    assert!(matches!(w.poll(true), WaitAction::Found));
}

#[test]
fn in_game_state() {
    assert!(in_game(6));
    assert!(!in_game(5));
    assert!(!in_game(0));
}

#[test]
fn map_sent_on_change_and_every_thousand_rounds() {
    let mut r = RadarState::new();
    // round 0 is a multiple of the period, and the map is new
    assert!(r.observe_map("de_dust2".to_string()));
    r.end_round();
    assert!(!r.observe_map("de_dust2".to_string()));
    r.end_round();
    assert!(r.observe_map("de_inferno".to_string()));
    assert_eq!(r.last_map.as_deref(), Some("de_inferno"));
    for _ in 2..999 {
        r.end_round();
    }
    assert_eq!(r.round, 999);
    assert!(!r.observe_map("de_inferno".to_string()));
    r.end_round();
    assert_eq!(r.round, 1000);
    assert!(r.observe_map("de_inferno".to_string()));
}

#[test]
fn round_counter_wraps() {
    let mut r = RadarState { last_map: None, round: u64::MAX };
    r.end_round();
    assert_eq!(r.round, 0);
}
