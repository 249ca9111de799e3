use lotus_racer::standings::{FinishStep, Standings, PLAYER_ID};

fn ids(s: &Standings) -> Vec<usize> {
    (0..s.len()).map(|i| s.get(i)).collect()
}

#[test]
fn record_keeps_first_place_only() {
    let mut s = Standings::new();
    s.record(2);
    s.record(1);
    s.record(2);
    assert_eq!(ids(&s), vec![2, 1]);
    assert!(s.contains(1) && !s.contains(3));
    s.record_all(&[3, 1, 0, 3]);
    assert_eq!(ids(&s), vec![2, 1, 3, 0]);
}

#[test]
fn race_ends_when_everyone_is_in() {
    let mut s = Standings::new();
    // Two opponents finish, the player is still racing.
    let r = s.finish_step(false, &[2, 1], &[3], false, false);
    assert_eq!(r, FinishStep { player_finished: false, over: false });
    assert_eq!(ids(&s), vec![2, 1]);
    // The player finishes; one opponent still runs.
    let r = s.finish_step(true, &[2, 1], &[3], false, false);
    assert_eq!(r, FinishStep { player_finished: true, over: false });
    assert_eq!(ids(&s), vec![2, 1, PLAYER_ID]);
    // Next step the player is already in: no second entry.
    let r = s.finish_step(true, &[2, 1], &[3], false, false);
    assert!(!r.player_finished && !r.over);
    // The last opponent finishes: the race is over.
    let r = s.finish_step(true, &[2, 1, 3], &[], true, false);
    assert_eq!(r, FinishStep { player_finished: false, over: true });
    assert_eq!(ids(&s), vec![2, 1, 0, 3]);
}

#[test]
fn cap_places_cars_still_running_last() {
    let mut s = Standings::new();
    s.finish_step(false, &[1], &[2, 3], false, false);
    let r = s.finish_step(false, &[1], &[2, 3], false, true);
    assert!(r.over);
    assert_eq!(ids(&s), vec![1, 2, 3]);
}

#[test]
fn nothing_ends_before_anybody_finishes() {
    let mut s = Standings::new();
    let r = s.finish_step(false, &[], &[1, 2, 3], true, true);
    assert_eq!(r, FinishStep { player_finished: false, over: false });
    assert_eq!(s.len(), 0);
}
