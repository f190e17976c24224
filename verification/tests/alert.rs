use ragequiet::alert::AlertGate;

#[test]
fn does_not_fire_before_hold_time() {
    let mut g = AlertGate::new(300, 3000);
    assert!(!g.update(true, 0));
    assert!(!g.update(true, 100));
    assert!(!g.update(true, 299));
}

#[test]
fn fires_after_hold_time() {
    let mut g = AlertGate::new(300, 3000);
    assert!(!g.update(true, 0));
    assert!(g.update(true, 300));
}

#[test]
fn a_dip_resets_the_hold() {
    let mut g = AlertGate::new(300, 3000);
    assert!(!g.update(true, 0));
    assert!(!g.update(false, 200)); // dropped under threshold
    assert!(!g.update(true, 250)); // hold restarts here
    assert!(!g.update(true, 500));
    assert!(g.update(true, 550));
}

#[test]
fn cooldown_blocks_refire() {
    let mut g = AlertGate::new(300, 3000);
    g.update(true, 0);
    assert!(g.update(true, 300));
    assert!(!g.update(true, 700)); // still over, but cooling down
    assert!(!g.update(true, 3200)); // cooldown ends at 3300
    assert!(g.update(true, 3600)); // over continuously since 3300 for 300ms
}

#[test]
fn a_hold_that_starts_in_the_cooldown_counts_from_its_end() {
    let mut g = AlertGate::new(300, 3000);
    g.update(true, 0);
    assert!(g.update(true, 300));
    assert!(!g.update(false, 400));
    assert!(!g.update(true, 1000));
    assert_eq!(g.over_since, Some(3300));
    assert!(!g.update(true, 3599));
    assert!(g.update(true, 3600));
}

#[test]
fn reset_forgets_the_hold_but_not_the_cooldown() {
    let mut g = AlertGate::new(300, 3000);
    g.update(true, 0);
    assert!(g.update(true, 300));
    g.update(true, 3400);
    g.reset();
    assert_eq!(g.over_since, None);
    assert_eq!(g.cooldown_until, 3300);
    assert!(!g.update(true, 3650));
    assert!(g.update(true, 3950));
}

#[test]
fn alerts_are_spaced_by_cooldown_and_hold() {
    let mut g = AlertGate::new(300, 3000);
    let mut fired: Vec<u64> = Vec::new();
    let mut now: u64 = 0;
    while now < 20_000 {
        if g.update(true, now) {
            fired.push(now);
        }
        now += 32;
    }
    assert!(fired.len() >= 5);
    for pair in fired.windows(2) {
        assert!(pair[1] - pair[0] >= 3300, "{fired:?}");
    }
}

#[test]
fn resets_do_not_bring_alerts_closer() {
    let mut g = AlertGate::new(300, 3000);
    assert!(!g.update(true, 0));
    assert!(g.update(true, 300));
    let mut fired = Vec::new();
    for now in (310..8000u64).step_by(10) {
        // each falls into a hold that follows a cooldown
        if now % 3400 == 0 {
            g.reset();
        }
        if g.update(true, now) {
            fired.push(now);
        }
    }
    assert_eq!(fired, vec![3700, 7100], "a cooldown and a hold apart at least");
}
