use eidolon::ability::CooldownTracker;

#[test]
fn test_cooldown_tracker() {
    let mut tracker = CooldownTracker::new();
    assert!(tracker.is_ready(1, 100));

    tracker.trigger(1, 100, 40);
    assert!(!tracker.is_ready(1, 100));
    assert_eq!(tracker.remaining_ticks(1, 100), 40);

    assert!(!tracker.is_ready(1, 139));
    assert_eq!(tracker.remaining_ticks(1, 139), 1);

    assert!(tracker.is_ready(1, 140));
    assert_eq!(tracker.remaining_ticks(1, 140), 0);

    for id in 2..=17 {
        tracker.trigger(id, 100, 50);
        assert!(!tracker.is_ready(id, 100));
    }
    tracker.trigger(999, 200, 10);
    assert!(!tracker.is_ready(999, 200));
}

#[test]
fn cooldown_retrigger_replaces_expiry() {
    let mut tracker = CooldownTracker::new();
    tracker.trigger(3, 10, 100);
    tracker.trigger(3, 20, 5);
    assert_eq!(tracker.remaining_ticks(3, 20), 5);
    assert!(tracker.is_ready(3, 25));
    assert_eq!(tracker.remaining_ticks(4, 20), 0);
}
