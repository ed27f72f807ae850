use autocopier::description::FileDescription;
use autocopier::dispatcher::{Dispatcher, Phase, Reaction};
use autocopier::notifications::{Notification, UiNotification};
use autocopier::polling::{Timestamps, WatchList};
use autocopier::retry::{CopyStep, RetryPolicy};
use autocopier::ui::{Freshness, StatusBoard, Tui};

fn target(from: &str, to: &str) -> FileDescription {
    FileDescription::new(String::from(from), String::from(to))
}

fn change(p: &str) -> Notification {
    Notification::ChangeDetected(String::from(p))
}

#[test]
fn start_announces_started_then_each_watched_path() {
    let mut d = Dispatcher::new(vec![target("a.txt", "b.txt"), target("c.txt", "d.txt")]);
    assert_eq!(d.phase(), Phase::Constructed);
    assert_eq!(d.sources(), vec!["a.txt", "c.txt"]);
    let n = d.start(&vec![true, true]);
    assert_eq!(
        n,
        vec![
            UiNotification::Started,
            UiNotification::StartedWatching(String::from("a.txt")),
            UiNotification::StartedWatching(String::from("c.txt")),
        ]
    );
    assert_eq!(d.phase(), Phase::Running);
}

#[test]
fn failed_watch_is_left_out_and_session_runs() {
    let mut d = Dispatcher::new(vec![target("missing/x.txt", "y.txt"), target("a.txt", "b.txt")]);
    let n = d.start(&vec![false, true]);
    assert_eq!(
        n,
        vec![UiNotification::Started, UiNotification::StartedWatching(String::from("a.txt"))]
    );
    assert_eq!(d.phase(), Phase::Running);
    assert!(matches!(d.handle(&change("missing/x.txt")), Reaction::Ignore));
    match d.handle(&change("a.txt")) {
        Reaction::Copy(fd) => assert_eq!(fd, target("a.txt", "b.txt")),
        _ => panic!("expected a copy"),
    }
}

#[test]
fn one_change_gives_one_copy_notice() {
    let mut d = Dispatcher::new(vec![target("a.txt", "b.txt")]);
    d.start(&vec![true]);
    let r = d.handle(&change("a.txt"));
    assert_eq!(
        r.completion_notice(),
        Some(UiNotification::Copied(String::from("a.txt"), String::from("b.txt")))
    );
    let r = d.handle(&change("other.txt"));
    assert!(matches!(r, Reaction::Ignore));
    assert_eq!(r.completion_notice(), None);
}

#[test]
fn stop_unwatches_each_watched_path_once_then_goes_silent() {
    let mut d = Dispatcher::new(vec![target("a", "b"), target("c", "d"), target("e", "f")]);
    d.start(&vec![true, false, true]);
    assert!(matches!(d.handle(&Notification::ShouldStop(true)), Reaction::Ignore));
    let paths = match d.handle(&Notification::ShouldStop(false)) {
        Reaction::Unwatch(p) => p,
        _ => panic!("expected unwatch"),
    };
    assert_eq!(paths, vec!["a", "e"]);
    assert_eq!(d.phase(), Phase::Stopping);
    let n = d.finish(&vec![true, true]);
    assert_eq!(
        n,
        vec![
            UiNotification::StoppedWatching(String::from("a")),
            UiNotification::StoppedWatching(String::from("e")),
        ]
    );
    assert_eq!(d.phase(), Phase::Stopped);
    assert!(matches!(d.handle(&change("a")), Reaction::Ignore));
    assert!(matches!(d.handle(&Notification::ShouldStop(false)), Reaction::Ignore));
}

#[test]
fn failed_unwatch_is_not_reported() {
    let mut d = Dispatcher::new(vec![target("a", "b"), target("c", "d")]);
    d.start(&vec![true, true]);
    d.handle(&Notification::ShouldStop(false));
    let n = d.finish(&vec![false, true]);
    assert_eq!(n, vec![UiNotification::StoppedWatching(String::from("c"))]);
}

#[test]
fn duplicate_source_keeps_last_destination() {
    let mut d = Dispatcher::new(vec![target("a", "b"), target("c", "d"), target("a", "z")]);
    assert_eq!(d.sources(), vec!["a", "c"]);
    d.start(&vec![true, true]);
    match d.handle(&change("a")) {
        Reaction::Copy(fd) => assert_eq!(fd, target("a", "z")),
        _ => panic!("expected a copy"),
    }
}

#[test]
fn changes_before_start_are_ignored() {
    let mut d = Dispatcher::new(vec![target("a", "b")]);
    assert!(matches!(d.handle(&change("a")), Reaction::Ignore));
}

#[test]
fn polling_two_writes_in_one_tick_give_one_change() {
    let mut seen = Timestamps::new();
    let a = String::from("a.txt");
    // first sighting is recorded only
    assert_eq!(seen.observe(&vec![(a.clone(), Some(1_000))]), Vec::<String>::new());
    // writes at t=0 and t=50ms land before the next tick: one later time
    assert_eq!(seen.observe(&vec![(a.clone(), Some(1_050))]), vec!["a.txt"]);
    assert_eq!(seen.observe(&vec![(a.clone(), Some(1_050))]), Vec::<String>::new());
    assert_eq!(seen.last_seen(&a), Some(1_050));

    let mut d = Dispatcher::new(vec![target("a.txt", "b.txt")]);
    d.start(&vec![true]);
    let r = d.handle(&change("a.txt"));
    assert_eq!(
        r.completion_notice(),
        Some(UiNotification::Copied(String::from("a.txt"), String::from("b.txt")))
    );
}

#[test]
fn polling_unchanged_path_is_silent() {
    let mut seen = Timestamps::new();
    let a = String::from("a");
    let b = String::from("b");
    for _ in 0..5 {
        let changed = seen.observe(&vec![(a.clone(), Some(7)), (b.clone(), None)]);
        assert!(changed.is_empty());
    }
    assert_eq!(seen.last_seen(&b), None);
}

#[test]
fn polling_failed_read_and_older_time_change_nothing() {
    let mut seen = Timestamps::new();
    let a = String::from("a");
    assert!(!seen.observe_path(&a, Some(10)));
    assert!(!seen.observe_path(&a, None));
    assert!(!seen.observe_path(&a, Some(5)));
    assert_eq!(seen.last_seen(&a), Some(10));
    assert!(seen.observe_path(&a, Some(11)));
}

#[test]
fn watch_list_is_a_set() {
    let mut w = WatchList::new();
    w.watch(String::from("a"));
    w.watch(String::from("b"));
    w.watch(String::from("a"));
    assert_eq!(w.snapshot(), vec!["a", "b"]);
    w.unwatch(&String::from("a"));
    assert_eq!(w.snapshot(), vec!["b"]);
    w.unwatch(&String::from("zzz"));
    assert_eq!(w.snapshot(), vec!["b"]);
}

#[test]
fn retry_policy_steps() {
    let p = RetryPolicy::standard();
    assert_eq!(p.max_attempts, 100);
    assert_eq!(p.delay_ms, 10);
    assert_eq!(p.after_attempt(0, true), CopyStep::Done);
    assert_eq!(p.after_attempt(0, false), CopyStep::RetryAfter(10));
    assert_eq!(p.after_attempt(98, false), CopyStep::RetryAfter(10));
    assert_eq!(p.after_attempt(99, false), CopyStep::GiveUp);
    assert_eq!(p.after_attempt(99, true), CopyStep::Done);
}

#[test]
fn freshness_boundaries() {
    let sec: u128 = 1_000_000_000;
    let now: u128 = 10_000 * sec;
    assert_eq!(Tui::freshness(None, now), Freshness::NotYet);
    assert_eq!(Tui::freshness(Some(now), now), Freshness::JustNow);
    assert_eq!(Tui::freshness(Some(now + sec), now), Freshness::JustNow);
    assert_eq!(Tui::freshness(Some(now - 10 * sec + 1), now), Freshness::JustNow);
    assert_eq!(Tui::freshness(Some(now - 10 * sec), now), Freshness::UnderMinute);
    assert_eq!(Tui::freshness(Some(now - 60 * sec + 1), now), Freshness::UnderMinute);
    assert_eq!(Tui::freshness(Some(now - 60 * sec), now), Freshness::UnderTenMinutes);
    assert_eq!(Tui::freshness(Some(now - 600 * sec + 1), now), Freshness::UnderTenMinutes);
    assert_eq!(Tui::freshness(Some(now - 600 * sec), now), Freshness::Older);
}

#[test]
fn status_board_follows_notifications() {
    let mut b = StatusBoard::new();
    b.apply(&UiNotification::Started, 1);
    b.apply(&UiNotification::StartedWatching(String::from("a")), 2);
    b.apply(&UiNotification::StartedWatching(String::from("c")), 3);
    assert_eq!(b.lines(), vec![(String::from("a"), None), (String::from("c"), None)]);
    b.apply(&UiNotification::Copied(String::from("c"), String::from("d")), 7);
    assert_eq!(b.lines(), vec![(String::from("a"), None), (String::from("c"), Some(7))]);
    b.apply(&UiNotification::StoppedWatching(String::from("a")), 9);
    assert_eq!(b.lines(), vec![(String::from("c"), Some(7))]);
}
