use tarot::watch::{FileWatcher, WatchAction, WatchEvent};

fn fp(s: &str) -> WatchEvent {
    WatchEvent::Fingerprinted(s.to_string())
}

fn read(s: &str) -> WatchEvent {
    WatchEvent::Read(s.to_string())
}

#[test]
fn first_poll_delivers() {
    let mut w = FileWatcher::new(60000);
    assert_eq!(w.period_ms(), 60000);
    assert_eq!(w.step(fp("h1")), WatchAction::ReadFile);
    assert_eq!(w.step(read("a,1")), WatchAction::Deliver("a,1".to_string()));
}

#[test]
fn unchanged_fingerprint_not_redelivered() {
    let mut w = FileWatcher::new(10);
    w.step(fp("h1"));
    w.step(read("a,1"));
    assert_eq!(w.step(fp("h1")), WatchAction::Wait);
    assert_eq!(w.step(read("a,1")), WatchAction::Wait);
    assert_eq!(w.step(fp("h1")), WatchAction::Wait);
}

#[test]
fn change_delivered_once() {
    let mut w = FileWatcher::new(10);
    w.step(fp("h1"));
    w.step(read("a,1"));
    assert_eq!(w.step(fp("h2")), WatchAction::ReadFile);
    assert_eq!(w.step(read("b,2")), WatchAction::Deliver("b,2".to_string()));
    assert_eq!(w.step(fp("h2")), WatchAction::Wait);
}

#[test]
fn failed_fingerprint_keeps_baseline() {
    let mut w = FileWatcher::new(10);
    w.step(fp("h1"));
    w.step(read("a,1"));
    assert_eq!(w.step(WatchEvent::FingerprintFailed), WatchAction::Wait);
    assert_eq!(w.step(fp("h1")), WatchAction::Wait);
}

#[test]
fn failed_read_retried_next_tick() {
    let mut w = FileWatcher::new(10);
    w.step(fp("h1"));
    w.step(read("a,1"));
    assert_eq!(w.step(fp("h2")), WatchAction::ReadFile);
    assert_eq!(w.step(WatchEvent::ReadFailed), WatchAction::Wait);
    assert_eq!(w.step(fp("h2")), WatchAction::ReadFile);
    assert_eq!(w.step(read("b,2")), WatchAction::Deliver("b,2".to_string()));
}

#[test]
fn failure_before_first_read_still_delivers_later() {
    let mut w = FileWatcher::new(10);
    assert_eq!(w.step(WatchEvent::FingerprintFailed), WatchAction::Wait);
    assert_eq!(w.step(fp("h1")), WatchAction::ReadFile);
    assert_eq!(w.step(read("")), WatchAction::Deliver(String::new()));
}
