use stemify::controller;
use stemify::spotify::{Verdict, Watch, Watcher, GONE_CHECKS};

#[test]
fn backend_watch_waits_until_spotify_is_seen() {
    let mut w = Watch::default();
    assert_eq!(w.observe(false), Verdict::Waiting);
    assert_eq!(w.observe(false), Verdict::Waiting);
    assert_eq!(w.observe(true), Verdict::Connected);
}

#[test]
fn backend_watch_gone_after_three_misses() {
    let mut w = Watch::default();
    assert_eq!(w.observe(true), Verdict::Connected);
    for _ in 0..GONE_CHECKS - 1 {
        assert_eq!(w.observe(false), Verdict::Connected);
    }
    assert_eq!(w.observe(false), Verdict::Gone);
    // starts over: not seen any more
    assert_eq!(w.observe(false), Verdict::Waiting);
}

#[test]
fn backend_watch_a_sighting_forgets_misses() {
    let mut w = Watch::default();
    assert_eq!(w.observe(true), Verdict::Connected);
    assert_eq!(w.observe(false), Verdict::Connected);
    assert_eq!(w.observe(false), Verdict::Connected);
    assert_eq!(w.observe(true), Verdict::Connected);
    assert_eq!(w.observe(false), Verdict::Connected);
    assert_eq!(w.observe(false), Verdict::Connected);
    assert_eq!(w.observe(false), Verdict::Gone);
}

#[test]
fn engine_watch_gone_after_fifteen_misses() {
    let mut w = controller::Watch::new();
    assert_eq!(w.observe(false), Verdict::Waiting);
    assert_eq!(w.observe(true), Verdict::Connected);
    for _ in 0..14 {
        assert_eq!(w.observe(false), Verdict::Connected);
    }
    assert_eq!(w.observe(false), Verdict::Gone);
    assert_eq!(w.observe(false), Verdict::Waiting);
}

#[test]
fn watcher_tells_each_change_once() {
    let mut w = Watcher::new();
    assert_eq!(w.check(None), None);
    assert_eq!(w.check(Some(false)), Some((Verdict::Waiting, true)));
    assert_eq!(w.check(Some(false)), Some((Verdict::Waiting, false)));
    assert_eq!(w.check(Some(true)), Some((Verdict::Connected, true)));
    assert_eq!(w.check(Some(true)), Some((Verdict::Connected, false)));
    assert_eq!(w.check(None), None);
    assert_eq!(w.check(Some(false)), Some((Verdict::Connected, false)));
    assert_eq!(w.check(Some(false)), Some((Verdict::Connected, false)));
    assert_eq!(w.check(Some(false)), Some((Verdict::Gone, true)));
    assert_eq!(w.check(Some(false)), Some((Verdict::Waiting, false)));
}

/// The verdict from the checks since the watch was made or last said `Gone`.
fn closed_form(h: &[bool], running: bool, limit: u32) -> Verdict {
    if running {
        return Verdict::Connected;
    }
    let Some(last) = h.iter().rposition(|&r| r) else { return Verdict::Waiting };
    let misses = (h.len() - last - 1) as u32;
    if misses + 1 >= limit { Verdict::Gone } else { Verdict::Connected }
}

#[test]
fn watch_verdicts_follow_the_history() {
    // Every history of up to ten checks.
    for bits in 0u32..(1 << 10) {
        for len in 0..=10 {
            let mut w = Watch::default();
            let mut h: Vec<bool> = Vec::new();
            for k in 0..len {
                let running = bits & (1 << k) != 0;
                let expected = closed_form(&h, running, GONE_CHECKS);
                let verdict = w.observe(running);
                assert_eq!(verdict, expected);
                if verdict == Verdict::Gone {
                    h.clear();
                } else {
                    h.push(running);
                }
            }
        }
    }
}
