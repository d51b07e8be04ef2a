//! Watching for Spotify: a process that comes and goes is only believed gone
//! after several missed checks in a row.

use std::sync::atomic::AtomicBool;
use vstd::prelude::*;

verus! {

/// Checks in a row (one a second) that must find Spotify missing before the
/// backend believes it has quit.
pub const GONE_CHECKS: u32 = 3;

/// Whether Spotify is connected, shared with the commands of the front end.
pub struct Connected(pub AtomicBool);

/// What one check of the process list concludes.
#[derive(Clone, Copy, Debug, PartialEq, Eq, Structural)]
pub enum Verdict {
    /// Spotify has not been seen yet.
    Waiting,
    /// Spotify runs, or has been missing for fewer than the allowed checks.
    Connected,
    /// Spotify has been missing for the allowed number of checks: it has quit.
    Gone,
}

/// The abstract state of a watch: whether Spotify has been seen since the
/// watch last started over, and how many checks in a row have missed it.
pub struct WatchView {
    pub seen: bool,
    pub missing: nat,
}

/// The state in which a watch starts, and to which it returns once Spotify is gone.
pub open spec fn fresh_watch() -> WatchView {
    WatchView { seen: false, missing: 0 }
}

/// One check of a watch that gives up after `limit` misses in a row: the next
/// state and the verdict.
pub open spec fn observe_spec(w: WatchView, running: bool, limit: nat) -> (WatchView, Verdict) {
    if running {
        (WatchView { seen: true, missing: 0 }, Verdict::Connected)
    } else if !w.seen {
        (w, Verdict::Waiting)
    } else if w.missing + 1 >= limit {
        (fresh_watch(), Verdict::Gone)
    } else {
        (WatchView { seen: true, missing: w.missing + 1 }, Verdict::Connected)
    }
}

/// The states a watch with that limit can be in.
pub open spec fn watch_valid(w: WatchView, limit: nat) -> bool {
    &&& w.missing < limit
    &&& !w.seen ==> w.missing == 0
}

/// `k` checks in a row that all miss Spotify, from the state `w`.
pub open spec fn misses(w: WatchView, k: nat, limit: nat) -> (WatchView, Verdict)
    decreases k,
{
    if k == 0 {
        (w, Verdict::Connected)
    } else {
        observe_spec(misses(w, (k - 1) as nat, limit).0, false, limit)
    }
}

/// Every check keeps a watch in a valid state.
pub proof fn lemma_observe_keeps_valid(w: WatchView, running: bool, limit: nat)
    requires
        watch_valid(w, limit),
    ensures
        watch_valid(observe_spec(w, running, limit).0, limit),
{
}

/// Seeing Spotify always yields `Connected` and forgets earlier misses; a watch
/// that has never seen Spotify says `Waiting` for a miss and stays as it is.
pub proof fn lemma_observe_cases(w: WatchView, limit: nat)
    ensures
        observe_spec(w, true, limit) == (WatchView { seen: true, missing: 0 }, Verdict::Connected),
        !w.seen ==> observe_spec(w, false, limit) == (w, Verdict::Waiting),
{
}

/// Once Spotify has been seen, the first `limit - 1` misses in a row still say
/// `Connected`, the `limit`-th says `Gone`, and the watch then starts over.
pub proof fn lemma_gone_after_limit(limit: nat, k: nat)
    requires
        1 <= k <= limit,
    ensures
        k < limit ==> misses(WatchView { seen: true, missing: 0 }, k, limit) == (
            WatchView { seen: true, missing: k },
            Verdict::Connected,
        ),
        k == limit ==> misses(WatchView { seen: true, missing: 0 }, k, limit) == (
            fresh_watch(),
            Verdict::Gone,
        ),
    decreases k,
{
    let start = WatchView { seen: true, missing: 0 };
    if k > 1 {
        lemma_gone_after_limit(limit, (k - 1) as nat);
        assert(misses(start, k, limit) == observe_spec(misses(start, (k - 1) as nat, limit).0, false, limit));
    } else {
        assert(misses(start, 0, limit) == (start, Verdict::Connected));
        assert(misses(start, 1, limit) == observe_spec(start, false, limit));
    }
}

/// A fresh watch given the checks `h`, in order: its state, and whether some
/// check said `Gone`.
pub open spec fn replay(h: Seq<bool>, limit: nat) -> (WatchView, bool)
    decreases h.len(),
{
    if h.len() == 0 {
        (fresh_watch(), false)
    } else {
        let (w, gone) = replay(h.drop_last(), limit);
        let (w2, verdict) = observe_spec(w, h.last(), limit);
        (w2, gone || verdict == Verdict::Gone)
    }
}

/// The checks that missed Spotify since it was last seen.
pub open spec fn misses_since_seen(h: Seq<bool>) -> nat
    decreases h.len(),
{
    if h.len() == 0 || h.last() {
        0
    } else {
        misses_since_seen(h.drop_last()) + 1
    }
}

/// The verdict of a check, from the checks before it alone.
pub open spec fn verdict_after(h: Seq<bool>, running: bool, limit: nat) -> Verdict {
    if running {
        Verdict::Connected
    } else if !h.contains(true) {
        Verdict::Waiting
    } else if misses_since_seen(h) + 1 >= limit {
        Verdict::Gone
    } else {
        Verdict::Connected
    }
}

/// A watch's verdict depends only on the checks since it was made or last
/// said `Gone`: a check that sees Spotify says `Connected`; a miss says
/// `Waiting` while Spotify has not been seen, `Gone` once it completes
/// `limit` misses in a row since Spotify was last seen, and `Connected`
/// before that. The watch then holds whether Spotify was seen and those misses.
pub proof fn lemma_watch_closed_form(h: Seq<bool>, running: bool, limit: nat)
    requires
        !replay(h, limit).1,
    ensures
        replay(h, limit).0 == (WatchView {
            seen: h.contains(true),
            missing: if h.contains(true) { misses_since_seen(h) } else { 0 },
        }),
        observe_spec(replay(h, limit).0, running, limit).1 == verdict_after(h, running, limit),
    decreases h.len(),
{
    if h.len() > 0 {
        let p = h.drop_last();
        lemma_watch_closed_form(p, h.last(), limit);
        assert(h == p.push(h.last()));
        if h.last() {
            assert(h[h.len() - 1] == true);
        } else {
            assert(h.contains(true) == p.contains(true)) by {
                if h.contains(true) {
                    let i = choose|i: int| 0 <= i < h.len() && h[i] == true;
                    assert(p[i] == true);
                }
                if p.contains(true) {
                    let i = choose|i: int| 0 <= i < p.len() && p[i] == true;
                    assert(h[i] == true);
                }
            }
        }
    } else {
        assert(!h.contains(true));
    }
}

/// A watch over the process list, for the backend.
pub struct Watch {
    seen: bool,
    missing: u32,
}

impl View for Watch {
    type V = WatchView;

    closed spec fn view(&self) -> WatchView {
        WatchView { seen: self.seen, missing: self.missing as nat }
    }
}

impl Watch {
    #[verifier::type_invariant]
    closed spec fn valid(self) -> bool {
        watch_valid(self@, GONE_CHECKS as nat)
    }

    /// Records one check of the process list and says what it means.
    pub fn observe(&mut self, running: bool) -> (verdict: Verdict)
        ensures
            (final(self)@, verdict) == observe_spec(old(self)@, running, GONE_CHECKS as nat),
    {
        proof {
            use_type_invariant(&*self);
        }
        if running {
            self.seen = true;
            self.missing = 0;
            Verdict::Connected
        } else if !self.seen {
            Verdict::Waiting
        } else {
            let missing = self.missing + 1;
            if missing >= GONE_CHECKS {
                *self = Watch::default();
                Verdict::Gone
            } else {
                self.missing = missing;
                Verdict::Connected
            }
        }
    }
}

impl Default for Watch {
    fn default() -> (w: Watch)
        ensures
            w@ == fresh_watch(),
    {
        Watch { seen: false, missing: 0 }
    }
}

/// The backend's watcher: a watch over the process list, and the connection
/// state it last told the front end.
pub struct Watcher {
    watch: Watch,
    last: Option<bool>,
}

/// The watcher's state.
pub struct WatcherView {
    pub watch: WatchView,
    pub last: Option<bool>,
}

impl View for Watcher {
    type V = WatcherView;

    closed spec fn view(&self) -> WatcherView {
        WatcherView { watch: self.watch@, last: self.last }
    }
}

/// One check of the watcher: nothing when the process list could not be read;
/// otherwise the verdict, and whether the connection state differs from the
/// one last told (then it is told, and remembered).
pub open spec fn check_spec(w: WatcherView, running: Option<bool>) -> (WatcherView, Option<(Verdict, bool)>) {
    match running {
        None => (w, None),
        Some(r) => {
            let (watch, verdict) = observe_spec(w.watch, r, GONE_CHECKS as nat);
            let connected = verdict == Verdict::Connected;
            let changed = w.last != Some(connected);
            (WatcherView { watch, last: Some(connected) }, Some((verdict, changed)))
        },
    }
}

impl Watcher {
    /// A watcher that has told nothing yet.
    pub fn new() -> (w: Watcher)
        ensures
            w@ == (WatcherView { watch: fresh_watch(), last: None }),
    {
        Watcher { watch: Watch::default(), last: None }
    }

    /// One check, once a second: the verdict (on `Gone` the engine is switched
    /// off), and whether the front end must be told the new connection state.
    pub fn check(&mut self, running: Option<bool>) -> (report: Option<(Verdict, bool)>)
        ensures
            (final(self)@, report) == check_spec(old(self)@, running),
    {
        match running {
            None => None,
            Some(r) => {
                let verdict = self.watch.observe(r);
                let connected = verdict == Verdict::Connected;
                let changed = match self.last {
                    Some(last) => last != connected,
                    None => true,
                };
                self.last = Some(connected);
                Some((verdict, changed))
            },
        }
    }
}

/// The front end hears of every change of the connection state, and only of
/// changes: after a check, the watcher remembers the state it reports, and it
/// asks to tell it exactly when it differs from the one told before.
pub proof fn lemma_told_once(w: WatcherView, running: bool)
    ensures
        ({
            let (w2, report) = check_spec(w, Some(running));
            let (verdict, tell) = report->0;
            &&& report is Some
            &&& w2.last == Some(verdict == Verdict::Connected)
            &&& tell == (w.last != w2.last)
        }),
{
}

} // verus!
