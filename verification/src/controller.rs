//! The engine's controller: the state shown to the front end, the changes the
//! front end may ask for at any time, and the watch over the process list that
//! the supervisor (see `supervisor`) consults every tick.

use vstd::prelude::*;
use crate::spotify::{Verdict, WatchView, fresh_watch, observe_spec, watch_valid};

verus! {

/// Ticks in a row that must find Spotify missing before the engine believes it
/// has quit (3 seconds at one tick every 200 ms).
pub const GONE_CHECKS: u32 = 15;

/// How often, in ticks, to look for a routing left behind (once a second).
pub const CHECK_EVERY_TICKS: u32 = 5;

/// The lowest pitch shift, in semitones.
pub const MIN_SEMITONES: i32 = -12;

/// The highest pitch shift, in semitones.
pub const MAX_SEMITONES: i32 = 12;

/// What the engine is doing, as the front end shows it.
#[derive(Clone, Copy, PartialEq, Eq, Debug, Structural)]
pub enum Status {
    Off,
    /// Starting up.
    Loading,
    /// On, but Spotify has not played sound yet, so it cannot be routed.
    Waiting,
    /// On, but there is nothing to change yet, so Spotify plays untouched.
    Idle,
    /// Spotify's audio is flowing through Stemify.
    Ready,
}

/// The state that the front end shows and changes.
#[derive(Clone, PartialEq, Debug)]
pub struct State {
    pub enabled: bool,
    pub semitones: i32,
    pub stems: Vec<String>,
    pub status: Status,
    pub spotify_connected: bool,
    pub error: Option<String>,
}

/// The state, with its texts as character sequences.
pub struct StateView {
    pub enabled: bool,
    pub semitones: int,
    pub stems: Seq<Seq<char>>,
    pub status: Status,
    pub spotify_connected: bool,
    pub error: Option<Seq<char>>,
}

/// The characters of each text in a list.
pub open spec fn texts(v: Seq<String>) -> Seq<Seq<char>> {
    v.map_values(|s: String| s@)
}

/// The characters of an optional text.
pub open spec fn opt_text(o: Option<String>) -> Option<Seq<char>> {
    match o {
        Some(s) => Some(s@),
        None => None,
    }
}

impl View for State {
    type V = StateView;

    open spec fn view(&self) -> StateView {
        StateView {
            enabled: self.enabled,
            semitones: self.semitones as int,
            stems: texts(self.stems@),
            status: self.status,
            spotify_connected: self.spotify_connected,
            error: opt_text(self.error),
        }
    }
}

/// The stems that are on before the user changes anything.
pub open spec fn default_stems() -> Seq<Seq<char>> {
    seq!["vocals"@, "drums"@, "bass"@, "guitar"@, "piano"@, "other"@]
}

/// The state before anything happened: off, no shift, every stem on.
pub open spec fn initial_state() -> StateView {
    StateView {
        enabled: false,
        semitones: 0,
        stems: default_stems(),
        status: Status::Off,
        spotify_connected: false,
        error: None,
    }
}

/// `v` limited to the range the engine accepts, as `i32::clamp` does.
pub open spec fn clamp_semitones(v: int) -> int {
    if v < MIN_SEMITONES {
        MIN_SEMITONES as int
    } else if v > MAX_SEMITONES {
        MAX_SEMITONES as int
    } else {
        v
    }
}

/// A pitch shift, once set, is always within -12 ..= 12 semitones, and a
/// shift already in that range is kept as it is.
pub proof fn lemma_pitch_in_range(v: int)
    ensures
        MIN_SEMITONES <= clamp_semitones(v) <= MAX_SEMITONES,
        MIN_SEMITONES <= v <= MAX_SEMITONES ==> clamp_semitones(v) == v,
{
}

/// Switching the engine on or off. Switching off always takes effect (the
/// supervisor then puts Spotify back); switching on only while Spotify is
/// connected and the engine is off, and it clears the last error.
pub open spec fn enable_spec(st: StateView, enabled: bool) -> StateView {
    if !enabled {
        StateView { enabled: false, status: Status::Off, ..st }
    } else if st.spotify_connected && !st.enabled {
        StateView { enabled: true, status: Status::Loading, error: None, ..st }
    } else {
        st
    }
}

/// Switching off always takes effect and shows `Off`; switching on takes
/// effect exactly when Spotify is connected or the engine is already on, and
/// a fresh start shows `Loading` with no error. Nothing else of the state
/// changes: neither the shift, the stems nor the connection.
pub proof fn lemma_enable(st: StateView, enabled: bool)
    ensures
        ({
            let st2 = enable_spec(st, enabled);
            &&& st2.semitones == st.semitones && st2.stems == st.stems && st2.spotify_connected == st.spotify_connected
            &&& !enabled ==> !st2.enabled && st2.status == Status::Off && st2.error == st.error
            &&& enabled ==> (st2.enabled <==> (st.enabled || st.spotify_connected))
            &&& (enabled && !st.enabled && st.spotify_connected) ==> st2.status == Status::Loading && st2.error is None
            &&& (enabled && (st.enabled || !st.spotify_connected)) ==> st2 == st
        }),
{
}

impl Default for State {
    fn default() -> (s: State)
        ensures
            s@ == initial_state(),
    {
        let mut stems: Vec<String> = Vec::new();
        stems.push(String::from_str("vocals"));
        stems.push(String::from_str("drums"));
        stems.push(String::from_str("bass"));
        stems.push(String::from_str("guitar"));
        stems.push(String::from_str("piano"));
        stems.push(String::from_str("other"));
        let s = State {
            enabled: false,
            semitones: 0,
            stems,
            status: Status::Off,
            spotify_connected: false,
            error: None,
        };
        assert(s@.stems =~= default_stems());
        s
    }
}

impl State {
    /// Switches the engine on or off, as `enable_spec` says.
    pub fn set_enabled(&mut self, enabled: bool)
        ensures
            final(self)@ == enable_spec(old(self)@, enabled),
    {
        if !enabled {
            self.enabled = false;
            self.status = Status::Off;
        } else if self.spotify_connected && !self.enabled {
            self.enabled = true;
            self.status = Status::Loading;
            self.error = None;
        }
    }

    /// Sets the pitch shift, limited to -12 ..= 12 semitones.
    pub fn set_pitch(&mut self, semitones: i32)
        ensures
            final(self)@ == (StateView { semitones: clamp_semitones(semitones as int), ..old(self)@ }),
    {
        self.semitones = if semitones < MIN_SEMITONES {
            MIN_SEMITONES
        } else if semitones > MAX_SEMITONES {
            MAX_SEMITONES
        } else {
            semitones
        };
    }

    /// Sets the stems to keep.
    pub fn set_stems(&mut self, stems: Vec<String>)
        ensures
            final(self)@ == (StateView { stems: texts(stems@), ..old(self)@ }),
    {
        self.stems = stems;
    }

    /// Whether two states show the same thing; a change of state is announced
    /// only when this is false.
    pub fn same(&self, other: &State) -> (b: bool)
        ensures
            b == (self@ == other@),
    {
        if self.enabled != other.enabled || self.semitones != other.semitones || self.status
            != other.status || self.spotify_connected != other.spotify_connected {
            return false;
        }
        let same_error = match (&self.error, &other.error) {
            (Some(a), Some(b)) => *a == *b,
            (None, None) => true,
            _ => false,
        };
        if !same_error {
            return false;
        }
        if self.stems.len() != other.stems.len() {
            assert(self@.stems.len() != other@.stems.len());
            return false;
        }
        let mut i: usize = 0;
        while i < self.stems.len()
            invariant
                self.stems@.len() == other.stems@.len(),
                i <= self.stems@.len(),
                forall|j: int| 0 <= j < i ==> self.stems@[j]@ == other.stems@[j]@,
            decreases self.stems@.len() - i,
        {
            if self.stems[i] != other.stems[i] {
                assert(self@.stems[i as int] != other@.stems[i as int]);
                return false;
            }
            i = i + 1;
        }
        assert(self@.stems =~= other@.stems);
        true
    }
}

/// A watch over the process list, for the supervisor: Spotify is believed gone
/// after `GONE_CHECKS` missed ticks in a row.
pub struct Watch {
    seen: bool,
    missing: u32,
}

impl View for Watch {
    type V = WatchView;

    closed spec fn view(&self) -> WatchView {
        WatchView { seen: self.seen, missing: self.missing as nat }
    }
}

impl Watch {
    #[verifier::type_invariant]
    closed spec fn valid(self) -> bool {
        watch_valid(self@, GONE_CHECKS as nat)
    }

    /// A watch that has not seen Spotify yet.
    pub fn new() -> (w: Watch)
        ensures
            w@ == fresh_watch(),
    {
        Watch { seen: false, missing: 0 }
    }

    /// Records one tick's look at the process list and says what it means.
    pub fn observe(&mut self, running: bool) -> (verdict: Verdict)
        ensures
            (final(self)@, verdict) == observe_spec(old(self)@, running, GONE_CHECKS as nat),
    {
        proof {
            use_type_invariant(&*self);
        }
        if running {
            self.seen = true;
            self.missing = 0;
            Verdict::Connected
        } else if !self.seen {
            Verdict::Waiting
        } else {
            let missing = self.missing + 1;
            if missing >= GONE_CHECKS {
                *self = Watch::new();
                Verdict::Gone
            } else {
                self.missing = missing;
                Verdict::Connected
            }
        }
    }
}

} // verus!
