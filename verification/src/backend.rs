//! The desktop backend's own engine state: what the window shows, changed by
//! the window's commands. Each change shows `loading` while the engine is on,
//! and the status settles to `ready` a moment later unless it changed again.

use vstd::prelude::*;
use crate::controller::{clamp_semitones, texts, MIN_SEMITONES, MAX_SEMITONES};

verus! {

/// How long after switching on the status settles, in milliseconds.
pub const SETTLE_ENABLE_MS: u64 = 2000;

/// How long after a change of pitch the status settles, in milliseconds.
pub const SETTLE_PITCH_MS: u64 = 800;

/// How long after a change of stems the status settles, in milliseconds.
pub const SETTLE_STEMS_MS: u64 = 1500;

/// The state the window shows.
#[derive(Clone, Debug)]
pub struct EngineState {
    pub enabled: bool,
    pub semitones: i32,
    pub stems: Vec<String>,
    pub status: String,
}

/// The state, with its texts as character sequences.
pub struct EngineStateView {
    pub enabled: bool,
    pub semitones: int,
    pub stems: Seq<Seq<char>>,
    pub status: Seq<char>,
}

impl View for EngineState {
    type V = EngineStateView;

    open spec fn view(&self) -> EngineStateView {
        EngineStateView {
            enabled: self.enabled,
            semitones: self.semitones as int,
            stems: texts(self.stems@),
            status: self.status@,
        }
    }
}

/// The status shown right after a change: `loading` while on, `off` otherwise.
pub open spec fn status_after_change(enabled: bool) -> Seq<char> {
    if enabled {
        "loading"@
    } else {
        "off"@
    }
}

/// The state before anything happened.
pub open spec fn initial_engine_state() -> EngineStateView {
    EngineStateView {
        enabled: false,
        semitones: 0,
        stems: crate::controller::default_stems(),
        status: "off"@,
    }
}

/// The state shown is a consistent one: the status is one of `off`, `loading`
/// and `ready`, and it is `off` exactly when the engine is off.
pub open spec fn engine_state_ok(st: EngineStateView) -> bool {
    &&& st.status == "off"@ || st.status == "loading"@ || st.status == "ready"@
    &&& (st.status == "off"@) == !st.enabled
}

impl Default for EngineState {
    fn default() -> (s: EngineState)
        ensures
            s@ == initial_engine_state(),
    {
        let mut stems: Vec<String> = Vec::new();
        stems.push(String::from_str("vocals"));
        stems.push(String::from_str("drums"));
        stems.push(String::from_str("bass"));
        stems.push(String::from_str("guitar"));
        stems.push(String::from_str("piano"));
        stems.push(String::from_str("other"));
        let s = EngineState { enabled: false, semitones: 0, stems, status: String::from_str("off") };
        assert(s@.stems =~= crate::controller::default_stems());
        s
    }
}

impl EngineState {
    fn restatus(&mut self)
        ensures
            final(self)@ == (EngineStateView { status: status_after_change(old(self).enabled), ..old(self)@ }),
    {
        self.status = if self.enabled {
            String::from_str("loading")
        } else {
            String::from_str("off")
        };
    }

    /// Switches the engine on or off; the status shows `loading` or `off`.
    pub fn set_enabled(&mut self, enabled: bool)
        ensures
            final(self)@ == (EngineStateView { enabled, status: status_after_change(enabled), ..old(self)@ }),
    {
        self.enabled = enabled;
        self.restatus();
    }

    /// Sets the pitch shift, limited to -12 ..= 12 semitones.
    pub fn set_pitch(&mut self, semitones: i32)
        ensures
            final(self)@ == (EngineStateView {
                semitones: clamp_semitones(semitones as int),
                status: status_after_change(old(self).enabled),
                ..old(self)@
            }),
    {
        self.semitones = if semitones < MIN_SEMITONES {
            MIN_SEMITONES
        } else if semitones > MAX_SEMITONES {
            MAX_SEMITONES
        } else {
            semitones
        };
        self.restatus();
    }

    /// Sets the stems to keep.
    pub fn set_stems(&mut self, stems: Vec<String>)
        ensures
            final(self)@ == (EngineStateView {
                stems: texts(stems@),
                status: status_after_change(old(self).enabled),
                ..old(self)@
            }),
    {
        self.stems = stems;
        self.restatus();
    }

    /// The moment after a change: a `loading` engine that is on becomes
    /// `ready`. Says whether the state changed (and must be shown again).
    pub fn settle(&mut self) -> (changed: bool)
        ensures
            changed == (old(self).enabled && old(self)@.status == "loading"@),
            changed ==> final(self)@ == (EngineStateView { status: "ready"@, ..old(self)@ }),
            !changed ==> final(self)@ == old(self)@,
    {
        let loading = crate::text::same_text(self.status.as_str(), "loading");
        if self.enabled && loading {
            self.status = String::from_str("ready");
            true
        } else {
            false
        }
    }
}

/// The state starts consistent, and every command and every settling keeps it
/// consistent: the window never shows `loading` or `ready` while the engine is
/// off, nor `off` while it is on.
pub proof fn lemma_engine_state_stays_ok(st: EngineStateView, enabled: bool, semitones: int, stems: Seq<Seq<char>>)
    requires
        engine_state_ok(st),
    ensures
        engine_state_ok(initial_engine_state()),
        engine_state_ok(EngineStateView { enabled, status: status_after_change(enabled), ..st }),
        engine_state_ok(EngineStateView { semitones, status: status_after_change(st.enabled), ..st }),
        engine_state_ok(EngineStateView { stems, status: status_after_change(st.enabled), ..st }),
        (st.enabled && st.status == "loading"@) ==> engine_state_ok(EngineStateView { status: "ready"@, ..st }),
{
    reveal_strlit("off");
    reveal_strlit("loading");
    reveal_strlit("ready");
    assert("off"@.len() == 3);
    assert("loading"@.len() == 7);
    assert("ready"@.len() == 5);
}

} // verus!
