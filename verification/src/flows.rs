//! Routing Spotify to the cable, and putting it back, as step functions: each
//! step takes the outcome of one call into Windows and says which call comes
//! next, or how the whole attempt ends. The order of the checks and the
//! counting of the routings set or reset are decided here.

use vstd::prelude::*;
use crate::routing::{
    answered_pids, audio_pids, cable_id_seq, cable_ids, find_cable, is_cable, restore_outcome, route_outcome,
    Restore, RouteError,
};

verus! {

/// The first output device from index `k` on, of (id, friendly name) pairs,
/// that is the cable; -1 when there is none.
pub open spec fn cable_from(outputs: Seq<(String, String)>, k: int) -> int
    decreases outputs.len() - k,
{
    if k < 0 || k >= outputs.len() {
        -1
    } else if is_cable(outputs[k].1@) {
        k
    } else {
        cable_from(outputs, k + 1)
    }
}

/// The first output device that is the cable; -1 when there is none.
pub open spec fn first_cable(outputs: Seq<(String, String)>) -> int {
    cable_from(outputs, 0)
}

proof fn lemma_cable_from(outputs: Seq<(String, String)>, k: int)
    requires
        0 <= k,
    ensures
        cable_from(outputs, k) == -1 || cable_from(outputs, k) >= k,
        cable_from(outputs, k) >= 0 ==> k <= cable_from(outputs, k) < outputs.len() && is_cable(
            outputs[cable_from(outputs, k)].1@,
        ) && forall|j: int| k <= j < cable_from(outputs, k) ==> !is_cable(#[trigger] outputs[j].1@),
        cable_from(outputs, k) < 0 ==> forall|j: int| k <= j < outputs.len() ==> !is_cable(#[trigger] outputs[j].1@),
    decreases outputs.len() - k,
{
    if k < outputs.len() && !is_cable(outputs[k].1@) {
        lemma_cable_from(outputs, k + 1);
        assert forall|j: int| k <= j < cable_from(outputs, k + 1) implies !is_cable(#[trigger] outputs[j].1@) by {
            if j > k {
            }
        }
    }
}

proof fn lemma_first_cable(outputs: Seq<(String, String)>, found: Option<usize>)
    requires
        match found {
            Some(i) => i < outputs.len() && is_cable(outputs[i as int].1@) && forall|j: int|
                0 <= j < i ==> !is_cable(#[trigger] outputs[j].1@),
            None => forall|j: int| 0 <= j < outputs.len() ==> !is_cable(#[trigger] outputs[j].1@),
        },
    ensures
        first_cable(outputs) == match found {
            Some(i) => i as int,
            None => -1,
        },
{
    lemma_cable_from(outputs, 0);
    let c = first_cable(outputs);
    match found {
        Some(i) => {
            let ii = i as int;
            assert(is_cable(outputs[ii].1@));
            if c < 0 {
                assert(0 <= ii < outputs.len());
                assert(!is_cable(outputs[ii].1@));
            } else if c < ii {
                assert(!is_cable(outputs[c].1@));
            } else if c > ii {
                assert(0 <= ii < c);
                assert(!is_cable(outputs[ii].1@));
            }
            assert(c == ii);
        },
        None => {
            if c >= 0 {
                assert(is_cable(outputs[c].1@));
            }
        },
    }
}

// ---------------------------------------------------------------------------
// Routing Spotify to the cable.

/// Where routing Spotify to the cable stands.
#[derive(Clone, Copy, PartialEq, Eq, Debug, Structural)]
pub enum RoutePhase {
    /// Windows' COM is being set up.
    Init,
    /// The output devices are being listed.
    Listing,
    /// The cable is known; Spotify's processes are being listed.
    FindingSpotify,
    /// Spotify runs; the audio policy is being opened.
    Opening,
    /// Spotify's processes are being asked whether they have an audio session.
    Asking,
    /// Each (process, role) routing is being set in turn.
    Setting,
    /// The attempt has ended.
    Done,
}

/// The outcome of one call into Windows.
pub enum RouteEvent {
    ComReady(Result<(), String>),
    Outputs(Result<Vec<(String, String)>, String>),
    Pids(Result<Vec<u32>, String>),
    PolicyOpened(Result<(), String>),
    /// For each of Spotify's processes, in order, whether Windows answered.
    Sessions(Vec<bool>),
    /// Whether Windows accepted the routing just set.
    Accepted(bool),
}

/// The next call into Windows, or the end of the attempt.
pub enum RouteAction {
    InitCom,
    ListOutputs,
    ListPids,
    OpenPolicy,
    /// Ask each of `pids()` whether it has an audio session.
    AskSessions,
    /// Route that process, in that role (0: console, 1: multimedia), to `cable_id()`.
    SetRoute { pid: u32, role: usize },
    Finish(Result<String, RouteError>),
}

/// An action, with its texts as character sequences.
pub enum RouteStep {
    InitCom,
    ListOutputs,
    ListPids,
    OpenPolicy,
    AskSessions,
    SetRoute(u32, int),
    Routed(Seq<char>),
    NoAudioSession,
    Failed(Seq<char>),
}

pub open spec fn route_step_of(a: RouteAction) -> RouteStep {
    match a {
        RouteAction::InitCom => RouteStep::InitCom,
        RouteAction::ListOutputs => RouteStep::ListOutputs,
        RouteAction::ListPids => RouteStep::ListPids,
        RouteAction::OpenPolicy => RouteStep::OpenPolicy,
        RouteAction::AskSessions => RouteStep::AskSessions,
        RouteAction::SetRoute { pid, role } => RouteStep::SetRoute(pid, role as int),
        RouteAction::Finish(Ok(message)) => RouteStep::Routed(message@),
        RouteAction::Finish(Err(RouteError::NoAudioSession)) => RouteStep::NoAudioSession,
        RouteAction::Finish(Err(RouteError::Failed(message))) => RouteStep::Failed(message@),
    }
}

/// The state of a routing attempt.
pub struct RouteView {
    pub phase: RoutePhase,
    pub outputs: Seq<(String, String)>,
    pub cable: int,
    pub pids: Seq<u32>,
    pub audio: Seq<u32>,
    /// The process of `audio` being routed, and the role.
    pub next_pid: int,
    pub role: int,
    /// Some routing was accepted.
    pub routed: bool,
}

/// The attempt before any call.
pub open spec fn route_start() -> RouteView {
    RouteView {
        phase: RoutePhase::Init,
        outputs: Seq::empty(),
        cable: 0,
        pids: Seq::empty(),
        audio: Seq::empty(),
        next_pid: 0,
        role: 0,
        routed: false,
    }
}

/// The events that each phase expects.
pub open spec fn route_accepts(s: RouteView, ev: RouteEvent) -> bool {
    match s.phase {
        RoutePhase::Init => ev is ComReady,
        RoutePhase::Listing => ev is Outputs,
        RoutePhase::FindingSpotify => ev is Pids,
        RoutePhase::Opening => ev is PolicyOpened,
        RoutePhase::Asking => ev matches RouteEvent::Sessions(a) && a@.len() == s.pids.len(),
        RoutePhase::Setting => ev is Accepted,
        RoutePhase::Done => false,
    }
}

/// The attempt ended, with that last step.
pub open spec fn route_ends(s: RouteView, step: RouteStep) -> (RouteView, RouteStep) {
    (RouteView { phase: RoutePhase::Done, ..s }, step)
}

/// One step of routing: the checks come in this order, each ending the
/// attempt when it fails: COM, the device list, a cable among the devices,
/// the process list, a running Spotify, the audio policy, an audio session.
/// Then each audio process is routed in both roles, and the attempt succeeds
/// when Windows accepted at least one routing.
pub open spec fn route_next(s: RouteView, ev: RouteEvent) -> (RouteView, RouteStep) {
    match s.phase {
        RoutePhase::Init => match ev {
            RouteEvent::ComReady(Err(m)) => route_ends(s, RouteStep::Failed(m@)),
            _ => (RouteView { phase: RoutePhase::Listing, ..s }, RouteStep::ListOutputs),
        },
        RoutePhase::Listing => match ev {
            RouteEvent::Outputs(Ok(outs)) => if first_cable(outs@) >= 0 {
                (
                    RouteView { phase: RoutePhase::FindingSpotify, outputs: outs@, cable: first_cable(outs@), ..s },
                    RouteStep::ListPids,
                )
            } else {
                route_ends(RouteView { outputs: outs@, ..s }, RouteStep::Failed("No virtual cable is installed."@))
            },
            RouteEvent::Outputs(Err(m)) => route_ends(s, RouteStep::Failed(m@)),
            _ => route_ends(s, RouteStep::Failed(Seq::empty())),
        },
        RoutePhase::FindingSpotify => match ev {
            RouteEvent::Pids(Ok(p)) => if p@.len() > 0 {
                (RouteView { phase: RoutePhase::Opening, pids: p@, ..s }, RouteStep::OpenPolicy)
            } else {
                route_ends(RouteView { pids: p@, ..s }, RouteStep::Failed("Spotify isn't running."@))
            },
            RouteEvent::Pids(Err(m)) => route_ends(s, RouteStep::Failed(m@)),
            _ => route_ends(s, RouteStep::Failed(Seq::empty())),
        },
        RoutePhase::Opening => match ev {
            RouteEvent::PolicyOpened(Err(m)) => route_ends(s, RouteStep::Failed(m@)),
            _ => (RouteView { phase: RoutePhase::Asking, ..s }, RouteStep::AskSessions),
        },
        RoutePhase::Asking => match ev {
            RouteEvent::Sessions(a) => {
                let audio = answered_pids(s.pids, a@);
                if audio.len() > 0 {
                    (
                        RouteView { phase: RoutePhase::Setting, audio, next_pid: 0, role: 0, routed: false, ..s },
                        RouteStep::SetRoute(audio[0], 0),
                    )
                } else {
                    route_ends(RouteView { audio, ..s }, RouteStep::NoAudioSession)
                }
            },
            _ => route_ends(s, RouteStep::Failed(Seq::empty())),
        },
        RoutePhase::Setting => match ev {
            RouteEvent::Accepted(ok) => {
                let routed = s.routed || ok;
                if s.role == 0 {
                    (RouteView { role: 1, routed, ..s }, RouteStep::SetRoute(s.audio[s.next_pid], 1))
                } else if s.next_pid + 1 < s.audio.len() {
                    (
                        RouteView { next_pid: s.next_pid + 1, role: 0, routed, ..s },
                        RouteStep::SetRoute(s.audio[s.next_pid + 1], 0),
                    )
                } else if routed {
                    route_ends(
                        RouteView { routed, ..s },
                        RouteStep::Routed("routed Spotify to "@ + s.outputs[s.cable].1@),
                    )
                } else {
                    route_ends(
                        RouteView { routed, ..s },
                        RouteStep::Failed("Windows refused to route Spotify to the cable."@),
                    )
                }
            },
            _ => route_ends(s, RouteStep::Failed(Seq::empty())),
        },
        RoutePhase::Done => route_ends(s, RouteStep::Failed(Seq::empty())),
    }
}

/// What the attempt keeps consistent: the cable is one of the devices, and
/// the process being routed is one of the audio processes.
pub open spec fn route_ok(s: RouteView) -> bool {
    &&& (s.phase is FindingSpotify || s.phase is Opening || s.phase is Asking || s.phase is Setting)
        ==> 0 <= s.cable < s.outputs.len() && is_cable(s.outputs[s.cable].1@)
    &&& (s.phase is Opening || s.phase is Asking) ==> s.pids.len() > 0
    &&& s.phase is Setting ==> 0 <= s.next_pid < s.audio.len() && (s.role == 0 || s.role == 1)
}

/// Spotify is only routed to the cable, and only its processes that have an
/// audio session; the attempt reports success exactly when Windows accepted
/// some routing.
pub proof fn lemma_route_sets_only_audio(s: RouteView, ev: RouteEvent)
    requires
        route_ok(s),
        route_accepts(s, ev),
    ensures
        route_ok(route_next(s, ev).0),
        route_next(s, ev).0.phase is Setting ==> route_next(s, ev).1 == RouteStep::SetRoute(
            route_next(s, ev).0.audio[route_next(s, ev).0.next_pid],
            route_next(s, ev).0.role,
        ),
        route_next(s, ev).1 is Routed ==> s.phase is Setting && (s.routed || ev == RouteEvent::Accepted(true)),
{
    if s.phase is Listing {
        if let RouteEvent::Outputs(Ok(outs)) = ev {
            lemma_cable_from(outs@, 0);
        }
    }
}

/// Every audio process of Spotify is routed in both roles, one after the
/// other, and the attempt succeeds exactly when Windows accepted some routing:
/// routing starts at the first process that answered, with nothing accepted
/// yet; each step moves to the next (process, role); it ends only after the
/// last process's second role; and whether some routing was accepted is kept
/// to the end, where it decides between success and refusal.
pub proof fn lemma_route_every_audio_process(s: RouteView, ev: RouteEvent)
    requires
        route_ok(s),
        route_accepts(s, ev),
    ensures
        ({
            let (s2, step) = route_next(s, ev);
            s.phase is Asking ==> (ev matches RouteEvent::Sessions(a) && s2.audio == answered_pids(s.pids, a@)
                && (s2.audio.len() > 0 ==> s2.phase is Setting && s2.next_pid == 0 && s2.role == 0
                && !s2.routed && step == RouteStep::SetRoute(s2.audio[0], 0)) && (s2.audio.len() == 0
                ==> step is NoAudioSession))
        }),
        ({
            let (s2, step) = route_next(s, ev);
            s.phase is Setting && s2.phase is Setting ==> s2.audio == s.audio && s2.outputs == s.outputs
                && s2.cable == s.cable && ((s.role == 0 && s2.next_pid == s.next_pid && s2.role == 1) || (
            s.role == 1 && s2.next_pid == s.next_pid + 1 && s2.role == 0)) && step == RouteStep::SetRoute(
                s2.audio[s2.next_pid],
                s2.role,
            )
        }),
        ({
            let (s2, step) = route_next(s, ev);
            s.phase is Setting && s2.phase is Setting ==> (s2.routed <==> (s.routed || ev == RouteEvent::Accepted(
                true,
            )))
        }),
        ({
            let (s2, step) = route_next(s, ev);
            s.phase is Setting && !(s2.phase is Setting) ==> s.role == 1 && s.next_pid == s.audio.len() - 1
                && s2.phase is Done && (step is Routed <==> (s.routed || ev == RouteEvent::Accepted(true))) && (
            step is Routed || step == RouteStep::Failed("Windows refused to route Spotify to the cable."@))
        }),
{
}

/// The checks before routing, each on what Windows reported: an error of
/// Windows ends the attempt with its message; the device list goes on
/// exactly when one of the devices is the cable, and then with the first
/// such; the process list goes on exactly when Spotify runs.
pub proof fn lemma_route_checks(s: RouteView, ev: RouteEvent)
    requires
        route_ok(s),
        route_accepts(s, ev),
    ensures
        ({
            let (s2, step) = route_next(s, ev);
            (ev matches RouteEvent::ComReady(Err(m)) || ev matches RouteEvent::Outputs(Err(m))
                || ev matches RouteEvent::Pids(Err(m)) || ev matches RouteEvent::PolicyOpened(Err(m))) ==> s2.phase is Done
                && step is Failed
        }),
        ({
            let (s2, step) = route_next(s, ev);
            ev matches RouteEvent::ComReady(Err(m)) ==> step == RouteStep::Failed(m@)
        }),
        ({
            let (s2, step) = route_next(s, ev);
            ev matches RouteEvent::Outputs(Ok(outs)) ==> ((exists|i: int|
                0 <= i < outs@.len() && is_cable(#[trigger] outs@[i].1@)) <==> s2.phase is FindingSpotify)
                && (s2.phase is FindingSpotify ==> is_cable(outs@[s2.cable].1@) && forall|j: int|
                0 <= j < s2.cable ==> !is_cable(#[trigger] outs@[j].1@)) && (!(s2.phase is FindingSpotify)
                ==> step == RouteStep::Failed("No virtual cable is installed."@))
        }),
        ({
            let (s2, step) = route_next(s, ev);
            ev matches RouteEvent::Pids(Ok(p)) ==> ((p@.len() > 0) <==> s2.phase is Opening) && (p@.len() == 0
                ==> step == RouteStep::Failed("Spotify isn't running."@))
        }),
{
    if let RouteEvent::Outputs(Ok(outs)) = ev {
        lemma_cable_from(outs@, 0);
        if exists|i: int| 0 <= i < outs@.len() && is_cable(#[trigger] outs@[i].1@) {
            let w = choose|i: int| 0 <= i < outs@.len() && is_cable(#[trigger] outs@[i].1@);
            assert(is_cable(outs@[w].1@));
        }
    }
}

struct RouteFields {
    phase: RoutePhase,
    outputs: Vec<(String, String)>,
    cable: usize,
    pids: Vec<u32>,
    audio: Vec<u32>,
    next_pid: usize,
    role: usize,
    routed: bool,
}

impl View for RouteFields {
    type V = RouteView;

    closed spec fn view(&self) -> RouteView {
        RouteView {
            phase: self.phase,
            outputs: self.outputs@,
            cable: self.cable as int,
            pids: self.pids@,
            audio: self.audio@,
            next_pid: self.next_pid as int,
            role: self.role as int,
            routed: self.routed,
        }
    }
}

impl RouteFields {
    fn new() -> (f: RouteFields)
        ensures
            f@ == route_start(),
    {
        let f = RouteFields {
            phase: RoutePhase::Init,
            outputs: Vec::new(),
            cable: 0,
            pids: Vec::new(),
            audio: Vec::new(),
            next_pid: 0,
            role: 0,
            routed: false,
        };
        assert(f@.outputs =~= Seq::<(String, String)>::empty());
        f
    }

    fn end(&mut self, action: RouteAction) -> (a: RouteAction)
        ensures
            (final(self)@, route_step_of(a)) == route_ends(old(self)@, route_step_of(action)),
    {
        self.phase = RoutePhase::Done;
        action
    }

    fn step(&mut self, ev: RouteEvent) -> (action: RouteAction)
        requires
            route_ok(old(self)@),
            route_accepts(old(self)@, ev),
        ensures
            (final(self)@, route_step_of(action)) == route_next(old(self)@, ev),
    {
        match self.phase {
            RoutePhase::Init => match ev {
                RouteEvent::ComReady(Err(m)) => self.end(RouteAction::Finish(Err(RouteError::Failed(m)))),
                _ => {
                    self.phase = RoutePhase::Listing;
                    RouteAction::ListOutputs
                },
            },
            RoutePhase::Listing => match ev {
                RouteEvent::Outputs(Ok(outs)) => {
                    let found = find_cable(&outs);
                    proof {
                        lemma_first_cable(outs@, found);
                    }
                    self.outputs = outs;
                    match found {
                        Some(i) => {
                            self.phase = RoutePhase::FindingSpotify;
                            self.cable = i;
                            RouteAction::ListPids
                        },
                        None => self.end(
                            RouteAction::Finish(Err(RouteError::Failed(String::from_str("No virtual cable is installed.")))),
                        ),
                    }
                },
                RouteEvent::Outputs(Err(m)) => self.end(RouteAction::Finish(Err(RouteError::Failed(m)))),
                _ => self.end(RouteAction::Finish(Err(RouteError::Failed(String::new())))),
            },
            RoutePhase::FindingSpotify => match ev {
                RouteEvent::Pids(Ok(p)) => {
                    let running = p.len() > 0;
                    self.pids = p;
                    if running {
                        self.phase = RoutePhase::Opening;
                        RouteAction::OpenPolicy
                    } else {
                        self.end(RouteAction::Finish(Err(RouteError::Failed(String::from_str("Spotify isn't running.")))))
                    }
                },
                RouteEvent::Pids(Err(m)) => self.end(RouteAction::Finish(Err(RouteError::Failed(m)))),
                _ => self.end(RouteAction::Finish(Err(RouteError::Failed(String::new())))),
            },
            RoutePhase::Opening => match ev {
                RouteEvent::PolicyOpened(Err(m)) => self.end(RouteAction::Finish(Err(RouteError::Failed(m)))),
                _ => {
                    self.phase = RoutePhase::Asking;
                    RouteAction::AskSessions
                },
            },
            RoutePhase::Asking => match ev {
                RouteEvent::Sessions(a) => {
                    let audio = audio_pids(&self.pids, &a);
                    self.audio = audio;
                    if self.audio.len() > 0 {
                        self.phase = RoutePhase::Setting;
                        self.next_pid = 0;
                        self.role = 0;
                        self.routed = false;
                        RouteAction::SetRoute { pid: self.audio[0], role: 0 }
                    } else {
                        self.end(RouteAction::Finish(Err(RouteError::NoAudioSession)))
                    }
                },
                _ => self.end(RouteAction::Finish(Err(RouteError::Failed(String::new())))),
            },
            RoutePhase::Setting => match ev {
                RouteEvent::Accepted(ok) => {
                    self.routed = self.routed || ok;
                    if self.role == 0 {
                        self.role = 1;
                        RouteAction::SetRoute { pid: self.audio[self.next_pid], role: 1 }
                    } else if self.next_pid < self.audio.len() - 1 {
                        self.next_pid = self.next_pid + 1;
                        self.role = 0;
                        RouteAction::SetRoute { pid: self.audio[self.next_pid], role: 0 }
                    } else {
                        let outcome = route_outcome(if self.routed { 1 } else { 0 }, self.outputs[self.cable].1.as_str());
                        self.end(RouteAction::Finish(outcome))
                    }
                },
                _ => self.end(RouteAction::Finish(Err(RouteError::Failed(String::new())))),
            },
            RoutePhase::Done => self.end(RouteAction::Finish(Err(RouteError::Failed(String::new())))),
        }
    }
}

/// An attempt to route Spotify to the cable. It is always consistent
/// (`route_ok`).
pub struct RouteFlow {
    fields: RouteFields,
}

impl View for RouteFlow {
    type V = RouteView;

    closed spec fn view(&self) -> RouteView {
        self.fields@
    }
}

impl RouteFlow {
    #[verifier::type_invariant]
    closed spec fn consistent(self) -> bool {
        route_ok(self.fields@)
    }

    /// A new attempt, and its first call.
    pub fn new() -> (res: (RouteFlow, RouteAction))
        ensures
            res.0@ == route_start(),
            route_step_of(res.1) == RouteStep::InitCom,
    {
        (RouteFlow { fields: RouteFields::new() }, RouteAction::InitCom)
    }

    /// Whether the attempt expects that event now.
    pub fn accepts(&self, ev: &RouteEvent) -> (b: bool)
        ensures
            b == route_accepts(self@, *ev),
    {
        match self.fields.phase {
            RoutePhase::Init => matches!(ev, RouteEvent::ComReady(_)),
            RoutePhase::Listing => matches!(ev, RouteEvent::Outputs(_)),
            RoutePhase::FindingSpotify => matches!(ev, RouteEvent::Pids(_)),
            RoutePhase::Opening => matches!(ev, RouteEvent::PolicyOpened(_)),
            RoutePhase::Asking => match ev {
                RouteEvent::Sessions(a) => a.len() == self.fields.pids.len(),
                _ => false,
            },
            RoutePhase::Setting => matches!(ev, RouteEvent::Accepted(_)),
            RoutePhase::Done => false,
        }
    }

    /// Spotify's processes, once listed.
    pub fn pids(&self) -> (p: &Vec<u32>)
        ensures
            p@ == self@.pids,
    {
        &self.fields.pids
    }

    /// The cable's endpoint id, once found.
    pub fn cable_id(&self) -> (id: &str)
        requires
            self@.phase is Setting,
        ensures
            id@ == self@.outputs[self@.cable].0@,
    {
        proof {
            use_type_invariant(self);
        }
        self.fields.outputs[self.fields.cable].0.as_str()
    }

    /// One step: the outcome of the last call, and the next call or the end.
    pub fn step(&mut self, ev: RouteEvent) -> (action: RouteAction)
        requires
            route_accepts(old(self)@, ev),
        ensures
            (final(self)@, route_step_of(action)) == route_next(old(self)@, ev),
    {
        proof {
            use_type_invariant(&*self);
            lemma_route_sets_only_audio(self@, ev);
        }
        let mut fields = RouteFields::new();
        std::mem::swap(&mut fields, &mut self.fields);
        let action = fields.step(ev);
        self.fields = fields;
        action
    }
}

// ---------------------------------------------------------------------------
// Putting Spotify back on its default device.

/// Where putting Spotify back stands.
#[derive(Clone, Copy, PartialEq, Eq, Debug, Structural)]
pub enum RestorePhase {
    /// Windows' COM is being set up.
    Init,
    /// Spotify's processes are being listed.
    ListingPids,
    /// Spotify runs; the output devices are being listed.
    ListingOutputs,
    /// A cable is installed; the audio policy is being opened.
    Opening,
    /// Spotify's processes are being asked whether they have an audio session.
    Asking,
    /// The persisted device of a (process, role) is being read.
    Checking,
    /// That routing points at the cable and is being cleared.
    Clearing,
    /// Done.
    Done,
}

/// The outcome of one call into Windows.
pub enum RestoreEvent {
    ComReady(Result<(), String>),
    Pids(Result<Vec<u32>, String>),
    Outputs(Result<Vec<(String, String)>, String>),
    PolicyOpened(Result<(), String>),
    /// For each of Spotify's processes, in order, whether Windows answered.
    Sessions(Vec<bool>),
    /// Whether Windows answered the read, and the persisted path it gave.
    Read(bool, String),
    /// Whether Windows accepted clearing the routing.
    Cleared(bool),
}

/// The next call into Windows, or the end.
pub enum RestoreAction {
    InitCom,
    ListPids,
    ListOutputs,
    OpenPolicy,
    /// Ask each of `pids()` whether it has an audio session.
    AskSessions,
    /// Read the persisted device of that process in that role (0: console, 1: multimedia).
    ReadRoute { pid: u32, role: usize },
    /// Put that process, in that role, back on the default device.
    ClearRoute { pid: u32, role: usize },
    Finish(Result<Restore, String>),
}

/// An action, with its texts as character sequences.
pub enum RestoreStep {
    InitCom,
    ListPids,
    ListOutputs,
    OpenPolicy,
    AskSessions,
    ReadRoute(u32, int),
    ClearRoute(u32, int),
    Finished(Restore),
    Failed(Seq<char>),
}

pub open spec fn restore_step_of(a: RestoreAction) -> RestoreStep {
    match a {
        RestoreAction::InitCom => RestoreStep::InitCom,
        RestoreAction::ListPids => RestoreStep::ListPids,
        RestoreAction::ListOutputs => RestoreStep::ListOutputs,
        RestoreAction::OpenPolicy => RestoreStep::OpenPolicy,
        RestoreAction::AskSessions => RestoreStep::AskSessions,
        RestoreAction::ReadRoute { pid, role } => RestoreStep::ReadRoute(pid, role as int),
        RestoreAction::ClearRoute { pid, role } => RestoreStep::ClearRoute(pid, role as int),
        RestoreAction::Finish(Ok(r)) => RestoreStep::Finished(r),
        RestoreAction::Finish(Err(message)) => RestoreStep::Failed(message@),
    }
}

/// The state of putting Spotify back.
pub struct RestoreView {
    pub phase: RestorePhase,
    /// Only the processes with an audio session are checked (the engine's
    /// way); otherwise every Spotify process is (the desktop backend's).
    pub only_audio: bool,
    pub pids: Seq<u32>,
    /// The endpoint ids of the cable devices.
    pub cables: Seq<Seq<char>>,
    /// The processes being checked.
    pub targets: Seq<u32>,
    pub next_pid: int,
    pub role: int,
    /// The routings reset so far.
    pub reset: nat,
}

/// Putting Spotify back before any call.
pub open spec fn restore_start(only_audio: bool) -> RestoreView {
    RestoreView {
        phase: RestorePhase::Init,
        only_audio,
        pids: Seq::empty(),
        cables: Seq::empty(),
        targets: Seq::empty(),
        next_pid: 0,
        role: 0,
        reset: 0,
    }
}

/// The events that each phase expects. Two routings per process must be
/// countable in a `usize`.
pub open spec fn restore_accepts(s: RestoreView, ev: RestoreEvent) -> bool {
    match s.phase {
        RestorePhase::Init => ev is ComReady,
        RestorePhase::ListingPids => ev is Pids && (ev matches RestoreEvent::Pids(Ok(p)) ==> p@.len() <= usize::MAX
            / 2),
        RestorePhase::ListingOutputs => ev is Outputs,
        RestorePhase::Opening => ev is PolicyOpened,
        RestorePhase::Asking => ev matches RestoreEvent::Sessions(a) && a@.len() == s.pids.len(),
        RestorePhase::Checking => ev is Read,
        RestorePhase::Clearing => ev is Cleared,
        RestorePhase::Done => false,
    }
}

/// A persisted path names one of the cable devices.
pub open spec fn names_cable(path: Seq<char>, cables: Seq<Seq<char>>) -> bool {
    exists|i: int| 0 <= i < cables.len() && crate::text::seq_contains(path, #[trigger] cables[i])
}

/// The ended state, with that last step.
pub open spec fn restore_ends(s: RestoreView, step: RestoreStep) -> (RestoreView, RestoreStep) {
    (RestoreView { phase: RestorePhase::Done, ..s }, step)
}

/// Once the current (process, role) is dealt with, with `reset` routings reset
/// so far: the next role or process is read, or the outcome is reported.
pub open spec fn restore_advance(s: RestoreView, reset: nat) -> (RestoreView, RestoreStep) {
    if s.role == 0 {
        (
            RestoreView { phase: RestorePhase::Checking, role: 1, reset, ..s },
            RestoreStep::ReadRoute(s.targets[s.next_pid], 1),
        )
    } else if s.next_pid + 1 < s.targets.len() {
        (
            RestoreView { phase: RestorePhase::Checking, next_pid: s.next_pid + 1, role: 0, reset, ..s },
            RestoreStep::ReadRoute(s.targets[s.next_pid + 1], 0),
        )
    } else if reset > 0 {
        restore_ends(RestoreView { reset, ..s }, RestoreStep::Finished(Restore::Reset(reset as usize)))
    } else {
        restore_ends(RestoreView { reset, ..s }, RestoreStep::Finished(Restore::NotRouted))
    }
}

/// The first read, of the first process checked, or the end when there is
/// none to check.
pub open spec fn restore_begin(s: RestoreView, targets: Seq<u32>) -> (RestoreView, RestoreStep) {
    if targets.len() > 0 {
        (
            RestoreView { phase: RestorePhase::Checking, targets, next_pid: 0, role: 0, reset: 0, ..s },
            RestoreStep::ReadRoute(targets[0], 0),
        )
    } else {
        restore_ends(RestoreView { targets, ..s }, RestoreStep::Finished(Restore::NoAudioSession))
    }
}

/// One step of putting Spotify back: the checks come in this order, each
/// ending early: COM, the process list, a running Spotify, the device list, a
/// cable among the devices, the audio policy, and (the engine's way) an audio
/// session. Then each process checked is read in both roles; a routing that
/// Windows reports and that points at a cable is cleared, and each clearing
/// that Windows accepts is counted.
pub open spec fn restore_next(s: RestoreView, ev: RestoreEvent) -> (RestoreView, RestoreStep) {
    match s.phase {
        RestorePhase::Init => match ev {
            RestoreEvent::ComReady(Err(m)) => restore_ends(s, RestoreStep::Failed(m@)),
            _ => (RestoreView { phase: RestorePhase::ListingPids, ..s }, RestoreStep::ListPids),
        },
        RestorePhase::ListingPids => match ev {
            RestoreEvent::Pids(Ok(p)) => if p@.len() > 0 {
                (RestoreView { phase: RestorePhase::ListingOutputs, pids: p@, ..s }, RestoreStep::ListOutputs)
            } else {
                restore_ends(RestoreView { pids: p@, ..s }, RestoreStep::Finished(Restore::SpotifyNotRunning))
            },
            RestoreEvent::Pids(Err(m)) => restore_ends(s, RestoreStep::Failed(m@)),
            _ => restore_ends(s, RestoreStep::Failed(Seq::empty())),
        },
        RestorePhase::ListingOutputs => match ev {
            RestoreEvent::Outputs(Ok(outs)) => {
                let cables = cable_id_seq(outs@);
                if cables.len() > 0 {
                    (RestoreView { phase: RestorePhase::Opening, cables, ..s }, RestoreStep::OpenPolicy)
                } else {
                    restore_ends(RestoreView { cables, ..s }, RestoreStep::Finished(Restore::NoCable))
                }
            },
            RestoreEvent::Outputs(Err(m)) => restore_ends(s, RestoreStep::Failed(m@)),
            _ => restore_ends(s, RestoreStep::Failed(Seq::empty())),
        },
        RestorePhase::Opening => match ev {
            RestoreEvent::PolicyOpened(Err(m)) => restore_ends(s, RestoreStep::Failed(m@)),
            _ => if s.only_audio {
                (RestoreView { phase: RestorePhase::Asking, ..s }, RestoreStep::AskSessions)
            } else {
                restore_begin(s, s.pids)
            },
        },
        RestorePhase::Asking => match ev {
            RestoreEvent::Sessions(a) => restore_begin(s, answered_pids(s.pids, a@)),
            _ => restore_ends(s, RestoreStep::Failed(Seq::empty())),
        },
        RestorePhase::Checking => match ev {
            RestoreEvent::Read(answered, path) => if answered && names_cable(path@, s.cables) {
                (
                    RestoreView { phase: RestorePhase::Clearing, ..s },
                    RestoreStep::ClearRoute(s.targets[s.next_pid], s.role),
                )
            } else {
                restore_advance(s, s.reset)
            },
            _ => restore_ends(s, RestoreStep::Failed(Seq::empty())),
        },
        RestorePhase::Clearing => match ev {
            RestoreEvent::Cleared(ok) => restore_advance(s, if ok { s.reset + 1 } else { s.reset }),
            _ => restore_ends(s, RestoreStep::Failed(Seq::empty())),
        },
        RestorePhase::Done => restore_ends(s, RestoreStep::Failed(Seq::empty())),
    }
}

/// What putting Spotify back keeps consistent: the process being checked is
/// one of those to check, and the count of routings reset never exceeds the
/// routings already dealt with.
pub open spec fn restore_ok(s: RestoreView) -> bool {
    &&& (s.phase is ListingOutputs || s.phase is Opening || s.phase is Asking) ==> 0 < s.pids.len()
        <= usize::MAX / 2
    &&& (s.phase is Checking || s.phase is Clearing) ==> {
        &&& 0 <= s.next_pid < s.targets.len() <= usize::MAX / 2
        &&& (s.role == 0 || s.role == 1)
        &&& s.reset <= 2 * s.next_pid + s.role
    }
}

proof fn lemma_answered_len(pids: Seq<u32>, answered: Seq<bool>)
    ensures
        answered_pids(pids, answered).len() <= pids.len(),
    decreases pids.len(),
{
    if pids.len() > 0 {
        lemma_answered_len(pids.drop_last(), answered);
    }
}

/// Putting Spotify back stays consistent: only routings that Windows reports
/// on a cable are cleared, and `Reset(n)` reports exactly the clearings that
/// Windows accepted, never zero.
pub proof fn lemma_restore_stays_ok(s: RestoreView, ev: RestoreEvent)
    requires
        restore_ok(s),
        restore_accepts(s, ev),
    ensures
        restore_ok(restore_next(s, ev).0),
        restore_next(s, ev).1 matches RestoreStep::ClearRoute(pid, role) ==> s.phase is Checking && (ev matches RestoreEvent::Read(
            answered,
            path,
        ) && answered && names_cable(path@, s.cables)),
        restore_next(s, ev).1 matches RestoreStep::Finished(Restore::Reset(n)) ==> n > 0,
{
    if s.phase is Asking {
        if let RestoreEvent::Sessions(a) = ev {
            lemma_answered_len(s.pids, a@);
        }
    }
}

/// Every process to check is read in both roles, one after the other, and
/// the resets are counted exactly: without `only_audio` the processes checked
/// are all of Spotify's, with it those that answered; checking starts at the
/// first of them with nothing reset; each step moves to the next (process,
/// role), after clearing it when Windows reports it on a cable; each clearing
/// that Windows accepts adds one; and the outcome comes only after the last
/// process's second role, `Reset` with the count, or `NotRouted` for none.
pub proof fn lemma_restore_checks_every_process(s: RestoreView, ev: RestoreEvent)
    requires
        restore_ok(s),
        restore_accepts(s, ev),
    ensures
        ({
            let (s2, step) = restore_next(s, ev);
            (s.phase is Opening && !s.only_audio && ev == RestoreEvent::PolicyOpened(Ok(()))) ==> s2.targets
                == s.pids && s2.phase is Checking && s2.next_pid == 0 && s2.role == 0 && s2.reset == 0
                && step == RestoreStep::ReadRoute(s.pids[0], 0)
        }),
        ({
            let (s2, step) = restore_next(s, ev);
            (s.phase is Opening && s.only_audio && ev == RestoreEvent::PolicyOpened(Ok(()))) ==> s2.phase is Asking
                && step is AskSessions
        }),
        ({
            let (s2, step) = restore_next(s, ev);
            s.phase is Asking ==> (ev matches RestoreEvent::Sessions(a) && s2.targets == answered_pids(s.pids, a@)
                && (s2.targets.len() > 0 ==> s2.phase is Checking && s2.next_pid == 0 && s2.role == 0
                && s2.reset == 0 && step == RestoreStep::ReadRoute(s2.targets[0], 0)) && (s2.targets.len()
                == 0 ==> step == RestoreStep::Finished(Restore::NoAudioSession)))
        }),
        ({
            let (s2, step) = restore_next(s, ev);
            s.phase is Checking ==> (ev matches RestoreEvent::Read(answered, path) && ((answered && names_cable(
                path@,
                s.cables,
            )) <==> s2.phase is Clearing))
        }),
        ({
            let (s2, step) = restore_next(s, ev);
            s2.phase is Clearing ==> s.phase is Checking && s2.targets == s.targets && s2.next_pid == s.next_pid
                && s2.role == s.role && s2.reset == s.reset && step == RestoreStep::ClearRoute(
                s.targets[s.next_pid],
                s.role,
            )
        }),
        ({
            let (s2, step) = restore_next(s, ev);
            let counted = if ev == RestoreEvent::Cleared(true) { s.reset + 1 } else { s.reset };
            ((s.phase is Checking || s.phase is Clearing) && s2.phase is Checking) ==> s2.targets == s.targets
                && s2.cables == s.cables && ((s.role == 0 && s2.next_pid == s.next_pid && s2.role == 1) || (
            s.role == 1 && s2.next_pid == s.next_pid + 1 && s2.role == 0)) && s2.reset == counted
                && step == RestoreStep::ReadRoute(s2.targets[s2.next_pid], s2.role)
        }),
        ({
            let (s2, step) = restore_next(s, ev);
            let counted = if ev == RestoreEvent::Cleared(true) { s.reset + 1 } else { s.reset };
            ((s.phase is Checking || s.phase is Clearing) && s2.phase is Done) ==> s.role == 1 && s.next_pid
                == s.targets.len() - 1 && (counted > 0 ==> step == RestoreStep::Finished(Restore::Reset(counted as usize)))
                && (counted == 0 ==> step == RestoreStep::Finished(Restore::NotRouted))
        }),
{
}

/// The checks before restoring, each on what Windows reported: an error of
/// Windows ends it with the message; the process list goes on exactly when
/// Spotify runs; the device list goes on exactly when one of the devices is
/// the cable, and the cables are then the ids of all such devices.
pub proof fn lemma_restore_checks(s: RestoreView, ev: RestoreEvent)
    requires
        restore_ok(s),
        restore_accepts(s, ev),
    ensures
        ({
            let (s2, step) = restore_next(s, ev);
            (ev matches RestoreEvent::ComReady(Err(m)) || ev matches RestoreEvent::Outputs(Err(m))
                || ev matches RestoreEvent::Pids(Err(m)) || ev matches RestoreEvent::PolicyOpened(Err(m)))
                ==> s2.phase is Done && step is Failed
        }),
        ({
            let (s2, step) = restore_next(s, ev);
            ev matches RestoreEvent::Pids(Ok(p)) ==> ((p@.len() > 0) <==> s2.phase is ListingOutputs) && (
            p@.len() == 0 ==> step == RestoreStep::Finished(Restore::SpotifyNotRunning)) && s2.pids == p@
        }),
        ({
            let (s2, step) = restore_next(s, ev);
            ev matches RestoreEvent::Outputs(Ok(outs)) ==> ((exists|i: int|
                0 <= i < outs@.len() && is_cable(#[trigger] outs@[i].1@)) <==> s2.phase is Opening) && (
            !(s2.phase is Opening) ==> step == RestoreStep::Finished(Restore::NoCable)) && s2.cables
                == cable_id_seq(outs@)
        }),
{
    if let RestoreEvent::Outputs(Ok(outs)) = ev {
        lemma_cable_ids_nonempty(outs@);
    }
}

/// Some device is the cable exactly when the cable ids are not empty.
proof fn lemma_cable_ids_nonempty(outs: Seq<(String, String)>)
    ensures
        (exists|i: int| 0 <= i < outs.len() && is_cable(#[trigger] outs[i].1@)) <==> cable_id_seq(outs).len() > 0,
    decreases outs.len(),
{
    if outs.len() > 0 {
        let p = outs.drop_last();
        lemma_cable_ids_nonempty(p);
        if exists|i: int| 0 <= i < outs.len() && is_cable(#[trigger] outs[i].1@) {
            let w = choose|i: int| 0 <= i < outs.len() && is_cable(#[trigger] outs[i].1@);
            if w < outs.len() - 1 {
                assert(p[w] == outs[w]);
            }
        }
        if exists|i: int| 0 <= i < p.len() && is_cable(#[trigger] p[i].1@) {
            let w = choose|i: int| 0 <= i < p.len() && is_cable(#[trigger] p[i].1@);
            assert(outs[w] == p[w]);
        }
    }
}

struct RestoreFields {
    phase: RestorePhase,
    only_audio: bool,
    pids: Vec<u32>,
    cables: Vec<String>,
    targets: Vec<u32>,
    next_pid: usize,
    role: usize,
    reset: usize,
}

impl View for RestoreFields {
    type V = RestoreView;

    closed spec fn view(&self) -> RestoreView {
        RestoreView {
            phase: self.phase,
            only_audio: self.only_audio,
            pids: self.pids@,
            cables: self.cables@.map_values(|c: String| c@),
            targets: self.targets@,
            next_pid: self.next_pid as int,
            role: self.role as int,
            reset: self.reset as nat,
        }
    }
}

impl RestoreFields {
    fn new(only_audio: bool) -> (f: RestoreFields)
        ensures
            f@ == restore_start(only_audio),
    {
        let f = RestoreFields {
            phase: RestorePhase::Init,
            only_audio,
            pids: Vec::new(),
            cables: Vec::new(),
            targets: Vec::new(),
            next_pid: 0,
            role: 0,
            reset: 0,
        };
        assert(f@.cables =~= Seq::<Seq<char>>::empty());
        f
    }

    fn end(&mut self, action: RestoreAction) -> (a: RestoreAction)
        ensures
            (final(self)@, restore_step_of(a)) == restore_ends(old(self)@, restore_step_of(action)),
    {
        self.phase = RestorePhase::Done;
        action
    }

    fn advance(&mut self, reset: usize) -> (a: RestoreAction)
        requires
            old(self).next_pid < old(self).targets@.len(),
            old(self).role == 0 || old(self).role == 1,
        ensures
            (final(self)@, restore_step_of(a)) == restore_advance(old(self)@, reset as nat),
    {
        self.reset = reset;
        if self.role == 0 {
            self.phase = RestorePhase::Checking;
            self.role = 1;
            RestoreAction::ReadRoute { pid: self.targets[self.next_pid], role: 1 }
        } else if self.next_pid < self.targets.len() - 1 {
            self.phase = RestorePhase::Checking;
            self.next_pid = self.next_pid + 1;
            self.role = 0;
            RestoreAction::ReadRoute { pid: self.targets[self.next_pid], role: 0 }
        } else {
            let r = restore_outcome(reset);
            self.end(RestoreAction::Finish(Ok(r)))
        }
    }

    fn begin(&mut self, targets: Vec<u32>) -> (a: RestoreAction)
        ensures
            (final(self)@, restore_step_of(a)) == restore_begin(old(self)@, targets@),
    {
        self.targets = targets;
        if self.targets.len() > 0 {
            self.phase = RestorePhase::Checking;
            self.next_pid = 0;
            self.role = 0;
            self.reset = 0;
            RestoreAction::ReadRoute { pid: self.targets[0], role: 0 }
        } else {
            self.end(RestoreAction::Finish(Ok(Restore::NoAudioSession)))
        }
    }

    fn path_on_cables(&self, path: &str) -> (b: bool)
        ensures
            b == names_cable(path@, self@.cables),
    {
        let b = crate::routing::path_on_cable(path, &self.cables);
        proof {
            let cs = self@.cables;
            if b {
                let i = choose|i: int| 0 <= i < self.cables@.len() && crate::text::seq_contains(path@, (#[trigger] self.cables@[i])@);
                assert(cs[i] == self.cables@[i]@);
            } else {
                assert forall|i: int| 0 <= i < cs.len() implies !crate::text::seq_contains(path@, #[trigger] cs[i]) by {
                    assert(cs[i] == self.cables@[i]@);
                }
            }
        }
        b
    }

    fn step(&mut self, ev: RestoreEvent) -> (action: RestoreAction)
        requires
            restore_ok(old(self)@),
            restore_accepts(old(self)@, ev),
        ensures
            (final(self)@, restore_step_of(action)) == restore_next(old(self)@, ev),
    {
        match self.phase {
            RestorePhase::Init => match ev {
                RestoreEvent::ComReady(Err(m)) => self.end(RestoreAction::Finish(Err(m))),
                _ => {
                    self.phase = RestorePhase::ListingPids;
                    RestoreAction::ListPids
                },
            },
            RestorePhase::ListingPids => match ev {
                RestoreEvent::Pids(Ok(p)) => {
                    let running = p.len() > 0;
                    self.pids = p;
                    if running {
                        self.phase = RestorePhase::ListingOutputs;
                        RestoreAction::ListOutputs
                    } else {
                        self.end(RestoreAction::Finish(Ok(Restore::SpotifyNotRunning)))
                    }
                },
                RestoreEvent::Pids(Err(m)) => self.end(RestoreAction::Finish(Err(m))),
                _ => self.end(RestoreAction::Finish(Err(String::new()))),
            },
            RestorePhase::ListingOutputs => match ev {
                RestoreEvent::Outputs(Ok(outs)) => {
                    self.cables = cable_ids(&outs);
                    if self.cables.len() > 0 {
                        self.phase = RestorePhase::Opening;
                        RestoreAction::OpenPolicy
                    } else {
                        self.end(RestoreAction::Finish(Ok(Restore::NoCable)))
                    }
                },
                RestoreEvent::Outputs(Err(m)) => self.end(RestoreAction::Finish(Err(m))),
                _ => self.end(RestoreAction::Finish(Err(String::new()))),
            },
            RestorePhase::Opening => match ev {
                RestoreEvent::PolicyOpened(Err(m)) => self.end(RestoreAction::Finish(Err(m))),
                _ => {
                    if self.only_audio {
                        self.phase = RestorePhase::Asking;
                        RestoreAction::AskSessions
                    } else {
                        let targets = self.pids.clone();
                        self.begin(targets)
                    }
                },
            },
            RestorePhase::Asking => match ev {
                RestoreEvent::Sessions(a) => {
                    let targets = audio_pids(&self.pids, &a);
                    self.begin(targets)
                },
                _ => self.end(RestoreAction::Finish(Err(String::new()))),
            },
            RestorePhase::Checking => match ev {
                RestoreEvent::Read(answered, path) => {
                    if answered && self.path_on_cables(path.as_str()) {
                        self.phase = RestorePhase::Clearing;
                        RestoreAction::ClearRoute { pid: self.targets[self.next_pid], role: self.role }
                    } else {
                        let reset = self.reset;
                        self.advance(reset)
                    }
                },
                _ => self.end(RestoreAction::Finish(Err(String::new()))),
            },
            RestorePhase::Clearing => match ev {
                RestoreEvent::Cleared(ok) => {
                    let reset = if ok { self.reset + 1 } else { self.reset };
                    self.advance(reset)
                },
                _ => self.end(RestoreAction::Finish(Err(String::new()))),
            },
            RestorePhase::Done => self.end(RestoreAction::Finish(Err(String::new()))),
        }
    }
}

/// Putting Spotify back on its default device where it is routed to the
/// cable. It is always consistent (`restore_ok`).
pub struct RestoreFlow {
    fields: RestoreFields,
}

impl View for RestoreFlow {
    type V = RestoreView;

    closed spec fn view(&self) -> RestoreView {
        self.fields@
    }
}

impl RestoreFlow {
    #[verifier::type_invariant]
    closed spec fn consistent(self) -> bool {
        restore_ok(self.fields@)
    }

    /// A new attempt, and its first call. With `only_audio`, only Spotify's
    /// processes that have an audio session are checked.
    pub fn new(only_audio: bool) -> (res: (RestoreFlow, RestoreAction))
        ensures
            res.0@ == restore_start(only_audio),
            restore_step_of(res.1) == RestoreStep::InitCom,
    {
        (RestoreFlow { fields: RestoreFields::new(only_audio) }, RestoreAction::InitCom)
    }

    /// Whether the attempt expects that event now.
    pub fn accepts(&self, ev: &RestoreEvent) -> (b: bool)
        ensures
            b == restore_accepts(self@, *ev),
    {
        match self.fields.phase {
            RestorePhase::Init => matches!(ev, RestoreEvent::ComReady(_)),
            RestorePhase::ListingPids => match ev {
                RestoreEvent::Pids(Ok(p)) => p.len() <= usize::MAX / 2,
                RestoreEvent::Pids(Err(_)) => true,
                _ => false,
            },
            RestorePhase::ListingOutputs => matches!(ev, RestoreEvent::Outputs(_)),
            RestorePhase::Opening => matches!(ev, RestoreEvent::PolicyOpened(_)),
            RestorePhase::Asking => match ev {
                RestoreEvent::Sessions(a) => a.len() == self.fields.pids.len(),
                _ => false,
            },
            RestorePhase::Checking => matches!(ev, RestoreEvent::Read(_, _)),
            RestorePhase::Clearing => matches!(ev, RestoreEvent::Cleared(_)),
            RestorePhase::Done => false,
        }
    }

    /// Spotify's processes, once listed.
    pub fn pids(&self) -> (p: &Vec<u32>)
        ensures
            p@ == self@.pids,
    {
        &self.fields.pids
    }

    /// One step: the outcome of the last call, and the next call or the end.
    pub fn step(&mut self, ev: RestoreEvent) -> (action: RestoreAction)
        requires
            restore_accepts(old(self)@, ev),
        ensures
            (final(self)@, restore_step_of(action)) == restore_next(old(self)@, ev),
    {
        proof {
            use_type_invariant(&*self);
            lemma_restore_stays_ok(self@, ev);
        }
        let mut fields = RestoreFields::new(false);
        std::mem::swap(&mut fields, &mut self.fields);
        let action = fields.step(ev);
        self.fields = fields;
        action
    }
}

} // verus!
