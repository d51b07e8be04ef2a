//! The supervisor of the engine, as a state machine: from what happened to the
//! next thing to do.
//!
//! Between ticks the supervisor is `Idle`. A tick asks whether Spotify runs;
//! from the answer and the shared state it decides whether the pipeline must
//! run with Spotify routed to it (`process`), or whether Spotify is to be left
//! untouched (`stand down`). Each of those takes a few outside calls, and each
//! call's outcome comes back as an event. Stopping puts Spotify back on its
//! default device and drops the pipeline.

use vstd::prelude::*;
use crate::controller::{State, StateView, Status, Watch, GONE_CHECKS, CHECK_EVERY_TICKS};
use crate::routing::{Restore, RouteError};
use crate::spotify::{Verdict, WatchView, fresh_watch, observe_spec, watch_valid};

verus! {

/// Where the supervisor stands within a tick.
pub enum Phase {
    /// Between ticks.
    Idle,
    /// Waiting to hear whether Spotify runs.
    AwaitRunning,
    /// Spotify has quit; the pipeline is being dropped.
    Gone,
    /// Standing down while routed: Spotify is being put back.
    Unroute { connected: bool, status: Status },
    /// Standing down: the pipeline is being dropped; `status` is shown after.
    StandDown { connected: bool, status: Status },
    /// Standing down: looking for a routing left behind.
    Check { status: Status },
    /// Processing without a pipeline: about to show `Loading` and start one.
    Loading { semitones: i32 },
    /// Processing: the pipeline is starting.
    Starting,
    /// Processing: the running pipeline is taking the new shift.
    Retuned,
    /// Processing: Spotify is being routed to the cable.
    Routing,
    /// Turning on failed; the pipeline is being dropped, then `message` is shown.
    Failing { message: String },
    /// Stopping: Spotify is being put back.
    Finishing,
    /// Stopping: the pipeline is being dropped.
    Finished,
    /// Stopped.
    Exited,
}

/// What just happened.
pub enum Event {
    /// A tick went by and the engine is not stopping.
    Tick,
    /// The engine is stopping.
    Stop,
    /// Whether Spotify runs; `None` when the process list could not be read.
    Running(Option<bool>),
    /// The last action was carried out.
    Done,
    /// The outcome of starting the pipeline.
    PipelineStarted(Result<(), String>),
    /// The outcome of routing Spotify to the cable.
    Routed(Result<String, RouteError>),
    /// The outcome of putting Spotify back on its default device.
    Restored(Result<Restore, String>),
}

/// What to do next.
#[derive(Clone, Copy, PartialEq, Eq, Debug, Structural)]
pub enum Action {
    /// Wait a tick, then send `Tick`, or `Stop` if the engine is stopping.
    Sleep,
    /// Look whether Spotify runs and send `Running`.
    CheckRunning,
    /// Nothing outside to do: send `Done`.
    Continue,
    /// Start the pipeline with that shift and send `PipelineStarted`.
    StartPipeline(i32),
    /// Give the running pipeline that shift and send `Done`.
    SetSemitones(i32),
    /// Drop the pipeline, if there is one, and send `Done`.
    DropPipeline,
    /// Route Spotify to the cable and send `Routed`.
    Route,
    /// Put Spotify back on its default device and send `Restored`.
    Restore,
    /// The supervisor has finished.
    Exit,
}

/// The supervisor's state.
pub struct SupervisorView {
    pub watch: WatchView,
    /// The pipeline runs.
    pub has_pipeline: bool,
    /// Spotify is routed to the cable by us.
    pub routed: bool,
    /// Spotify might have been left routed to the cable (a crash, or Spotify
    /// quitting while routed): checked whenever Spotify runs and we do not
    /// process, until a check succeeds.
    pub needs_check: bool,
    pub ticks: u32,
    pub phase: Phase,
}

/// The supervisor before its first tick.
pub open spec fn initial_supervisor() -> SupervisorView {
    SupervisorView {
        watch: fresh_watch(),
        has_pipeline: false,
        routed: false,
        needs_check: true,
        ticks: 0,
        phase: Phase::Idle,
    }
}

/// The events that the supervisor expects in each phase.
pub open spec fn accepts(phase: Phase, ev: Event) -> bool {
    match phase {
        Phase::Idle => ev is Tick || ev is Stop,
        Phase::AwaitRunning => ev is Running,
        Phase::Unroute { .. } | Phase::Check { .. } | Phase::Finishing => ev is Restored,
        Phase::Starting => ev is PipelineStarted,
        Phase::Routing => ev is Routed,
        Phase::Exited => false,
        _ => ev is Done,
    }
}

/// The event that carries the outcome of an action.
pub open spec fn answers(action: Action, ev: Event) -> bool {
    match action {
        Action::Sleep => ev is Tick || ev is Stop,
        Action::CheckRunning => ev is Running,
        Action::Continue | Action::SetSemitones(_) | Action::DropPipeline => ev is Done,
        Action::StartPipeline(_) => ev is PipelineStarted,
        Action::Route => ev is Routed,
        Action::Restore => ev is Restored,
        Action::Exit => false,
    }
}

/// The state with its status set.
pub open spec fn with_status(st: StateView, status: Status) -> StateView {
    StateView { status, ..st }
}

/// Leaving Spotify untouched: put it back if we routed it, then drop the
/// pipeline; `status` is shown at the end.
pub open spec fn stand_down(s: SupervisorView, connected: bool, status: Status) -> (SupervisorView, Action) {
    if s.routed {
        (SupervisorView { phase: Phase::Unroute { connected, status }, ..s }, Action::Restore)
    } else {
        (
            SupervisorView { has_pipeline: false, phase: Phase::StandDown { connected, status }, ..s },
            Action::DropPipeline,
        )
    }
}

/// Something needs changing: the running pipeline takes the new shift, or a
/// pipeline is started.
pub open spec fn process(s: SupervisorView, semitones: i32) -> (SupervisorView, Action) {
    if s.has_pipeline {
        (SupervisorView { phase: Phase::Retuned, ..s }, Action::SetSemitones(semitones))
    } else {
        (SupervisorView { phase: Phase::Loading { semitones }, ..s }, Action::Continue)
    }
}

/// With the pipeline running: route Spotify to it unless it already is, and
/// then show `Ready`.
pub open spec fn route_or_ready(s: SupervisorView, st: StateView) -> (SupervisorView, StateView, Action) {
    if !s.routed {
        (SupervisorView { phase: Phase::Routing, ..s }, st, Action::Route)
    } else {
        (SupervisorView { phase: Phase::Idle, ..s }, with_status(st, Status::Ready), Action::Sleep)
    }
}

/// The tick's decision, from the state just after the connection was recorded.
pub open spec fn decide(s: SupervisorView, st: StateView, connected: bool) -> (SupervisorView, Action) {
    if !st.enabled {
        stand_down(s, connected, Status::Off)
    } else if st.semitones == 0 {
        stand_down(s, connected, Status::Idle)
    } else {
        process(s, st.semitones as i32)
    }
}

/// The tick counter after one more tick; it wraps around.
pub open spec fn next_tick(ticks: u32) -> u32 {
    ((ticks + 1) % 0x1_0000_0000) as u32
}

/// A restore outcome that settles whether a routing was left behind: Spotify
/// had an audio session and Windows answered.
pub open spec fn settles_check(r: Result<Restore, String>) -> bool {
    match r {
        Ok(Restore::NoAudioSession) => false,
        Ok(_) => true,
        Err(_) => false,
    }
}

/// One step of the supervisor: from its state, the shared state and an
/// expected event, to its next state, the next shared state and the next action.
pub open spec fn transition(s: SupervisorView, st: StateView, ev: Event) -> (SupervisorView, StateView, Action) {
    match s.phase {
        Phase::Idle => match ev {
            Event::Stop => (SupervisorView { phase: Phase::Finishing, ..s }, st, Action::Restore),
            _ => (
                SupervisorView { ticks: next_tick(s.ticks), phase: Phase::AwaitRunning, ..s },
                st,
                Action::CheckRunning,
            ),
        },
        Phase::AwaitRunning => match ev {
            Event::Running(Some(running)) => {
                let (w, verdict) = observe_spec(s.watch, running, GONE_CHECKS as nat);
                if verdict == Verdict::Gone {
                    (
                        SupervisorView {
                            watch: w,
                            has_pipeline: false,
                            routed: false,
                            needs_check: true,
                            phase: Phase::Gone,
                            ..s
                        },
                        st,
                        Action::DropPipeline,
                    )
                } else {
                    let connected = verdict == Verdict::Connected;
                    let needs_check = if connected && !st.spotify_connected {
                        true
                    } else {
                        s.needs_check
                    };
                    let st2 = StateView { spotify_connected: connected, ..st };
                    let (s2, action) = decide(SupervisorView { watch: w, needs_check, ..s }, st2, connected);
                    (s2, st2, action)
                }
            },
            _ => (SupervisorView { phase: Phase::Idle, ..s }, st, Action::Sleep),
        },
        Phase::Gone => (
            SupervisorView { phase: Phase::Idle, ..s },
            StateView { enabled: false, status: Status::Off, spotify_connected: false, error: None, ..st },
            Action::Sleep,
        ),
        Phase::Unroute { connected, status } => (
            SupervisorView {
                routed: false,
                has_pipeline: false,
                phase: Phase::StandDown { connected, status },
                ..s
            },
            st,
            Action::DropPipeline,
        ),
        Phase::StandDown { connected, status } => {
            if connected && s.needs_check && s.ticks % CHECK_EVERY_TICKS == 0 {
                (SupervisorView { phase: Phase::Check { status }, ..s }, st, Action::Restore)
            } else {
                (SupervisorView { phase: Phase::Idle, ..s }, with_status(st, status), Action::Sleep)
            }
        },
        Phase::Check { status } => match ev {
            Event::Restored(r) => (
                SupervisorView {
                    needs_check: if settles_check(r) { false } else { s.needs_check },
                    phase: Phase::Idle,
                    ..s
                },
                with_status(st, status),
                Action::Sleep,
            ),
            _ => (s, st, Action::Exit),
        },
        Phase::Loading { semitones } => (
            SupervisorView { phase: Phase::Starting, ..s },
            with_status(st, Status::Loading),
            Action::StartPipeline(semitones),
        ),
        Phase::Starting => match ev {
            Event::PipelineStarted(Ok(())) => route_or_ready(SupervisorView { has_pipeline: true, ..s }, st),
            Event::PipelineStarted(Err(message)) => (
                SupervisorView { has_pipeline: false, phase: Phase::Failing { message }, ..s },
                st,
                Action::DropPipeline,
            ),
            _ => (s, st, Action::Exit),
        },
        Phase::Retuned => route_or_ready(s, st),
        Phase::Routing => match ev {
            Event::Routed(Ok(_)) => (
                SupervisorView { routed: true, phase: Phase::Idle, ..s },
                with_status(st, Status::Ready),
                Action::Sleep,
            ),
            Event::Routed(Err(RouteError::NoAudioSession)) => (
                SupervisorView { phase: Phase::Idle, ..s },
                with_status(st, Status::Waiting),
                Action::Sleep,
            ),
            Event::Routed(Err(RouteError::Failed(message))) => (
                SupervisorView { has_pipeline: false, phase: Phase::Failing { message }, ..s },
                st,
                Action::DropPipeline,
            ),
            _ => (s, st, Action::Exit),
        },
        Phase::Failing { message } => (
            SupervisorView { phase: Phase::Idle, ..s },
            StateView { enabled: false, status: Status::Off, error: Some(message@), ..st },
            Action::Sleep,
        ),
        Phase::Finishing => (
            SupervisorView { has_pipeline: false, phase: Phase::Finished, ..s },
            st,
            Action::DropPipeline,
        ),
        Phase::Finished => (SupervisorView { phase: Phase::Exited, ..s }, st, Action::Exit),
        Phase::Exited => (s, st, Action::Exit),
    }
}


/// The status that a standing-down phase will show, if it is one.
pub open spec fn pending_status(p: Phase) -> Option<Status> {
    match p {
        Phase::Unroute { status, .. } => Some(status),
        Phase::StandDown { status, .. } => Some(status),
        Phase::Check { status } => Some(status),
        _ => None,
    }
}

/// The supervisor's own bookkeeping is consistent: Spotify is routed to the
/// cable only while the pipeline runs (until the engine stops), and each phase
/// knows what it may: processing phases after a retune have a pipeline,
/// routing happens only when not yet routed, and standing down or failing
/// leaves neither pipeline nor routing behind.
pub open spec fn supervisor_ok(s: SupervisorView) -> bool {
    &&& watch_valid(s.watch, GONE_CHECKS as nat)
    &&& !(s.phase is Finished || s.phase is Exited) ==> (s.routed ==> s.has_pipeline)
    &&& s.phase is Retuned ==> s.has_pipeline
    &&& s.phase is Routing ==> s.has_pipeline && !s.routed
    &&& (s.phase is Loading || s.phase is Starting) ==> !s.has_pipeline && !s.routed
    &&& (s.phase is StandDown || s.phase is Check) ==> !s.has_pipeline && !s.routed
    &&& (s.phase is Failing || s.phase is Gone) ==> !s.has_pipeline && !s.routed
    &&& s.phase is Unroute ==> s.routed
    &&& pending_status(s.phase) is Some ==> (pending_status(s.phase)->0 == Status::Off
        || pending_status(s.phase)->0 == Status::Idle)
}

/// An error is shown only while the engine is off: an error comes with
/// `enabled == false` and status `Off`. While the supervisor is on its way to
/// show any other status, or is processing, there is no error.
pub open spec fn error_rule(s: SupervisorView, st: StateView) -> bool {
    &&& st.error is Some ==> !st.enabled && st.status == Status::Off
    &&& (pending_status(s.phase) is Some && pending_status(s.phase)->0 != Status::Off) ==> st.error is None
    &&& (s.phase is Loading || s.phase is Starting || s.phase is Retuned || s.phase is Routing)
        ==> st.error is None
}

/// How far a phase is from the end of its tick.
pub open spec fn rank(p: Phase) -> nat {
    match p {
        Phase::Idle => 0,
        Phase::Exited => 0,
        Phase::Check { .. } | Phase::Failing { .. } | Phase::Gone | Phase::Finished => 1,
        Phase::StandDown { .. } | Phase::Routing | Phase::Finishing => 2,
        Phase::Unroute { .. } | Phase::Retuned | Phase::Starting => 3,
        Phase::Loading { .. } => 4,
        Phase::AwaitRunning => 5,
    }
}

/// The supervisor starts consistent, and so does the engine's first state.
pub proof fn lemma_initial_ok()
    ensures
        supervisor_ok(initial_supervisor()),
        error_rule(initial_supervisor(), crate::controller::initial_state()),
{
}

/// Every step keeps the supervisor consistent: in particular, Spotify is never
/// left routed to the cable without the pipeline to play it, until the engine
/// stops.
pub proof fn lemma_step_keeps_supervisor_ok(s: SupervisorView, st: StateView, ev: Event)
    requires
        supervisor_ok(s),
        accepts(s.phase, ev),
    ensures
        supervisor_ok(transition(s, st, ev).0),
{
    if s.phase is AwaitRunning {
        if let Event::Running(Some(running)) = ev {
            crate::spotify::lemma_observe_keeps_valid(s.watch, running, GONE_CHECKS as nat);
        }
    }
}

/// Every step keeps the rule that an error is shown only while the engine is off.
pub proof fn lemma_step_keeps_error_rule(s: SupervisorView, st: StateView, ev: Event)
    requires
        error_rule(s, st),
        accepts(s.phase, ev),
    ensures
        error_rule(transition(s, st, ev).0, transition(s, st, ev).1),
{
}

/// What the front end may change at any time (switching on or off, the pitch,
/// the stems) keeps the rule that an error is shown only while the engine is off.
pub proof fn lemma_user_changes_keep_error_rule(s: SupervisorView, st: StateView, enabled: bool, semitones: int, stems: Seq<Seq<char>>)
    requires
        error_rule(s, st),
    ensures
        error_rule(s, crate::controller::enable_spec(st, enabled)),
        error_rule(s, StateView { semitones, ..st }),
        error_rule(s, StateView { stems, ..st }),
{
}

/// The protocol between the supervisor and the program that runs it: the
/// event that answers the action of a step is one that the next phase expects,
/// so the program never has to invent an event.
pub proof fn lemma_answers_are_accepted(s: SupervisorView, st: StateView, ev: Event, answer: Event)
    requires
        accepts(s.phase, ev),
        answers(transition(s, st, ev).2, answer),
    ensures
        accepts(transition(s, st, ev).0.phase, answer),
{
}

/// Every tick ends: each step taken within a tick brings the supervisor
/// strictly closer to the end of the tick, and a step ends the tick (goes
/// back to `Idle`) exactly when its action is `Sleep`.
pub proof fn lemma_ticks_end(s: SupervisorView, st: StateView, ev: Event)
    requires
        accepts(s.phase, ev),
    ensures
        !(s.phase is Idle) ==> rank(transition(s, st, ev).0.phase) < rank(s.phase),
        (transition(s, st, ev).2 == Action::Sleep) == (transition(s, st, ev).0.phase is Idle),
{
}

/// What the status says is what runs: a step that shows `Ready` leaves
/// Spotify routed to a running pipeline; one that shows `Waiting` has the
/// pipeline running but Spotify not routed; one that shows `Idle` leaves
/// Spotify untouched, with neither routing nor pipeline. And the pipeline is
/// never dropped while Spotify is still routed to it, except when the engine
/// stops (Spotify has been put back first).
pub proof fn lemma_status_tells_the_truth(s: SupervisorView, st: StateView, ev: Event)
    requires
        supervisor_ok(s),
        accepts(s.phase, ev),
    ensures
        ({
            let (s2, st2, action) = transition(s, st, ev);
            &&& st2.status != st.status && st2.status == Status::Ready ==> s2.routed && s2.has_pipeline
        }),
        ({
            let (s2, st2, action) = transition(s, st, ev);
            &&& st2.status != st.status && st2.status == Status::Waiting ==> s2.has_pipeline && !s2.routed
        }),
        ({
            let (s2, st2, action) = transition(s, st, ev);
            &&& st2.status != st.status && st2.status == Status::Idle ==> !s2.has_pipeline && !s2.routed
        }),
        ({
            let (s2, st2, action) = transition(s, st, ev);
            &&& action == Action::DropPipeline && !(s.phase is Finishing) ==> !s2.routed
        }),
{
}

/// A routing that may have been left behind is looked for until a look
/// settles it: the supervisor stops looking only after a restore that found
/// Spotify's audio session and got Windows' answer, and it starts looking again
/// whenever Spotify connects anew or quits.
pub proof fn lemma_check_until_settled(s: SupervisorView, st: StateView, ev: Event)
    requires
        accepts(s.phase, ev),
    ensures
        ({
            let (s2, st2, action) = transition(s, st, ev);
            s.needs_check && !s2.needs_check ==> s.phase is Check && (ev matches Event::Restored(r) && settles_check(r))
        }),
        ({
            let (s2, st2, action) = transition(s, st, ev);
            s.phase is AwaitRunning && st2.spotify_connected && !st.spotify_connected ==> s2.needs_check
        }),
        ({
            let (s2, st2, action) = transition(s, st, ev);
            s2.phase is Gone ==> s2.needs_check
        }),
{
}

/// Spotify is never simply forgotten on the cable: the supervisor stops
/// counting Spotify as routed only when a restore it asked for has answered
/// (while standing down), or when Spotify has quit. And standing down while
/// routed (the engine off, or no shift) first asks to put Spotify back.
pub proof fn lemma_unrouted_only_by_restore(s: SupervisorView, st: StateView, ev: Event)
    requires
        accepts(s.phase, ev),
    ensures
        ({
            let (s2, st2, action) = transition(s, st, ev);
            s.routed && !s2.routed ==> (s.phase is Unroute && ev is Restored) || (s.phase is AwaitRunning && (ev matches Event::Running(
                Some(r),
            ) && observe_spec(s.watch, r, GONE_CHECKS as nat).1 == Verdict::Gone))
        }),
        ({
            let (s2, st2, action) = transition(s, st, ev);
            (s.phase is AwaitRunning && s.routed && (ev matches Event::Running(Some(r)) && observe_spec(
                s.watch,
                r,
                GONE_CHECKS as nat,
            ).1 != Verdict::Gone) && (!st.enabled || st.semitones == 0)) ==> action == Action::Restore
                && s2.routed && s2.has_pipeline == s.has_pipeline
        }),
        ({
            let (s2, st2, action) = transition(s, st, ev);
            s.phase is Unroute ==> action == Action::DropPipeline && !s2.routed && !s2.has_pipeline
        }),
{
}

/// A tick processes Spotify exactly when it must: once Spotify's verdict is
/// in (and it has not quit), the supervisor goes on to process (retune or
/// start the pipeline) exactly when the engine is on with a nonzero shift,
/// and otherwise stands down. The pipeline always runs at the user's shift:
/// a retune or a start carries the shift in the state, and a pipeline is
/// started only when none runs. A look for a routing left behind happens
/// only while Spotify is connected, the look is still owed, and on every
/// `CHECK_EVERY_TICKS`-th tick.
pub proof fn lemma_process_only_when_needed(s: SupervisorView, st: StateView, ev: Event)
    requires
        accepts(s.phase, ev),
        supervisor_ok(s),
    ensures
        ({
            let (s2, st2, action) = transition(s, st, ev);
            (s.phase is AwaitRunning && (ev matches Event::Running(Some(r)) && observe_spec(
                s.watch,
                r,
                GONE_CHECKS as nat,
            ).1 != Verdict::Gone)) ==> (((st.enabled && st.semitones != 0) <==> (s2.phase is Retuned
                || s2.phase is Loading)) && (s2.phase is Retuned ==> s.has_pipeline && action
                == Action::SetSemitones(st.semitones as i32)) && (s2.phase is Loading ==> !s.has_pipeline
                && s2.phase == Phase::Loading { semitones: st.semitones as i32 }) && (!(st.enabled
                && st.semitones != 0) ==> (action == Action::Restore || action == Action::DropPipeline)))
        }),
        ({
            let (s2, st2, action) = transition(s, st, ev);
            action matches Action::StartPipeline(x) ==> s.phase == Phase::Loading { semitones: x } && !s.has_pipeline
        }),
        ({
            let (s2, st2, action) = transition(s, st, ev);
            s2.phase is Check ==> s.phase is StandDown && s.needs_check && s.ticks % CHECK_EVERY_TICKS == 0
                && (s.phase matches Phase::StandDown { connected, .. } && connected) && action == Action::Restore
        }),
{
}

/// When Spotify quits, the engine lets go and switches off: the tick that
/// finds it gone drops the pipeline and forgets the routing (Spotify took it
/// along), a look for a routing left behind is owed again, and the next step
/// shows the engine off, disconnected, with no error.
pub proof fn lemma_gone_switches_off(s: SupervisorView, st: StateView, r: bool)
    requires
        s.phase is AwaitRunning,
        observe_spec(s.watch, r, GONE_CHECKS as nat).1 == Verdict::Gone,
    ensures
        ({
            let (s1, st1, a1) = transition(s, st, Event::Running(Some(r)));
            let (s2, st2, a2) = transition(s1, st1, Event::Done);
            &&& a1 == Action::DropPipeline && !s1.has_pipeline && !s1.routed && s1.needs_check
            &&& a2 == Action::Sleep && s2.phase is Idle
            &&& !st2.enabled && st2.status == Status::Off && !st2.spotify_connected && st2.error is None
            &&& st2.semitones == st.semitones && st2.stems == st.stems
        }),
{
}

/// Routing's answer decides the status: accepted, Spotify is routed and the
/// engine shows `Ready`; no audio session yet, the pipeline keeps running
/// unrouted and the engine shows `Waiting`, to try again next tick.
pub proof fn lemma_route_answer(s: SupervisorView, st: StateView, ev: Event)
    requires
        supervisor_ok(s),
        s.phase is Routing,
        ev is Routed,
    ensures
        ({
            let (s2, st2, action) = transition(s, st, ev);
            (ev matches Event::Routed(Ok(m))) ==> s2.routed && s2.has_pipeline == s.has_pipeline && st2.status
                == Status::Ready && action == Action::Sleep
        }),
        ({
            let (s2, st2, action) = transition(s, st, ev);
            (ev matches Event::Routed(Err(e)) && e is NoAudioSession) ==> !s2.routed && s2.has_pipeline
                == s.has_pipeline && st2.status == Status::Waiting && action == Action::Sleep
        }),
{
}

/// Turning on that fails is undone and explained: when the pipeline does not
/// start, or Windows refuses the routing, the pipeline is dropped and, in the
/// next step, the engine shows itself off with the failure's message.
pub proof fn lemma_failure_is_reported(s: SupervisorView, st: StateView, ev: Event, message: String)
    requires
        supervisor_ok(s),
        (s.phase is Starting && ev == Event::PipelineStarted(Err(message)))
            || (s.phase is Routing && ev == Event::Routed(Err(RouteError::Failed(message)))),
    ensures
        ({
            let (s1, st1, a1) = transition(s, st, ev);
            let (s2, st2, a2) = transition(s1, st1, Event::Done);
            &&& a1 == Action::DropPipeline
            &&& a2 == Action::Sleep
            &&& !s2.has_pipeline && !s2.routed
            &&& !st2.enabled && st2.status == Status::Off && st2.error == Some(message@)
        }),
{
}

/// Stopping leaves Spotify on its default device: from a tick's end, a stop
/// first puts Spotify back, then drops the pipeline, then exits, whatever the
/// restore reported.
pub proof fn lemma_stop_restores_first(s: SupervisorView, st: StateView, restored: Result<Restore, String>)
    requires
        s.phase is Idle,
    ensures
        ({
            let (s1, st1, a1) = transition(s, st, Event::Stop);
            let (s2, st2, a2) = transition(s1, st1, Event::Restored(restored));
            let (s3, st3, a3) = transition(s2, st2, Event::Done);
            &&& a1 == Action::Restore
            &&& a2 == Action::DropPipeline
            &&& a3 == Action::Exit
            &&& !s3.has_pipeline
            &&& st3 == st
        }),
{
}

/// The supervisor's fields, stepped as `transition` says.
struct Machine {
    watch: Watch,
    has_pipeline: bool,
    routed: bool,
    needs_check: bool,
    ticks: u32,
    phase: Phase,
}

impl View for Machine {
    type V = SupervisorView;

    closed spec fn view(&self) -> SupervisorView {
        SupervisorView {
            watch: self.watch@,
            has_pipeline: self.has_pipeline,
            routed: self.routed,
            needs_check: self.needs_check,
            ticks: self.ticks,
            phase: self.phase,
        }
    }
}

impl Machine {
    fn new() -> (s: Machine)
        ensures
            s@ == initial_supervisor(),
    {
        Machine {
            watch: Watch::new(),
            has_pipeline: false,
            routed: false,
            needs_check: true,
            ticks: 0,
            phase: Phase::Idle,
        }
    }

    fn accepts(&self, ev: &Event) -> (b: bool)
        ensures
            b == accepts(self@.phase, *ev),
    {
        match self.phase {
            Phase::Idle => match ev {
                Event::Tick | Event::Stop => true,
                _ => false,
            },
            Phase::AwaitRunning => match ev {
                Event::Running(_) => true,
                _ => false,
            },
            Phase::Unroute { .. } | Phase::Check { .. } | Phase::Finishing => match ev {
                Event::Restored(_) => true,
                _ => false,
            },
            Phase::Starting => match ev {
                Event::PipelineStarted(_) => true,
                _ => false,
            },
            Phase::Routing => match ev {
                Event::Routed(_) => true,
                _ => false,
            },
            Phase::Exited => false,
            _ => match ev {
                Event::Done => true,
                _ => false,
            },
        }
    }

    fn route_or_ready(&mut self, state: &mut State) -> (action: Action)
        ensures
            (final(self)@, final(state)@, action) == route_or_ready(old(self)@, old(state)@),
    {
        if !self.routed {
            self.phase = Phase::Routing;
            Action::Route
        } else {
            self.phase = Phase::Idle;
            state.status = Status::Ready;
            Action::Sleep
        }
    }

    fn stand_down(&mut self, connected: bool, status: Status) -> (action: Action)
        ensures
            (final(self)@, action) == stand_down(old(self)@, connected, status),
    {
        if self.routed {
            self.phase = Phase::Unroute { connected, status };
            Action::Restore
        } else {
            self.has_pipeline = false;
            self.phase = Phase::StandDown { connected, status };
            Action::DropPipeline
        }
    }

    fn process(&mut self, semitones: i32) -> (action: Action)
        ensures
            (final(self)@, action) == process(old(self)@, semitones),
    {
        if self.has_pipeline {
            self.phase = Phase::Retuned;
            Action::SetSemitones(semitones)
        } else {
            self.phase = Phase::Loading { semitones };
            Action::Continue
        }
    }

    fn step(&mut self, state: &mut State, event: Event) -> (action: Action)
        requires
            accepts(old(self)@.phase, event),
        ensures
            (final(self)@, final(state)@, action) == transition(old(self)@, old(state)@, event),
    {
        match self.phase {
            Phase::Idle => match event {
                Event::Stop => {
                    self.phase = Phase::Finishing;
                    Action::Restore
                },
                _ => {
                    self.ticks = self.ticks.wrapping_add(1);
                    self.phase = Phase::AwaitRunning;
                    Action::CheckRunning
                },
            },
            Phase::AwaitRunning => match event {
                Event::Running(Some(running)) => {
                    let verdict = self.watch.observe(running);
                    if verdict == Verdict::Gone {
                        self.has_pipeline = false;
                        self.routed = false;
                        self.needs_check = true;
                        self.phase = Phase::Gone;
                        Action::DropPipeline
                    } else {
                        let connected = verdict == Verdict::Connected;
                        if connected && !state.spotify_connected {
                            self.needs_check = true;
                        }
                        state.spotify_connected = connected;
                        if !state.enabled {
                            self.stand_down(connected, Status::Off)
                        } else if state.semitones == 0 {
                            self.stand_down(connected, Status::Idle)
                        } else {
                            self.process(state.semitones)
                        }
                    }
                },
                _ => {
                    self.phase = Phase::Idle;
                    Action::Sleep
                },
            },
            Phase::Gone => {
                self.phase = Phase::Idle;
                state.enabled = false;
                state.status = Status::Off;
                state.spotify_connected = false;
                state.error = None;
                Action::Sleep
            },
            Phase::Unroute { connected, status } => {
                self.routed = false;
                self.has_pipeline = false;
                self.phase = Phase::StandDown { connected, status };
                Action::DropPipeline
            },
            Phase::StandDown { connected, status } => {
                if connected && self.needs_check && self.ticks % CHECK_EVERY_TICKS == 0 {
                    self.phase = Phase::Check { status };
                    Action::Restore
                } else {
                    self.phase = Phase::Idle;
                    state.status = status;
                    Action::Sleep
                }
            },
            Phase::Check { status } => {
                let settles = match event {
                    Event::Restored(Ok(Restore::NoAudioSession)) => false,
                    Event::Restored(Ok(_)) => true,
                    _ => false,
                };
                if settles {
                    self.needs_check = false;
                }
                self.phase = Phase::Idle;
                state.status = status;
                Action::Sleep
            },
            Phase::Loading { semitones } => {
                self.phase = Phase::Starting;
                state.status = Status::Loading;
                Action::StartPipeline(semitones)
            },
            Phase::Starting => match event {
                Event::PipelineStarted(Ok(())) => {
                    self.has_pipeline = true;
                    self.route_or_ready(state)
                },
                Event::PipelineStarted(Err(message)) => {
                    self.has_pipeline = false;
                    self.phase = Phase::Failing { message };
                    Action::DropPipeline
                },
                _ => {
                    assert(false);
                    Action::Exit
                },
            },
            Phase::Retuned => self.route_or_ready(state),
            Phase::Routing => match event {
                Event::Routed(Ok(_)) => {
                    self.routed = true;
                    self.phase = Phase::Idle;
                    state.status = Status::Ready;
                    Action::Sleep
                },
                Event::Routed(Err(RouteError::NoAudioSession)) => {
                    self.phase = Phase::Idle;
                    state.status = Status::Waiting;
                    Action::Sleep
                },
                Event::Routed(Err(RouteError::Failed(message))) => {
                    self.has_pipeline = false;
                    self.phase = Phase::Failing { message };
                    Action::DropPipeline
                },
                _ => {
                    assert(false);
                    Action::Exit
                },
            },
            Phase::Failing { ref message } => {
                let message = message.clone();
                self.phase = Phase::Idle;
                state.enabled = false;
                state.status = Status::Off;
                state.error = Some(message);
                Action::Sleep
            },
            Phase::Finishing => {
                self.has_pipeline = false;
                self.phase = Phase::Finished;
                Action::DropPipeline
            },
            Phase::Finished => {
                self.phase = Phase::Exited;
                Action::Exit
            },
            Phase::Exited => Action::Exit,
        }
    }
}

/// The supervisor of the engine. It is always consistent (`supervisor_ok`):
/// in particular Spotify is never left routed to the cable by it without the
/// pipeline running, until the engine stops.
pub struct Supervisor {
    machine: Machine,
}

impl View for Supervisor {
    type V = SupervisorView;

    closed spec fn view(&self) -> SupervisorView {
        self.machine@
    }
}

impl Supervisor {
    #[verifier::type_invariant]
    closed spec fn consistent(self) -> bool {
        supervisor_ok(self.machine@)
    }

    /// A supervisor before its first tick.
    pub fn new() -> (s: Supervisor)
        ensures
            s@ == initial_supervisor(),
    {
        proof {
            lemma_initial_ok();
        }
        Supervisor { machine: Machine::new() }
    }

    /// Every supervisor is consistent.
    pub fn check_ok(&self)
        ensures
            supervisor_ok(self@),
    {
        proof {
            use_type_invariant(self);
        }
    }

    /// Whether the supervisor expects that event now.
    pub fn accepts(&self, ev: &Event) -> (b: bool)
        ensures
            b == accepts(self@.phase, *ev),
    {
        self.machine.accepts(ev)
    }

    /// One step: takes the event, updates the supervisor and the shared state
    /// (at most one change of it), and says what to do next.
    pub fn step(&mut self, state: &mut State, event: Event) -> (action: Action)
        requires
            accepts(old(self)@.phase, event),
        ensures
            (final(self)@, final(state)@, action) == transition(old(self)@, old(state)@, event),
            supervisor_ok(final(self)@),
    {
        proof {
            use_type_invariant(&*self);
            lemma_initial_ok();
            lemma_step_keeps_supervisor_ok(self@, state@, event);
        }
        let mut machine = Machine::new();
        std::mem::swap(&mut machine, &mut self.machine);
        let action = machine.step(state, event);
        self.machine = machine;
        action
    }
}

} // verus!
