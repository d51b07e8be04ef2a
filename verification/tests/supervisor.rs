use stemify::controller::{State, Status};
use stemify::routing::{Restore, RouteError};
use stemify::supervisor::{Action, Event, Supervisor};

fn run(sup: &mut Supervisor, state: &mut State, event: Event) -> Action {
    assert!(sup.accepts(&event));
    let action = sup.step(state, event);
    sup.check_ok();
    action
}

fn on_state() -> State {
    let mut s = State::default();
    s.spotify_connected = true;
    s.set_enabled(true);
    s
}

#[test]
fn disabled_engine_stands_down_and_checks_once_a_second() {
    let mut sup = Supervisor::new();
    let mut st = State::default();
    assert_eq!(run(&mut sup, &mut st, Event::Tick), Action::CheckRunning);
    assert_eq!(run(&mut sup, &mut st, Event::Running(Some(true))), Action::DropPipeline);
    assert!(st.spotify_connected);
    assert_eq!(run(&mut sup, &mut st, Event::Done), Action::Sleep);
    assert_eq!(st.status, Status::Off);
    // ticks 2..4: no check
    for _ in 2..5 {
        assert_eq!(run(&mut sup, &mut st, Event::Tick), Action::CheckRunning);
        assert_eq!(run(&mut sup, &mut st, Event::Running(Some(true))), Action::DropPipeline);
        assert_eq!(run(&mut sup, &mut st, Event::Done), Action::Sleep);
    }
    // tick 5: look for a routing left behind
    assert_eq!(run(&mut sup, &mut st, Event::Tick), Action::CheckRunning);
    assert_eq!(run(&mut sup, &mut st, Event::Running(Some(true))), Action::DropPipeline);
    assert_eq!(run(&mut sup, &mut st, Event::Done), Action::Restore);
    assert_eq!(run(&mut sup, &mut st, Event::Restored(Ok(Restore::NotRouted))), Action::Sleep);
    assert_eq!(st.status, Status::Off);
    // tick 10: settled, no more checks
    for _ in 6..11 {
        assert_eq!(run(&mut sup, &mut st, Event::Tick), Action::CheckRunning);
        assert_eq!(run(&mut sup, &mut st, Event::Running(Some(true))), Action::DropPipeline);
        assert_eq!(run(&mut sup, &mut st, Event::Done), Action::Sleep);
    }
}

#[test]
fn a_check_without_audio_session_is_repeated() {
    let mut sup = Supervisor::new();
    let mut st = State::default();
    for _ in 0..4 {
        run(&mut sup, &mut st, Event::Tick);
        run(&mut sup, &mut st, Event::Running(Some(true)));
        run(&mut sup, &mut st, Event::Done);
    }
    run(&mut sup, &mut st, Event::Tick);
    run(&mut sup, &mut st, Event::Running(Some(true)));
    assert_eq!(run(&mut sup, &mut st, Event::Done), Action::Restore);
    assert_eq!(run(&mut sup, &mut st, Event::Restored(Ok(Restore::NoAudioSession))), Action::Sleep);
    for _ in 0..4 {
        run(&mut sup, &mut st, Event::Tick);
        run(&mut sup, &mut st, Event::Running(Some(true)));
        run(&mut sup, &mut st, Event::Done);
    }
    run(&mut sup, &mut st, Event::Tick);
    run(&mut sup, &mut st, Event::Running(Some(true)));
    assert_eq!(run(&mut sup, &mut st, Event::Done), Action::Restore);
    assert_eq!(run(&mut sup, &mut st, Event::Restored(Err("x".to_string()))), Action::Sleep);
}

#[test]
fn unknown_process_list_changes_nothing() {
    let mut sup = Supervisor::new();
    let mut st = on_state();
    run(&mut sup, &mut st, Event::Tick);
    assert_eq!(run(&mut sup, &mut st, Event::Running(None)), Action::Sleep);
    assert_eq!(st.status, Status::Loading);
}

#[test]
fn enabled_with_shift_starts_routes_and_is_ready() {
    let mut sup = Supervisor::new();
    let mut st = on_state();
    st.set_pitch(3);
    assert_eq!(run(&mut sup, &mut st, Event::Tick), Action::CheckRunning);
    assert_eq!(run(&mut sup, &mut st, Event::Running(Some(true))), Action::Continue);
    assert_eq!(run(&mut sup, &mut st, Event::Done), Action::StartPipeline(3));
    assert_eq!(st.status, Status::Loading);
    assert_eq!(run(&mut sup, &mut st, Event::PipelineStarted(Ok(()))), Action::Route);
    assert_eq!(run(&mut sup, &mut st, Event::Routed(Ok("routed".to_string()))), Action::Sleep);
    assert_eq!(st.status, Status::Ready);
    // next tick: the pipeline takes the (new) shift, no new routing
    st.set_pitch(-2);
    run(&mut sup, &mut st, Event::Tick);
    assert_eq!(run(&mut sup, &mut st, Event::Running(Some(true))), Action::SetSemitones(-2));
    assert_eq!(run(&mut sup, &mut st, Event::Done), Action::Sleep);
    assert_eq!(st.status, Status::Ready);
    // shift back to zero: Spotify is put back, the pipeline dropped, Idle shown
    st.set_pitch(0);
    run(&mut sup, &mut st, Event::Tick);
    assert_eq!(run(&mut sup, &mut st, Event::Running(Some(true))), Action::Restore);
    assert_eq!(run(&mut sup, &mut st, Event::Restored(Ok(Restore::Reset(2)))), Action::DropPipeline);
    assert_eq!(run(&mut sup, &mut st, Event::Done), Action::Sleep);
    assert_eq!(st.status, Status::Idle);
}

#[test]
fn no_audio_session_shows_waiting_and_retries() {
    let mut sup = Supervisor::new();
    let mut st = on_state();
    st.set_pitch(1);
    run(&mut sup, &mut st, Event::Tick);
    run(&mut sup, &mut st, Event::Running(Some(true)));
    run(&mut sup, &mut st, Event::Done);
    assert_eq!(run(&mut sup, &mut st, Event::PipelineStarted(Ok(()))), Action::Route);
    assert_eq!(run(&mut sup, &mut st, Event::Routed(Err(RouteError::NoAudioSession))), Action::Sleep);
    assert_eq!(st.status, Status::Waiting);
    run(&mut sup, &mut st, Event::Tick);
    assert_eq!(run(&mut sup, &mut st, Event::Running(Some(true))), Action::SetSemitones(1));
    assert_eq!(run(&mut sup, &mut st, Event::Done), Action::Route);
}

#[test]
fn failed_start_switches_off_with_the_message() {
    let mut sup = Supervisor::new();
    let mut st = on_state();
    st.set_pitch(4);
    run(&mut sup, &mut st, Event::Tick);
    run(&mut sup, &mut st, Event::Running(Some(true)));
    run(&mut sup, &mut st, Event::Done);
    assert_eq!(
        run(&mut sup, &mut st, Event::PipelineStarted(Err("No virtual cable is installed.".to_string()))),
        Action::DropPipeline
    );
    assert_eq!(st.status, Status::Loading);
    assert_eq!(run(&mut sup, &mut st, Event::Done), Action::Sleep);
    assert!(!st.enabled);
    assert_eq!(st.status, Status::Off);
    assert_eq!(st.error, Some("No virtual cable is installed.".to_string()));
}

#[test]
fn failed_route_drops_the_pipeline_and_switches_off() {
    let mut sup = Supervisor::new();
    let mut st = on_state();
    st.set_pitch(4);
    run(&mut sup, &mut st, Event::Tick);
    run(&mut sup, &mut st, Event::Running(Some(true)));
    run(&mut sup, &mut st, Event::Done);
    run(&mut sup, &mut st, Event::PipelineStarted(Ok(())));
    assert_eq!(
        run(&mut sup, &mut st, Event::Routed(Err(RouteError::Failed("refused".to_string())))),
        Action::DropPipeline
    );
    assert_eq!(run(&mut sup, &mut st, Event::Done), Action::Sleep);
    assert_eq!(st.error, Some("refused".to_string()));
    assert!(!st.enabled);
    // the next tick does not start anything: the engine is off
    run(&mut sup, &mut st, Event::Tick);
    assert_eq!(run(&mut sup, &mut st, Event::Running(Some(true))), Action::DropPipeline);
}

#[test]
fn spotify_quitting_resets_the_state() {
    let mut sup = Supervisor::new();
    let mut st = on_state();
    st.set_pitch(2);
    run(&mut sup, &mut st, Event::Tick);
    run(&mut sup, &mut st, Event::Running(Some(true)));
    run(&mut sup, &mut st, Event::Done);
    run(&mut sup, &mut st, Event::PipelineStarted(Ok(())));
    run(&mut sup, &mut st, Event::Routed(Ok(String::new())));
    for _ in 0..14 {
        run(&mut sup, &mut st, Event::Tick);
        assert_eq!(run(&mut sup, &mut st, Event::Running(Some(false))), Action::SetSemitones(2));
        assert_eq!(run(&mut sup, &mut st, Event::Done), Action::Sleep);
        assert!(st.spotify_connected);
    }
    run(&mut sup, &mut st, Event::Tick);
    assert_eq!(run(&mut sup, &mut st, Event::Running(Some(false))), Action::DropPipeline);
    assert_eq!(run(&mut sup, &mut st, Event::Done), Action::Sleep);
    assert!(!st.enabled);
    assert!(!st.spotify_connected);
    assert_eq!(st.status, Status::Off);
    assert_eq!(st.error, None);
    assert_eq!(st.semitones, 2);
    // before Spotify is seen again, a miss waits
    run(&mut sup, &mut st, Event::Tick);
    assert_eq!(run(&mut sup, &mut st, Event::Running(Some(false))), Action::DropPipeline);
    assert!(!st.spotify_connected);
}

#[test]
fn stopping_restores_then_drops_then_exits() {
    let mut sup = Supervisor::new();
    let mut st = State::default();
    assert!(!sup.accepts(&Event::Done));
    assert_eq!(run(&mut sup, &mut st, Event::Stop), Action::Restore);
    assert!(!sup.accepts(&Event::Tick));
    assert_eq!(run(&mut sup, &mut st, Event::Restored(Err("no com".to_string()))), Action::DropPipeline);
    assert_eq!(run(&mut sup, &mut st, Event::Done), Action::Exit);
    assert!(!sup.accepts(&Event::Done));
    assert!(!sup.accepts(&Event::Tick));
}
