use stemify::flows::{RestoreAction, RestoreEvent, RestoreFlow, RouteAction, RouteEvent, RouteFlow};
use stemify::routing::{device_path, Restore, RouteError};

fn outputs() -> Vec<(String, String)> {
    vec![
        ("{speakers}".to_string(), "Speakers (Realtek)".to_string()),
        ("{cable}".to_string(), "CABLE Input (VB-Audio Virtual Cable)".to_string()),
    ]
}

fn route(flow: &mut RouteFlow, ev: RouteEvent) -> RouteAction {
    assert!(flow.accepts(&ev));
    flow.step(ev)
}

fn restore(flow: &mut RestoreFlow, ev: RestoreEvent) -> RestoreAction {
    assert!(flow.accepts(&ev));
    flow.step(ev)
}

fn failed(a: RouteAction) -> String {
    match a {
        RouteAction::Finish(Err(RouteError::Failed(m))) => m,
        _ => panic!("expected a failure"),
    }
}

#[test]
fn routing_sets_every_role_of_every_audio_process() {
    let (mut f, a) = RouteFlow::new();
    assert!(matches!(a, RouteAction::InitCom));
    assert!(matches!(route(&mut f, RouteEvent::ComReady(Ok(()))), RouteAction::ListOutputs));
    assert!(matches!(route(&mut f, RouteEvent::Outputs(Ok(outputs()))), RouteAction::ListPids));
    assert!(matches!(route(&mut f, RouteEvent::Pids(Ok(vec![10, 11]))), RouteAction::OpenPolicy));
    assert!(matches!(route(&mut f, RouteEvent::PolicyOpened(Ok(()))), RouteAction::AskSessions));
    assert_eq!(f.pids(), &vec![10, 11]);
    assert!(!f.accepts(&RouteEvent::Sessions(vec![true])));
    assert!(matches!(route(&mut f, RouteEvent::Sessions(vec![false, true])), RouteAction::SetRoute { pid: 11, role: 0 }));
    assert_eq!(f.cable_id(), "{cable}");
    assert!(matches!(route(&mut f, RouteEvent::Accepted(false)), RouteAction::SetRoute { pid: 11, role: 1 }));
    match route(&mut f, RouteEvent::Accepted(true)) {
        RouteAction::Finish(Ok(m)) => assert_eq!(m, "routed Spotify to CABLE Input (VB-Audio Virtual Cable)"),
        _ => panic!("expected success"),
    }
    assert!(!f.accepts(&RouteEvent::Accepted(true)));
}

#[test]
fn routing_stops_at_the_first_failed_check() {
    let (mut f, _) = RouteFlow::new();
    assert_eq!(failed(route(&mut f, RouteEvent::ComReady(Err("COM failed".to_string())))), "COM failed");

    let (mut f, _) = RouteFlow::new();
    route(&mut f, RouteEvent::ComReady(Ok(())));
    let speakers = vec![("{s}".to_string(), "Speakers".to_string())];
    assert_eq!(failed(route(&mut f, RouteEvent::Outputs(Ok(speakers)))), "No virtual cable is installed.");

    let (mut f, _) = RouteFlow::new();
    route(&mut f, RouteEvent::ComReady(Ok(())));
    route(&mut f, RouteEvent::Outputs(Ok(outputs())));
    assert_eq!(failed(route(&mut f, RouteEvent::Pids(Ok(vec![])))), "Spotify isn't running.");

    let (mut f, _) = RouteFlow::new();
    route(&mut f, RouteEvent::ComReady(Ok(())));
    route(&mut f, RouteEvent::Outputs(Ok(outputs())));
    route(&mut f, RouteEvent::Pids(Ok(vec![3])));
    assert_eq!(failed(route(&mut f, RouteEvent::PolicyOpened(Err("no policy".to_string())))), "no policy");

    let (mut f, _) = RouteFlow::new();
    route(&mut f, RouteEvent::ComReady(Ok(())));
    route(&mut f, RouteEvent::Outputs(Ok(outputs())));
    route(&mut f, RouteEvent::Pids(Ok(vec![3])));
    route(&mut f, RouteEvent::PolicyOpened(Ok(())));
    assert!(matches!(route(&mut f, RouteEvent::Sessions(vec![false])), RouteAction::Finish(Err(RouteError::NoAudioSession))));
}

#[test]
fn routing_that_windows_refuses_fails() {
    let (mut f, _) = RouteFlow::new();
    route(&mut f, RouteEvent::ComReady(Ok(())));
    route(&mut f, RouteEvent::Outputs(Ok(outputs())));
    route(&mut f, RouteEvent::Pids(Ok(vec![3, 4])));
    route(&mut f, RouteEvent::PolicyOpened(Ok(())));
    assert!(matches!(route(&mut f, RouteEvent::Sessions(vec![true, true])), RouteAction::SetRoute { pid: 3, role: 0 }));
    assert!(matches!(route(&mut f, RouteEvent::Accepted(false)), RouteAction::SetRoute { pid: 3, role: 1 }));
    assert!(matches!(route(&mut f, RouteEvent::Accepted(false)), RouteAction::SetRoute { pid: 4, role: 0 }));
    assert!(matches!(route(&mut f, RouteEvent::Accepted(false)), RouteAction::SetRoute { pid: 4, role: 1 }));
    assert_eq!(failed(route(&mut f, RouteEvent::Accepted(false))), "Windows refused to route Spotify to the cable.");
}

#[test]
fn restoring_clears_only_routings_on_the_cable() {
    let (mut f, a) = RestoreFlow::new(true);
    assert!(matches!(a, RestoreAction::InitCom));
    assert!(matches!(restore(&mut f, RestoreEvent::ComReady(Ok(()))), RestoreAction::ListPids));
    assert!(matches!(restore(&mut f, RestoreEvent::Pids(Ok(vec![1, 2]))), RestoreAction::ListOutputs));
    assert!(matches!(restore(&mut f, RestoreEvent::Outputs(Ok(outputs()))), RestoreAction::OpenPolicy));
    assert!(matches!(restore(&mut f, RestoreEvent::PolicyOpened(Ok(()))), RestoreAction::AskSessions));
    assert_eq!(f.pids(), &vec![1, 2]);
    assert!(matches!(restore(&mut f, RestoreEvent::Sessions(vec![true, true])), RestoreAction::ReadRoute { pid: 1, role: 0 }));
    let on_cable = device_path("{cable}");
    assert!(matches!(restore(&mut f, RestoreEvent::Read(true, on_cable.clone())), RestoreAction::ClearRoute { pid: 1, role: 0 }));
    assert!(matches!(restore(&mut f, RestoreEvent::Cleared(true)), RestoreAction::ReadRoute { pid: 1, role: 1 }));
    assert!(matches!(restore(&mut f, RestoreEvent::Read(false, on_cable.clone())), RestoreAction::ReadRoute { pid: 2, role: 0 }));
    assert!(matches!(restore(&mut f, RestoreEvent::Read(true, device_path("{speakers}"))), RestoreAction::ReadRoute { pid: 2, role: 1 }));
    assert!(matches!(restore(&mut f, RestoreEvent::Read(true, on_cable)), RestoreAction::ClearRoute { pid: 2, role: 1 }));
    assert!(matches!(restore(&mut f, RestoreEvent::Cleared(false)), RestoreAction::Finish(Ok(Restore::Reset(1)))));
}

#[test]
fn restoring_ends_early_when_there_is_nothing_to_check() {
    let (mut f, _) = RestoreFlow::new(true);
    restore(&mut f, RestoreEvent::ComReady(Ok(())));
    assert!(matches!(restore(&mut f, RestoreEvent::Pids(Ok(vec![]))), RestoreAction::Finish(Ok(Restore::SpotifyNotRunning))));

    let (mut f, _) = RestoreFlow::new(true);
    restore(&mut f, RestoreEvent::ComReady(Ok(())));
    restore(&mut f, RestoreEvent::Pids(Ok(vec![1])));
    let speakers = vec![("{s}".to_string(), "Speakers".to_string())];
    assert!(matches!(restore(&mut f, RestoreEvent::Outputs(Ok(speakers))), RestoreAction::Finish(Ok(Restore::NoCable))));

    let (mut f, _) = RestoreFlow::new(true);
    restore(&mut f, RestoreEvent::ComReady(Ok(())));
    restore(&mut f, RestoreEvent::Pids(Ok(vec![1])));
    restore(&mut f, RestoreEvent::Outputs(Ok(outputs())));
    restore(&mut f, RestoreEvent::PolicyOpened(Ok(())));
    assert!(matches!(restore(&mut f, RestoreEvent::Sessions(vec![false])), RestoreAction::Finish(Ok(Restore::NoAudioSession))));

    let (mut f, _) = RestoreFlow::new(true);
    match restore(&mut f, RestoreEvent::ComReady(Err("COM failed".to_string()))) {
        RestoreAction::Finish(Err(m)) => assert_eq!(m, "COM failed"),
        _ => panic!("expected a failure"),
    }
}

#[test]
fn restoring_every_process_skips_the_session_check() {
    let (mut f, _) = RestoreFlow::new(false);
    restore(&mut f, RestoreEvent::ComReady(Ok(())));
    restore(&mut f, RestoreEvent::Pids(Ok(vec![5])));
    restore(&mut f, RestoreEvent::Outputs(Ok(outputs())));
    assert!(matches!(restore(&mut f, RestoreEvent::PolicyOpened(Ok(()))), RestoreAction::ReadRoute { pid: 5, role: 0 }));
    assert!(matches!(restore(&mut f, RestoreEvent::Read(true, String::new())), RestoreAction::ReadRoute { pid: 5, role: 1 }));
    match restore(&mut f, RestoreEvent::Read(false, String::new())) {
        RestoreAction::Finish(Ok(r)) => {
            assert_eq!(r, Restore::NotRouted);
            assert_eq!(r.message(), "Spotify was not routed to the cable");
        }
        _ => panic!("expected an outcome"),
    }
}
