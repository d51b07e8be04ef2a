use stemify::routing::{audio_pids, cable_ids, device_path, find_cable, is_cable_name, is_spotify_exe, path_on_cable, restore_outcome, route_outcome, spotify_running, Restore, RouteError};

fn utf16(s: &str, pad: usize) -> Vec<u16> {
    let mut v: Vec<u16> = s.encode_utf16().collect();
    v.extend(std::iter::repeat(0).take(pad));
    v
}

fn outputs() -> Vec<(String, String)> {
    vec![
        ("{speakers}".to_string(), "Speakers (Realtek Audio)".to_string()),
        ("{cable}".to_string(), "CABLE Input (VB-Audio Virtual Cable)".to_string()),
        ("{cable2}".to_string(), "Cable Input 16ch".to_string()),
    ]
}

#[test]
fn restore_messages() {
    assert_eq!(Restore::SpotifyNotRunning.message(), "Spotify is not running: nothing to restore");
    assert_eq!(Restore::NoCable.message(), "no virtual cable found: nothing to restore");
    assert_eq!(Restore::NoAudioSession.message(), "Spotify has no audio session yet: cannot check its output");
    assert_eq!(Restore::NotRouted.message(), "Spotify was not routed to the cable");
    assert_eq!(Restore::Reset(2).message(), "reset 2 Spotify routing(s) from the cable back to the default device");
    assert_eq!(Restore::Reset(0).message(), "reset 0 Spotify routing(s) from the cable back to the default device");
    assert_eq!(Restore::Reset(1234567).message(), "reset 1234567 Spotify routing(s) from the cable back to the default device");
    assert_eq!(Restore::Reset(usize::MAX).message(), format!("reset {} Spotify routing(s) from the cable back to the default device", usize::MAX));
}

#[test]
fn route_error_messages() {
    assert_eq!(RouteError::NoAudioSession.message(), "Spotify has no audio session yet: start playing something.");
    assert_eq!(RouteError::Failed("boom".to_string()).message(), "boom");
    match RouteError::from("x".to_string()) {
        RouteError::Failed(m) => assert_eq!(m, "x"),
        _ => panic!("wrong variant"),
    }
    match RouteError::from("No virtual cable is installed.") {
        RouteError::Failed(m) => assert_eq!(m, "No virtual cable is installed."),
        _ => panic!("wrong variant"),
    }
}

#[test]
fn running_from_pids() {
    assert_eq!(spotify_running(None), None);
    assert_eq!(spotify_running(Some(vec![])), Some(false));
    assert_eq!(spotify_running(Some(vec![42])), Some(true));
}

#[test]
fn spotify_exe_names() {
    assert!(is_spotify_exe(&utf16("Spotify.exe", 5)));
    assert!(is_spotify_exe(&utf16("SPOTIFY.EXE", 1)));
    assert!(is_spotify_exe(&utf16("spotify.exe", 1)));
    assert!(!is_spotify_exe(&utf16("spotify.ex", 3)));
    assert!(!is_spotify_exe(&utf16("spotify.exe2", 3)));
    assert!(!is_spotify_exe(&utf16("SpotifyHelper.exe", 3)));
    // no NUL at all: the name counts as empty
    assert!(!is_spotify_exe(&utf16("Spotify.exe", 0)));
    assert!(!is_spotify_exe(&[]));
    // non-ASCII look-alikes
    assert!(!is_spotify_exe(&utf16("Spotıfy.exe", 2)));
    // name after the first NUL is ignored
    let mut v = utf16("Spotify.exe", 1);
    v.extend(utf16("junk", 1));
    assert!(is_spotify_exe(&v));
}

#[test]
fn cable_names_and_ids() {
    assert!(is_cable_name("CABLE Input (VB-Audio Virtual Cable)"));
    assert!(is_cable_name("my cable input"));
    assert!(!is_cable_name("CABLE Output"));
    assert!(!is_cable_name("Speakers"));
    let outs = outputs();
    assert_eq!(find_cable(&outs), Some(1));
    assert_eq!(find_cable(&outs[..1].to_vec()), None);
    assert_eq!(cable_ids(&outs), vec!["{cable}".to_string(), "{cable2}".to_string()]);
    assert_eq!(cable_ids(&vec![]), Vec::<String>::new());
}

#[test]
fn device_paths() {
    assert_eq!(
        device_path("{0.0.0.00000000}.{abc}"),
        r"\\?\SWD#MMDEVAPI#{0.0.0.00000000}.{abc}#{e6327cad-dcec-4949-ae8a-991e976a79d2}"
    );
    let ids = vec!["{cable}".to_string()];
    assert!(path_on_cable(&device_path("{cable}"), &ids));
    assert!(!path_on_cable(&device_path("{speakers}"), &ids));
    assert!(!path_on_cable("", &ids));
    assert!(!path_on_cable("anything", &vec![]));
}

#[test]
fn audio_sessions_are_the_answered_pids() {
    assert_eq!(audio_pids(&vec![1, 2, 3], &vec![true, false, true]), vec![1, 3]);
    assert_eq!(audio_pids(&vec![1, 2], &vec![false, false]), Vec::<u32>::new());
}

#[test]
fn route_outcome_needs_an_accepted_routing() {
    assert_eq!(route_outcome(2, "CABLE Input").unwrap(), "routed Spotify to CABLE Input");
    match route_outcome(0, "CABLE Input") {
        Err(RouteError::Failed(m)) => assert_eq!(m, "Windows refused to route Spotify to the cable."),
        _ => panic!(),
    }
}

#[test]
fn restore_outcome_counts_the_resets() {
    assert_eq!(restore_outcome(0), Restore::NotRouted);
    assert_eq!(restore_outcome(3), Restore::Reset(3));
}
