use stemify::backend::EngineState;
use stemify::controller::{State, Status};

fn names(v: &[&str]) -> Vec<String> {
    v.iter().map(|s| s.to_string()).collect()
}

#[test]
fn state_starts_off_with_every_stem() {
    let s = State::default();
    assert!(!s.enabled);
    assert_eq!(s.semitones, 0);
    assert_eq!(s.stems, names(&["vocals", "drums", "bass", "guitar", "piano", "other"]));
    assert_eq!(s.status, Status::Off);
    assert!(!s.spotify_connected);
    assert_eq!(s.error, None);
}

#[test]
fn switching_on_needs_spotify() {
    let mut s = State::default();
    s.set_enabled(true);
    assert!(!s.enabled);
    assert_eq!(s.status, Status::Off);
    s.spotify_connected = true;
    s.error = Some("old".to_string());
    s.set_enabled(true);
    assert!(s.enabled);
    assert_eq!(s.status, Status::Loading);
    assert_eq!(s.error, None);
}

#[test]
fn switching_on_twice_changes_nothing() {
    let mut s = State::default();
    s.spotify_connected = true;
    s.set_enabled(true);
    s.status = Status::Ready;
    s.set_enabled(true);
    assert_eq!(s.status, Status::Ready);
}

#[test]
fn switching_off_keeps_the_error() {
    let mut s = State::default();
    s.enabled = true;
    s.status = Status::Ready;
    s.error = Some("x".to_string());
    s.set_enabled(false);
    assert!(!s.enabled);
    assert_eq!(s.status, Status::Off);
    assert_eq!(s.error, Some("x".to_string()));
}

#[test]
fn pitch_is_clamped() {
    let mut s = State::default();
    s.set_pitch(5);
    assert_eq!(s.semitones, 5);
    s.set_pitch(-40);
    assert_eq!(s.semitones, -12);
    s.set_pitch(13);
    assert_eq!(s.semitones, 12);
    s.set_pitch(i32::MIN);
    assert_eq!(s.semitones, -12);
    s.set_pitch(-12);
    assert_eq!(s.semitones, -12);
}

#[test]
fn stems_are_replaced() {
    let mut s = State::default();
    s.set_stems(names(&["vocals"]));
    assert_eq!(s.stems, names(&["vocals"]));
}

#[test]
fn same_compares_every_field() {
    let a = State::default();
    let mut b = State::default();
    assert!(a.same(&b));
    b.set_pitch(1);
    assert!(!a.same(&b));
    let mut c = State::default();
    c.stems[5] = "others".to_string();
    assert!(!a.same(&c));
    let mut d = State::default();
    d.error = Some(String::new());
    assert!(!a.same(&d));
    let mut e = State::default();
    e.stems.pop();
    assert!(!a.same(&e));
}

#[test]
fn backend_state_shows_loading_then_ready() {
    let mut s = EngineState::default();
    assert_eq!(s.status, "off");
    assert_eq!(s.stems.len(), 6);
    s.set_enabled(true);
    assert_eq!(s.status, "loading");
    assert!(s.settle());
    assert_eq!(s.status, "ready");
    assert!(!s.settle());
    s.set_pitch(20);
    assert_eq!(s.semitones, 12);
    assert_eq!(s.status, "loading");
    s.set_enabled(false);
    assert_eq!(s.status, "off");
    assert!(!s.settle());
    assert_eq!(s.status, "off");
    s.set_stems(names(&["bass"]));
    assert_eq!(s.status, "off");
    assert_eq!(s.stems, names(&["bass"]));
}
