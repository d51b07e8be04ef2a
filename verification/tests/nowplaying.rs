use stemify::nowplaying::{art_data_uri, current, is_spotify_session, Track};

#[test]
fn art_becomes_a_data_uri() {
    assert_eq!(art_data_uri("image/jpeg", b"Man"), "data:image/jpeg;base64,TWFu");
    assert_eq!(art_data_uri("image/png", b"Ma"), "data:image/png;base64,TWE=");
    assert_eq!(art_data_uri("", b""), "data:;base64,");
    assert_eq!(art_data_uri("a", b"M"), "data:a;base64,TQ==");
    assert_eq!(art_data_uri("a", &[0xff, 0xfe, 0xfd, 0x00, 0x10, 0x83]), "data:a;base64,//79ABCD");
}

#[test]
fn spotify_sessions_are_found() {
    assert!(is_spotify_session("Spotify.exe"));
    assert!(is_spotify_session("SpotifyAB.SpotifyMusic_zpdnekdrzrea0!Spotify"));
    assert!(!is_spotify_session("Chrome"));
}

#[test]
fn current_track_ignores_errors() {
    let t = Track { title: "Song".to_string(), artist: "Band".to_string(), art: None };
    assert_eq!(current::<String>(Ok(Some(t.clone()))), Some(t));
    assert_eq!(current::<String>(Ok(None)), None);
    assert_eq!(current(Err("failed".to_string())), None);
    assert_eq!(Track::default(), Track { title: String::new(), artist: String::new(), art: None });
}
