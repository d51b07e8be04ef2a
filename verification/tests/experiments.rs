use stemify::experiments::{arg, cable_samples, find_device, find_id, mix_name, parse_mix, route_target, stems_in, RouteTarget, ALL, BACKING, MAX_DEPTH_MS, PREBUFFER_MS, TRIM_TO_MS};

#[test]
fn mixes_are_read() {
    assert_eq!(parse_mix("vocals"), Some(0b001000));
    assert_eq!(parse_mix(" Drums , BASS "), Some(0b000011));
    assert_eq!(parse_mix("backing"), Some(BACKING));
    assert_eq!(parse_mix("backing,vocals"), Some(0b111111));
    assert_eq!(parse_mix("all"), Some(ALL));
    assert_eq!(parse_mix("drums,all,nonsense"), Some(ALL));
    assert_eq!(parse_mix("drums,flute"), None);
    assert_eq!(parse_mix(""), None);
    assert_eq!(parse_mix(" , ,"), None);
    assert_eq!(parse_mix("piano,,"), Some(0b100000));
}

#[test]
fn mixes_are_named() {
    assert_eq!(mix_name(ALL), "all");
    assert_eq!(mix_name(ALL | 1), "all");
    assert_eq!(mix_name(BACKING), "drums+bass+other+guitar+piano");
    assert_eq!(mix_name(0b001000), "vocals");
    assert_eq!(mix_name(0), "");
}

#[test]
fn options_are_found() {
    let args: Vec<String> = ["prog", "--secs", "30", "--out", "--secs", "5"].iter().map(|s| s.to_string()).collect();
    assert_eq!(arg(&args, "--secs"), Some("30".to_string()));
    assert_eq!(arg(&args, "--out"), Some("--secs".to_string()));
    assert_eq!(arg(&args, "--mix"), None);
    let last: Vec<String> = ["prog", "--mix"].iter().map(|s| s.to_string()).collect();
    assert_eq!(arg(&last, "--mix"), None);
}

#[test]
fn persisted_paths_are_told_apart() {
    let devices = vec![("{a}".to_string(), "A".to_string()), ("{b}".to_string(), "B".to_string())];
    assert_eq!(route_target("", &devices), RouteTarget::DefaultDevice);
    assert_eq!(route_target("x#{b}#y", &devices), RouteTarget::Device(1));
    assert_eq!(route_target("x#{c}#y", &devices), RouteTarget::Unlisted);
}

#[test]
fn experiment_mixes_add_stems() {
    assert_eq!(stems_in(BACKING), vec![0, 1, 2, 4, 5]);
    assert_eq!(stems_in(ALL), Vec::<usize>::new());
    assert_eq!(cable_samples(PREBUFFER_MS), 9600);
    assert_eq!(cable_samples(MAX_DEPTH_MS), 38400);
    assert_eq!(cable_samples(TRIM_TO_MS), 14400);
}

fn devices() -> Vec<(String, String)> {
    vec![
        ("{0.0.0.1}".to_string(), "Speakers (Realtek Audio)".to_string()),
        ("{0.0.0.2}".to_string(), "CABLE Input (VB-Audio Virtual Cable)".to_string()),
        ("{0.0.0.3}".to_string(), "Headphones (Cable Input Adapter)".to_string()),
    ]
}

#[test]
fn devices_are_found_by_name_ignoring_case() {
    let d = devices();
    assert_eq!(find_device(&d, "CABLE Input"), Some(1));
    assert_eq!(find_device(&d, "cable input"), Some(1));
    assert_eq!(find_device(&d, "speak"), Some(0));
    assert_eq!(find_device(&d, "HEADPHONES"), Some(2));
    assert_eq!(find_device(&d, "monitor"), None);
    assert_eq!(find_device(&d, ""), Some(0));
    assert_eq!(find_device(&Vec::new(), "cable"), None);
}

#[test]
fn devices_are_found_by_exact_id() {
    let d = devices();
    assert_eq!(find_id(&d, "{0.0.0.2}"), Some(1));
    assert_eq!(find_id(&d, "{0.0.0.3}"), Some(2));
    assert_eq!(find_id(&d, "{0.0.0.2"), None);
    assert_eq!(find_id(&d, ""), None);
}

#[test]
fn mix_names_read_back() {
    for m in 1u32..64 {
        assert_eq!(parse_mix(&mix_name(m).replace('+', ",")), Some(m), "mask {m:#b}");
    }
    assert_eq!(mix_name(0b110111), "drums+bass+other+guitar+piano");
}
