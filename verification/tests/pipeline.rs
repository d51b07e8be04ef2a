use std::collections::VecDeque;
use stemify::pipeline::{on_report, Startup, THREADS, block_bounds, block_parts, buffer_plan, check_output, chunk_frames, copy_range, fill_output, healthy, is_late, push_frames, push_ring, split_channels, start_cable, stereo_from_planes, swallow, window_offset, History, BLOCK_FRAMES, CH, CUSHION, HOP, KEEP_FRAMES, NEED, RB_CHUNK, WIN, XFADE};

#[test]
fn buffer_plans() {
    let w = buffer_plan(true);
    assert_eq!((w.arm_frames, w.cushion_frames, w.max_ring_frames, w.trim_ring_frames), (10584, 11025, 110250, 28665));
    let s = buffer_plan(false);
    assert_eq!((s.arm_frames, s.cushion_frames, s.max_ring_frames, s.trim_ring_frames), (4410, 0, 17640, 6615));
    assert!(w.trim_ring_frames < w.max_ring_frames && s.trim_ring_frames < s.max_ring_frames);
    assert_eq!((HOP, XFADE, CUSHION, KEEP_FRAMES, NEED, BLOCK_FRAMES), (17640, 2205, 11025, 476280, 63945, 19845));
}

#[test]
fn ring_keeps_order_and_trims_oldest() {
    let mut ring: VecDeque<i32> = VecDeque::new();
    push_ring(&mut ring, vec![1, 2, 3], 5, 2);
    assert_eq!(ring, VecDeque::from(vec![1, 2, 3]));
    push_ring(&mut ring, vec![4, 5], 5, 2);
    assert_eq!(ring, VecDeque::from(vec![1, 2, 3, 4, 5]));
    push_ring(&mut ring, vec![6], 5, 2);
    assert_eq!(ring, VecDeque::from(vec![5, 6]));
}

#[test]
fn output_waits_for_arming_then_plays_in_order() {
    let mut ring: VecDeque<f32> = VecDeque::from(vec![1.0, 2.0]);
    let mut armed = false;
    let (out, dry) = fill_output(&mut ring, &mut armed, 3, 0.0, 4, 2);
    assert_eq!((out, dry, armed), (vec![0.0, 0.0, 0.0], false, false));
    ring.extend([3.0, 4.0]);
    let (out, dry) = fill_output(&mut ring, &mut armed, 3, 0.0, 4, 2);
    // armed: two samples of cushion first
    assert_eq!((out, dry, armed), (vec![0.0, 0.0, 1.0], false, true));
    assert_eq!(ring, VecDeque::from(vec![2.0, 3.0, 4.0]));
    let (out, dry) = fill_output(&mut ring, &mut armed, 5, 0.0, 4, 2);
    assert_eq!((out, dry, armed), (vec![2.0, 3.0, 4.0, 0.0, 0.0], true, false));
    assert!(ring.is_empty());
}

#[test]
fn history_keeps_the_latest_frames() {
    let mut h: History<i32> = History::new();
    assert_eq!(h.total(), 0);
    assert_eq!(h.read_since(0), None);
    h.record(vec![1, 2, 3, 4]);
    assert_eq!(h.total(), 2);
    assert_eq!(h.read_since(0), Some(vec![1, 2, 3, 4]));
    assert_eq!(h.read_since(1), Some(vec![3, 4]));
    assert_eq!(h.read_since(2), None);
    assert_eq!(h.block(1, 3, 0), vec![3, 4, 0, 0, 0, 0]);
    assert_eq!(h.window(2, 3, 0), vec![0, 1, 3, 0, 2, 4]);
    h.check_ok();
}

#[test]
fn history_drops_frames_beyond_the_limit() {
    let mut h: History<u8> = History::new();
    let frames = KEEP_FRAMES + 3;
    let samples: Vec<u8> = (0..frames * CH).map(|i| (i % 251) as u8).collect();
    h.record(samples.clone());
    assert_eq!(h.total(), frames as u64);
    // frame 0..3 dropped: reading from 0 starts at the oldest kept frame
    let kept = h.read_since(0).unwrap();
    assert_eq!(kept.len(), KEEP_FRAMES * CH);
    assert_eq!(kept[..], samples[3 * CH..]);
    assert_eq!(h.block(2, 2, 255), vec![255, 255, samples[6], samples[7]]);
}

#[test]
fn block_layout_helpers() {
    assert_eq!(block_bounds(100, 2), (100 + 2 * HOP as u64, 100 + 2 * HOP as u64 + NEED as u64));
    assert!(!is_late(1000, 1000));
    assert!(!is_late(1000 + HOP as u64, 1000));
    assert!(is_late(1001 + HOP as u64, 1000));
    assert_eq!(window_offset(10, 10 + NEED as u64), WIN - NEED);
    let planar = vec![1, 2, 3, 4, 5, 6, 7, 8, 9, 10, 11, 12];
    // planes of 3: [1,2,3] [4,5,6] [7,8,9] [10,11,12]
    assert_eq!(stereo_from_planes(&planar, 0, 3, 1, 2), vec![2, 5, 3, 6]);
    assert_eq!(stereo_from_planes(&planar, 2, 3, 0, 3), vec![7, 10, 8, 11, 9, 12]);
    let (l, r) = split_channels(&[1, 2, 3, 4, 5, 6], 1, 2);
    assert_eq!((l.clone(), r.clone()), (vec![3, 5], vec![4, 6]));
    let mut out = vec![0];
    push_frames(&mut out, &l, &r, 1, 2);
    assert_eq!(out, vec![0, 5, 6]);
    assert_eq!(swallow(5, 3), (3, 2));
    assert_eq!(swallow(2, 3), (2, 0));
    assert_eq!(chunk_frames(10_000, 0), RB_CHUNK);
    assert_eq!(chunk_frames(10_000, 9_000), 1000);
    let block: Vec<u32> = (0..(BLOCK_FRAMES * CH) as u32).collect();
    let (head, body, tail) = block_parts(&block);
    assert_eq!(head.len(), XFADE * CH);
    assert_eq!(body[0], (XFADE * CH) as u32);
    assert_eq!(body.len(), (HOP - XFADE) * CH);
    assert_eq!(tail[0], (HOP * CH) as u32);
    assert_eq!(tail.len(), XFADE * CH);
    assert_eq!(copy_range(&vec![1, 2, 3], 1, 3), vec![2, 3]);
}

#[test]
fn starting_checks_the_devices() {
    let outs = vec![
        ("{spk}".to_string(), "Speakers".to_string()),
        ("{cab}".to_string(), "CABLE Input".to_string()),
    ];
    assert_eq!(start_cable(&outs), Ok(1));
    assert_eq!(start_cable(&outs[..1].to_vec()), Err("No virtual cable is installed.".to_string()));
    assert_eq!(check_output("{spk}", "{cab}"), Ok(()));
    assert_eq!(
        check_output("{cab}", "{cab}"),
        Err("The default output device is the virtual cable. Choose your speakers or headphones as the Windows default output.".to_string())
    );
    assert!(healthy(true, Some("{spk}"), "{spk}"));
    assert!(!healthy(true, Some("{cab}"), "{spk}"));
    assert!(!healthy(false, Some("{spk}"), "{spk}"));
    assert!(!healthy(true, None, "{spk}"));
}

#[test]
fn starting_waits_for_every_thread() {
    assert!(matches!(on_report(0, Some(Ok(()))), Startup::Waiting(1)));
    assert!(matches!(on_report(1, Some(Ok(()))), Startup::Waiting(2)));
    assert!(matches!(on_report(2, Some(Ok(()))), Startup::Started));
    assert_eq!(THREADS, 3);
    match on_report(1, Some(Err("Could not listen to the virtual cable: x".to_string()))) {
        Startup::Failed(m) => assert_eq!(m, "Could not listen to the virtual cable: x"),
        _ => panic!("expected a failure"),
    }
    match on_report(0, None) {
        Startup::Failed(m) => assert_eq!(m, "Timed out starting the audio."),
        _ => panic!("expected a failure"),
    }
}
