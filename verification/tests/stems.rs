use stemify::stems::{count_ones, mix_plan, needs_separation, stem_name, stem_position, stems_mask, ALL_MASK, STEM_COUNT};

fn names(v: &[&str]) -> Vec<String> {
    v.iter().map(|s| s.to_string()).collect()
}

#[test]
fn stems_mask_sets_the_named_bits() {
    assert_eq!(stems_mask(&names(&["drums"])), 0b000001);
    assert_eq!(stems_mask(&names(&["vocals", "drums", "bass", "guitar", "piano", "other"])), ALL_MASK);
    assert_eq!(stems_mask(&names(&["vocals", "vocals"])), 0b001000);
    assert_eq!(stems_mask(&names(&["Vocals", "flute", ""])), 0);
    assert_eq!(stems_mask(&[]), 0);
    assert_eq!(stems_mask(&names(&["piano", "other"])), 0b100100);
}

#[test]
fn stem_names_in_model_order() {
    let all: Vec<&str> = (0..STEM_COUNT).map(stem_name).collect();
    assert_eq!(all, vec!["drums", "bass", "other", "vocals", "guitar", "piano"]);
    assert_eq!(stem_position("guitar"), Some(4));
    assert_eq!(stem_position("kazoo"), None);
}

#[test]
fn count_ones_counts_all_bits() {
    assert_eq!(count_ones(0), 0);
    assert_eq!(count_ones(ALL_MASK), 6);
    assert_eq!(count_ones(u32::MAX), 32);
    assert_eq!(count_ones(0b1010_0000_0000), 2);
}

#[test]
fn few_stems_are_added_up() {
    let plan = mix_plan(0b001001); // drums + vocals
    assert!(!plan.subtract);
    assert_eq!(plan.stems, vec![0, 3]);
    let plan = mix_plan(0b000111); // exactly half: added up
    assert!(!plan.subtract);
    assert_eq!(plan.stems, vec![0, 1, 2]);
}

#[test]
fn many_stems_are_taken_away() {
    let plan = mix_plan(0b110111); // everything but vocals
    assert!(plan.subtract);
    assert_eq!(plan.stems, vec![3]);
    let plan = mix_plan(ALL_MASK);
    assert!(plan.subtract);
    assert_eq!(plan.stems, Vec::<usize>::new());
}

#[test]
fn separation_only_when_a_stem_is_left_out() {
    assert!(!needs_separation(ALL_MASK));
    assert!(needs_separation(0b011111));
    assert!(needs_separation(0));
}
