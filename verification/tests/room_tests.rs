use oxide_eda::engine::room::{match_channel_footprints, strip_channel_suffix, RoomCopyOptions};

#[test]
fn strip_suffix_examples() {
    assert_eq!(strip_channel_suffix("R1_CH2"), "R1");
    assert_eq!(strip_channel_suffix("U1_3"), "U1");
    assert_eq!(strip_channel_suffix("C1"), "C1");
    assert_eq!(strip_channel_suffix("A_B_C"), "A_B");
    assert_eq!(strip_channel_suffix("_X"), "");
}

#[test]
fn channel_footprints_pair_by_base_designator() {
    let sources = vec!["R1_CH1".to_string(), "C1_CH1".to_string(), "Q9_CH1".to_string()];
    let targets = vec![(2usize, "R1_CH2".to_string()), (3usize, "C1_CH2".to_string()), (7usize, "R1_CH9".to_string())];
    assert_eq!(match_channel_footprints(&sources, &targets), vec![Some(7), Some(3), None]);
}

#[test]
fn default_copy_options_copy_everything() {
    let o = RoomCopyOptions::default();
    assert!(o.copy_footprint_placement && o.copy_routing_traces && o.copy_vias && o.copy_zones);
}
