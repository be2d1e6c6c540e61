use vanling::matcha::{rule_fst_list, PacketFlags};

#[test]
fn rule_files_go_phone_date_number_then_the_rest() {
    let files = vec![
        "m/number.fst".to_string(),
        "m/other.fst".to_string(),
        "m/phone.fst".to_string(),
        "m/date.fst".to_string(),
    ];
    assert_eq!(
        rule_fst_list(&files),
        Some("m/phone.fst,m/date.fst,m/number.fst,m/other.fst".to_string())
    );
}

#[test]
fn rule_files_keep_their_order_within_a_rank() {
    let files = vec!["x.fst".to_string(), "b_number.fst".to_string(), "y.fst".to_string()];
    assert_eq!(rule_fst_list(&files), Some("b_number.fst,x.fst,y.fst".to_string()));
    assert_eq!(rule_fst_list(&Vec::new()), None);
}

#[test]
fn packet_flags_mark_the_first_and_the_flushed_packets() {
    let mut quiet = PacketFlags::new();
    assert_eq!(quiet.flush_frame(0), (true, true));
    assert_eq!(quiet.flush_frame(1), (false, true));
    let mut spoken = PacketFlags::new();
    assert_eq!(spoken.stream_frame(), (true, false));
    assert_eq!(spoken.stream_frame(), (false, false));
    assert_eq!(spoken.flush_frame(0), (false, true));
}
