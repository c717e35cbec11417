use scanlog::event_stream::{parse_event_line, parse_event_lines};

#[test]
fn group_call_line_parses_every_field() {
    let line = "2025/09/09 18:39:20 Freq=153.450000 NAC=293 Group call; TG=2 RID=4506 Pri0 7s";
    let r = parse_event_line(line, 1, Some(0)).unwrap().unwrap();
    assert_eq!(r.record_number, 1);
    assert_eq!(r.datetime.local.year, 2025);
    assert_eq!(r.datetime.local.month, 9);
    assert_eq!(r.datetime.local.day, 9);
    assert_eq!(r.datetime.local.hour, 18);
    assert_eq!(r.datetime.local.minute, 39);
    assert_eq!(r.datetime.local.second, 20);
    assert_eq!(r.datetime.offset_seconds, 0);
    assert_eq!(r.frequency.as_deref(), Some("153.450000"));
    assert_eq!(r.radio_type.as_deref(), Some("P25p1"));
    assert_eq!(r.dcc.as_deref(), Some("293"));
    assert_eq!(r.slot1.tg.as_deref(), Some("2"));
    assert_eq!(r.slot1.rid.as_deref(), Some("4506"));
    assert_eq!(r.slot1.text, None);
    assert_eq!(r.slot2.tg, None);
    assert_eq!(r.slot2.rid, None);
    assert_eq!(r.duration, 7);
}

#[test]
fn non_call_lines_are_skipped() {
    assert!(parse_event_line("", 1, Some(0)).unwrap().is_none());
    assert!(parse_event_line("   ", 1, Some(0)).unwrap().is_none());
    let noise = "2025/09/09 18:39:20 Freq=153.450000 NAC=293 Data burst";
    assert!(parse_event_line(noise, 1, Some(0)).unwrap().is_none());
}

#[test]
fn bad_datetime_line_is_skipped() {
    let line = "2025/13/40 18:39:20 Freq=1.0 NAC=1 Group call; TG=2 RID=3 2s";
    assert!(parse_event_line(line, 1, Some(0)).unwrap().is_none());
    let line2 = "2025-09-09 18:39:20 Freq=1.0 NAC=1 Group call; TG=2 RID=3 2s";
    assert!(parse_event_line(line2, 1, Some(0)).unwrap().is_none());
}

#[test]
fn duration_defaults_to_one() {
    let line = "2025/09/09 18:39:20 Freq=153.450000 NAC=293 Group call; TG=2 RID=4506";
    let r = parse_event_line(line, 1, Some(0)).unwrap().unwrap();
    assert_eq!(r.duration, 1);
    // A zero-second token is floored at one unit.
    let line0 = "2025/09/09 18:39:20 Freq=153.450000 NAC=293 Group call; TG=2 RID=4506 0s";
    let r0 = parse_event_line(line0, 1, Some(0)).unwrap().unwrap();
    assert_eq!(r0.duration, 1);
}

#[test]
fn dmr_line_fills_slot_by_number() {
    let line = "2025/09/09 08:00:00 Freq=425.262500 DCC=5 Group call; Slot=2 TG=9 RID=77 3s";
    let r = parse_event_line(line, 4, Some(-3600)).unwrap().unwrap();
    assert_eq!(r.radio_type.as_deref(), Some("DMR"));
    assert_eq!(r.dcc.as_deref(), Some("5"));
    assert_eq!(r.slot1.tg, None);
    assert_eq!(r.slot1.rid, None);
    assert_eq!(r.slot2.tg.as_deref(), Some("9"));
    assert_eq!(r.slot2.rid.as_deref(), Some("77"));
    assert_eq!(r.datetime.offset_seconds, -3600);
}

#[test]
fn nac_preferred_over_dcc_on_event_lines() {
    let line = "2025/09/09 08:00:00 Freq=1.0 DCC=5 NAC=293 Group call; TG=2 2s";
    let r = parse_event_line(line, 1, Some(0)).unwrap().unwrap();
    assert_eq!(r.dcc.as_deref(), Some("293"));
    assert_eq!(r.radio_type.as_deref(), Some("P25p1"));
}

#[test]
fn bom_is_stripped_before_parsing() {
    let line = "\u{feff}2025/09/09 18:39:20 Freq=1.5 NAC=1 Group call; TG=2 2s";
    let r = parse_event_line(line, 1, Some(0)).unwrap().unwrap();
    assert_eq!(r.frequency.as_deref(), Some("1.500000"));
}

#[test]
fn record_numbers_count_accepted_lines_only() {
    let lines: Vec<String> = vec![
        "junk".to_string(),
        "2025/09/09 18:39:20 Freq=1.0 NAC=1 Group call; TG=2 2s".to_string(),
        "more junk".to_string(),
        "2025/09/09 18:39:25 Freq=2.0 NAC=1 Group call; TG=3 2s".to_string(),
    ];
    let out = parse_event_lines(&lines, Some(0));
    assert_eq!(out.len(), 2);
    assert_eq!(out[0].record_number, 1);
    assert_eq!(out[1].record_number, 2);
}

#[test]
fn system_zone_resolution_yields_a_bounded_offset() {
    let line = "2025/09/09 18:39:20 Freq=153.450000 NAC=293 Group call; TG=2 RID=4506 7s";
    let r = parse_event_line(line, 1, None).unwrap().unwrap();
    assert!(-86400 < r.datetime.offset_seconds && r.datetime.offset_seconds < 86400);
    assert_eq!(r.frequency.as_deref(), Some("153.450000"));
}
