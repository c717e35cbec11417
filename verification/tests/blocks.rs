use scanlog::rle_filter::rle_compress;
use scanlog::srt_stream::{parse_blocks, parse_freq_type_dcc, parse_tg_rid};

fn block_lines() -> Vec<String> {
    vec![
        "1".to_string(),
        "00:00:00,000 --> 00:00:02,000".to_string(),
        "2025/09/09 18:39:20".to_string(),
        "153.450000  +P25p1  NAC=293".to_string(),
        "TG=2 RID=4506".to_string(),
        "".to_string(),
        "2".to_string(),
        "00:00:02,000 --> 00:00:04,000".to_string(),
        "2025/09/09 18:39:22".to_string(),
        "153.450000  +P25p1  NAC=293".to_string(),
        "TG=2 RID=4506".to_string(),
        "".to_string(),
    ]
}

#[test]
fn well_formed_block_reproduces_every_field() {
    let out = parse_blocks(&block_lines(), Some(0));
    assert_eq!(out.len(), 2);
    let r = &out[0];
    assert_eq!(r.record_number, 1);
    assert_eq!(r.datetime.local.hour, 18);
    assert_eq!(r.datetime.local.minute, 39);
    assert_eq!(r.datetime.local.second, 20);
    assert_eq!(r.frequency.as_deref(), Some("153.450000"));
    assert_eq!(r.radio_type.as_deref(), Some("P25p1"));
    assert_eq!(r.dcc.as_deref(), Some("293"));
    assert_eq!(r.slot1.tg.as_deref(), Some("2"));
    assert_eq!(r.slot1.rid.as_deref(), Some("4506"));
    assert_eq!(r.duration, 1);
    assert_eq!(out[1].record_number, 2);
}

#[test]
fn adjacent_identical_blocks_consolidate_to_duration_two() {
    let parsed = parse_blocks(&block_lines(), Some(0));
    let out = rle_compress(parsed);
    assert_eq!(out.len(), 1);
    let r = &out[0];
    assert_eq!(r.duration, 2);
    // The run keeps the first record's number and timestamp.
    assert_eq!(r.record_number, 1);
    assert_eq!(r.datetime.local.second, 20);
}

#[test]
fn malformed_date_drops_exactly_that_block() {
    let mut lines = block_lines();
    lines[2] = "2025/09/XX 18:39:20".to_string();
    let out = parse_blocks(&lines, Some(0));
    assert_eq!(out.len(), 1);
    assert_eq!(out[0].record_number, 2);
    assert_eq!(out[0].datetime.local.second, 22);
}

#[test]
fn unparsable_index_reads_as_zero() {
    let mut lines = block_lines();
    lines[0] = "first".to_string();
    let out = parse_blocks(&lines, Some(0));
    assert_eq!(out.len(), 2);
    assert_eq!(out[0].record_number, 0);
}

#[test]
fn slot_lines_assign_by_number() {
    let lines: Vec<String> = vec![
        "7".to_string(),
        "range".to_string(),
        "2025/01/02 03:04:05".to_string(),
        "425.262500  +DMR  DCC=5".to_string(),
        "Slot 1 TG=100 RID=200".to_string(),
        "Slot 2 TG=300 RID=400".to_string(),
        "".to_string(),
    ];
    let out = parse_blocks(&lines, Some(3600));
    assert_eq!(out.len(), 1);
    let r = &out[0];
    assert_eq!(r.slot1.tg.as_deref(), Some("100"));
    assert_eq!(r.slot1.rid.as_deref(), Some("200"));
    assert_eq!(r.slot2.tg.as_deref(), Some("300"));
    assert_eq!(r.slot2.rid.as_deref(), Some("400"));
    assert_eq!(r.datetime.offset_seconds, 3600);
}

#[test]
fn bare_tg_rid_fills_first_lacking_slot() {
    let lines: Vec<String> = vec![
        "1".to_string(),
        "range".to_string(),
        "2025/01/02 03:04:05".to_string(),
        "425.262500  +DMR  DCC=5".to_string(),
        "TG=1 RID=2".to_string(),
        "TG=3 RID=4".to_string(),
        "".to_string(),
    ];
    let out = parse_blocks(&lines, Some(0));
    assert_eq!(out.len(), 1);
    let r = &out[0];
    assert_eq!(r.slot1.tg.as_deref(), Some("1"));
    assert_eq!(r.slot1.rid.as_deref(), Some("2"));
    assert_eq!(r.slot2.tg.as_deref(), Some("3"));
    assert_eq!(r.slot2.rid.as_deref(), Some("4"));
}

#[test]
fn freq_type_dcc_line_parses() {
    let (f, t, d) = parse_freq_type_dcc("425.263000  +DMR  DCC=5");
    assert_eq!(f.as_deref(), Some("425.263000"));
    assert_eq!(t.as_deref(), Some("DMR"));
    assert_eq!(d.as_deref(), Some("5"));

    let (f2, t2, d2) = parse_freq_type_dcc("153.450000  +IDAS VOICE  NAC=6A2");
    assert_eq!(f2.as_deref(), Some("153.450000"));
    assert_eq!(t2.as_deref(), Some("IDAS VOICE"));
    assert_eq!(d2.as_deref(), Some("6A2"));

    // The block format prefers the color code when both tags appear.
    let (_f3, _t3, d3) = parse_freq_type_dcc("1.0 +X NAC=293 DCC=5");
    assert_eq!(d3.as_deref(), Some("5"));

    // No marker-led token: no radio type.
    let (f4, t4, d4) = parse_freq_type_dcc("153.762500 P25p2 NAC=6A2");
    assert_eq!(f4.as_deref(), Some("153.762500"));
    assert_eq!(t4, None);
    assert_eq!(d4.as_deref(), Some("6A2"));
}

#[test]
fn tg_rid_last_assignment_wins() {
    let (tg, rid) = parse_tg_rid("TG=1 RID=2 TG=3");
    assert_eq!(tg.as_deref(), Some("3"));
    assert_eq!(rid.as_deref(), Some("2"));
    let (tg2, rid2) = parse_tg_rid("TG= RID=9");
    assert_eq!(tg2, None);
    assert_eq!(rid2.as_deref(), Some("9"));
}

#[test]
fn header_cut_short_yields_nothing() {
    let lines: Vec<String> = vec!["1".to_string(), "range".to_string()];
    let out = parse_blocks(&lines, Some(0));
    assert_eq!(out.len(), 0);
}
