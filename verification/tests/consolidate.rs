use scanlog::datetime::{CivilDateTime, ZonedDateTime};
use scanlog::model::{RadioRecord, SlotData};
use scanlog::rle_filter::{rle_compress, same_identity, Consolidator};

fn rec(n: usize, second: u32, freq: &str, tg: &str, duration: u32) -> RadioRecord {
    RadioRecord {
        record_number: n,
        datetime: ZonedDateTime {
            local: CivilDateTime { year: 2025, month: 9, day: 9, hour: 18, minute: 39, second },
            offset_seconds: 0,
        },
        frequency: Some(freq.to_string()),
        radio_type: Some("P25p1".to_string()),
        dcc: Some("293".to_string()),
        slot1: SlotData { tg: Some(tg.to_string()), rid: Some("4506".to_string()), text: None },
        slot2: SlotData { tg: None, rid: None, text: None },
        duration,
    }
}

#[test]
fn run_count_and_durations_match_groups() {
    // Groups: [a a a] [b] [a a] -> three runs of sizes 3, 1, 2.
    let input = vec![
        rec(1, 0, "1.0", "2", 1),
        rec(2, 1, "1.0", "2", 1),
        rec(3, 2, "1.0", "2", 1),
        rec(4, 3, "2.0", "2", 1),
        rec(5, 4, "1.0", "2", 1),
        rec(6, 5, "1.0", "2", 1),
    ];
    let out = rle_compress(input);
    assert_eq!(out.len(), 3);
    assert_eq!(out[0].duration, 3);
    assert_eq!(out[1].duration, 1);
    assert_eq!(out[2].duration, 2);
    // Each run keeps its first record's number and timestamp.
    assert_eq!(out[0].record_number, 1);
    assert_eq!(out[0].datetime.local.second, 0);
    assert_eq!(out[2].record_number, 5);
}

#[test]
fn zero_duration_normalizes_to_one() {
    let out = rle_compress(vec![rec(1, 0, "1.0", "2", 0)]);
    assert_eq!(out.len(), 1);
    assert_eq!(out[0].duration, 1);
}

#[test]
fn single_record_keeps_its_own_duration() {
    let out = rle_compress(vec![rec(1, 0, "1.0", "2", 7)]);
    assert_eq!(out.len(), 1);
    assert_eq!(out[0].duration, 7);
}

#[test]
fn identity_ignores_time_and_text() {
    let a = rec(1, 0, "1.0", "2", 1);
    let mut b = rec(9, 42, "1.0", "2", 1);
    b.slot1.text = Some("hello".to_string());
    assert!(same_identity(&a, &b));
    let c = rec(1, 0, "1.0", "3", 1);
    assert!(!same_identity(&a, &c));
    let mut d = rec(1, 0, "1.0", "2", 1);
    d.dcc = None;
    assert!(!same_identity(&a, &d));
}

#[test]
fn online_stage_emits_on_identity_change_and_flush() {
    let mut c = Consolidator::new();
    assert!(c.push(rec(1, 0, "1.0", "2", 1)).is_none());
    assert!(c.push(rec(2, 1, "1.0", "2", 1)).is_none());
    let flushed = c.push(rec(3, 2, "2.0", "2", 1)).unwrap();
    assert_eq!(flushed.duration, 2);
    assert_eq!(flushed.record_number, 1);
    let last = c.finish().unwrap();
    assert_eq!(last.record_number, 3);
    assert_eq!(last.duration, 1);
}

#[test]
fn empty_input_consolidates_to_nothing() {
    let out = rle_compress(Vec::new());
    assert_eq!(out.len(), 0);
    let c = Consolidator::new();
    assert!(c.finish().is_none());
}
