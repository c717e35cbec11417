use scanlog::datetime::{CivilDateTime, ZonedDateTime};
use scanlog::model::{RadioRecord, SlotData};
use scanlog::text::line_chars;
use scanlog::transcriber::{parse_transcript_name, DayIndex, Index, TextFileTranscriber, K};

fn key(tg: Option<u32>, rid: Option<u32>) -> K {
    K { time: 64356, freq: "153.450000".to_string(), tg, rid }
}

#[test]
fn fully_specified_query_falls_back_to_bare_file() {
    let mut di = DayIndex::new();
    di.insert_all(key(None, None), "p/bare.txt".to_string());
    // A query carrying tg and rid still resolves to the bare file.
    let hit = di.lookup(&key(Some(2), Some(4506)));
    assert_eq!(hit.as_deref(), Some("p/bare.txt"));
}

#[test]
fn lookup_prefers_the_most_specific_map() {
    let mut di = DayIndex::new();
    di.insert_all(key(None, None), "p/bare.txt".to_string());
    di.insert_all(key(Some(2), Some(4506)), "p/full.txt".to_string());
    assert_eq!(di.lookup(&key(Some(2), Some(4506))).as_deref(), Some("p/full.txt"));
    // Dropping the talkgroup hits the rid-only projection of the full file.
    assert_eq!(di.lookup(&key(Some(9), Some(4506))).as_deref(), Some("p/full.txt"));
    // A different rid and tg falls through to bare.
    assert_eq!(di.lookup(&key(Some(9), Some(8))).as_deref(), Some("p/bare.txt"));
}

#[test]
fn insertion_is_first_wins() {
    let mut di = DayIndex::new();
    di.insert_all(key(Some(1), Some(2)), "p/first.txt".to_string());
    di.insert_all(key(Some(1), Some(2)), "p/second.txt".to_string());
    assert_eq!(di.lookup(&key(Some(1), Some(2))).as_deref(), Some("p/first.txt"));
}

#[test]
fn missing_key_misses() {
    let di = DayIndex::new();
    assert!(di.lookup(&key(Some(1), None)).is_none());
}

#[test]
fn filename_parses_into_key() {
    let name = line_chars("064356_153.45_2_4506.txt");
    let k = parse_transcript_name(&name).unwrap();
    assert_eq!(k.time, 64356);
    assert_eq!(k.freq, "153.450000");
    assert_eq!(k.tg, Some(2));
    assert_eq!(k.rid, Some(4506));

    // Extra numeric tokens beyond the first two are ignored.
    let name2 = line_chars("064356_153.450000_004_P25__GC_2_4506.txt");
    let k2 = parse_transcript_name(&name2).unwrap();
    assert_eq!(k2.tg, Some(4));
    assert_eq!(k2.rid, Some(2));

    // Only well-named transcripts parse.
    assert!(parse_transcript_name(&line_chars("notes.txt")).is_none());
    assert!(parse_transcript_name(&line_chars("064356_153.45_2.wav")).is_none());
    assert!(parse_transcript_name(&line_chars("abc_153.45.txt")).is_none());

    // A bare time and frequency name yields an unqualified key.
    let k3 = parse_transcript_name(&line_chars("064356_153.45.txt")).unwrap();
    assert_eq!(k3.tg, None);
    assert_eq!(k3.rid, None);

    // Every trailing `.txt` belongs to the extension, not the stem.
    let k4 = parse_transcript_name(&line_chars("064356_153.45_7.txt.txt")).unwrap();
    assert_eq!(k4.tg, Some(7));
    assert_eq!(k4.rid, None);
}

#[test]
fn index_install_is_write_once() {
    let mut idx = Index::new();
    assert!(!idx.has_day(20250909));
    let mut d1 = DayIndex::new();
    d1.insert_all(key(None, None), "p/a.txt".to_string());
    idx.install(20250909, d1);
    assert!(idx.has_day(20250909));
    assert_eq!(idx.lookup_day(20250909, &key(None, None)).as_deref(), Some("p/a.txt"));
    // A second install for the same day changes nothing.
    let mut d2 = DayIndex::new();
    d2.insert_all(key(None, None), "p/b.txt".to_string());
    idx.install(20250909, d2);
    assert_eq!(idx.lookup_day(20250909, &key(None, None)).as_deref(), Some("p/a.txt"));
    assert!(idx.lookup_day(20250910, &key(None, None)).is_none());
}

fn wf_record(freq: Option<&str>) -> RadioRecord {
    RadioRecord {
        record_number: 1,
        datetime: ZonedDateTime {
            local: CivilDateTime { year: 2025, month: 9, day: 9, hour: 6, minute: 43, second: 56 },
            offset_seconds: 0,
        },
        frequency: freq.map(|f| f.to_string()),
        radio_type: Some("P25p1".to_string()),
        dcc: Some("293".to_string()),
        slot1: SlotData { tg: Some("2".to_string()), rid: Some("4506".to_string()), text: None },
        slot2: SlotData { tg: None, rid: None, text: None },
        duration: 1,
    }
}

#[test]
fn first_access_scans_once_and_installs_an_empty_shard() {
    let t = TextFileTranscriber::new_indexed("/nonexistent/scanlog/records").unwrap();
    // The first caller for the day performs the one scan; a missing folder
    // still installs an empty shard, so the day is never probed again.
    assert!(t.ensure_day_indexed(20250909, "/nonexistent/scanlog/records"));
    assert!(!t.ensure_day_indexed(20250909, "/nonexistent/scanlog/records"));
    assert!(!t.ensure_day_indexed(20250909, "/nonexistent/scanlog/records"));
    let k = key(Some(2), Some(4506));
    assert!(t.lookup_in_day(20250909, &k).is_none());
    // Another day is a fresh scan.
    assert!(t.ensure_day_indexed(20250910, "/nonexistent/scanlog/records"));
}

#[test]
fn resolve_fails_only_without_any_root() {
    let bare = TextFileTranscriber::new();
    let r = bare.resolve_path(&wf_record(Some("153.45")), "");
    let e = r.unwrap_err();
    assert!(e.message().starts_with("parse error:"));

    // A record without a frequency derives no key and passes through.
    let r2 = bare.resolve_path(&wf_record(None), "");
    assert_eq!(r2.unwrap(), None);

    // A constructor root serves as the fall-back when the call passes none.
    let rooted = TextFileTranscriber::new_indexed("/nonexistent/scanlog/records").unwrap();
    let r3 = rooted.resolve_path(&wf_record(Some("153.45")), "");
    assert_eq!(r3.unwrap(), None);

    // A per-call directory overrides the configured root.
    let r4 = rooted.resolve_path(&wf_record(Some("153.45")), "/also/nonexistent");
    assert_eq!(r4.unwrap(), None);
}
