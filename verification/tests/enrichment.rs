use scanlog::datetime::{CivilDateTime, ZonedDateTime};
use scanlog::errors::AppError;
use scanlog::model::{RadioRecord, SlotData};
use scanlog::transcriber::TextFileTranscriber;
use scanlog::transcription_adder::apply_transcription;
use std::sync::Arc;

fn rec(text: Option<&str>) -> RadioRecord {
    RadioRecord {
        record_number: 1,
        datetime: ZonedDateTime {
            local: CivilDateTime { year: 2025, month: 9, day: 9, hour: 6, minute: 43, second: 56 },
            offset_seconds: 0,
        },
        frequency: Some("153.450000".to_string()),
        radio_type: Some("P25p1".to_string()),
        dcc: Some("293".to_string()),
        slot1: SlotData { tg: Some("2".to_string()), rid: None, text: text.map(|t| t.to_string()) },
        slot2: SlotData { tg: None, rid: None, text: None },
        duration: 1,
    }
}

#[test]
fn found_text_attaches_to_an_empty_first_slot() {
    let out = apply_transcription(rec(None), Ok(Some("spoken words".to_string())));
    assert_eq!(out.slot1.text.as_deref(), Some("spoken words"));
    // Everything else is untouched.
    assert_eq!(out.record_number, 1);
    assert_eq!(out.slot1.tg.as_deref(), Some("2"));
}

#[test]
fn existing_text_is_never_overwritten() {
    let out = apply_transcription(rec(Some("kept")), Ok(Some("new".to_string())));
    assert_eq!(out.slot1.text.as_deref(), Some("kept"));
}

#[test]
fn miss_and_failures_pass_the_record_through() {
    let out = apply_transcription(rec(None), Ok(None));
    assert_eq!(out.slot1.text, None);
    let out2 = apply_transcription(rec(None), Err(Some(AppError::IO("read x".to_string()))));
    assert_eq!(out2.slot1.text, None);
    let out3 = apply_transcription(rec(None), Err(None));
    assert_eq!(out3.slot1.text, None);
}

#[test]
fn concurrent_first_access_scans_exactly_once() {
    let rt = tokio::runtime::Builder::new_multi_thread()
        .worker_threads(8)
        .build()
        .unwrap();
    let t = Arc::new(TextFileTranscriber::new_indexed("/nonexistent/scanlog/shared").unwrap());
    let scans = rt.block_on(async {
        let mut handles = Vec::new();
        for _ in 0..8 {
            let t = Arc::clone(&t);
            handles.push(tokio::spawn(async move {
                t.ensure_day_indexed(20250909, "/nonexistent/scanlog/shared")
            }));
        }
        let mut scans = 0;
        for h in handles {
            if h.await.unwrap() {
                scans += 1;
            }
        }
        scans
    });
    // All callers observe the installed day; exactly one performed the scan.
    assert_eq!(scans, 1);
    assert!(!t.ensure_day_indexed(20250909, "/nonexistent/scanlog/shared"));
}
