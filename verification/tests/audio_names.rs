use scanlog::datetime::{CivilDateTime, ZonedDateTime};
use scanlog::model::{RadioRecord, SlotData};
use scanlog::record_match::{audio_name_matches, find_audio_name, record_time_token};

#[test]
fn names_match_on_time_prefix_and_frequency() {
    assert!(audio_name_matches("064356_153.450000_2_4506.mp3", "064356", "153.450000"));
    assert!(audio_name_matches("064356-x_153.450000_y.wav", "064356", "153.450000"));
    assert!(audio_name_matches("064356_153.450000.txt", "064356", "153.450000"));
    // Wrong time, wrong separator, missing frequency, wrong extension.
    assert!(!audio_name_matches("064357_153.450000.mp3", "064356", "153.450000"));
    assert!(!audio_name_matches("064356x153.450000.mp3", "064356", "153.450000"));
    assert!(!audio_name_matches("064356_154.000000.mp3", "064356", "153.450000"));
    assert!(!audio_name_matches("064356_153.450000.ogg", "064356", "153.450000"));
    // The frequency must leave room for the extension.
    assert!(!audio_name_matches("064356_.153", "064356", "153"));
}

fn rec_at(freq: Option<&str>) -> RadioRecord {
    RadioRecord {
        record_number: 1,
        datetime: ZonedDateTime {
            local: CivilDateTime { year: 2025, month: 9, day: 9, hour: 6, minute: 43, second: 56 },
            offset_seconds: 0,
        },
        frequency: freq.map(|f| f.to_string()),
        radio_type: None,
        dcc: None,
        slot1: SlotData { tg: None, rid: None, text: None },
        slot2: SlotData { tg: None, rid: None, text: None },
        duration: 1,
    }
}

#[test]
fn record_time_token_is_six_digits() {
    assert_eq!(record_time_token(&rec_at(None)), "064356");
}

#[test]
fn first_listed_match_wins() {
    let names: Vec<String> = vec![
        "055555_153.450000.mp3".to_string(),
        "064356_153.450000_a.mp3".to_string(),
        "064356_153.450000_b.mp3".to_string(),
    ];
    let hit = find_audio_name(&rec_at(Some("153.450000")), &names);
    assert_eq!(hit.as_deref(), Some("064356_153.450000_a.mp3"));
    let miss = find_audio_name(&rec_at(Some("460.000000")), &names);
    assert_eq!(miss, None);
}
