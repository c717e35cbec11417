use scanlog::datetime::{CivilDateTime, ZonedDateTime};
use scanlog::filter::FilterConfig;
use scanlog::model::{RadioRecord, SlotData};

fn sample(freq: Option<&str>) -> RadioRecord {
    RadioRecord {
        record_number: 1,
        datetime: ZonedDateTime {
            local: CivilDateTime { year: 2025, month: 9, day: 9, hour: 18, minute: 39, second: 20 },
            offset_seconds: 0,
        },
        frequency: freq.map(|f| f.to_string()),
        radio_type: Some("P25p1".to_string()),
        dcc: Some("293".to_string()),
        slot1: SlotData { tg: Some("2".to_string()), rid: Some("4506".to_string()), text: None },
        slot2: SlotData { tg: None, rid: None, text: None },
        duration: 1,
    }
}

fn empty_cfg() -> FilterConfig {
    FilterConfig {
        freqs: Vec::new(),
        rtypes: Vec::new(),
        rids: Vec::new(),
        tgs: Vec::new(),
        nacs: Vec::new(),
    }
}

#[test]
fn no_active_criterion_accepts_everything() {
    let cfg = empty_cfg();
    assert!(cfg.accept(&sample(Some("153.450000"))));
    assert!(cfg.accept(&sample(None)));
}

#[test]
fn active_criterion_rejects_an_absent_field() {
    let mut cfg = empty_cfg();
    cfg.freqs = vec!["153.450000".to_string()];
    assert!(!cfg.accept(&sample(None)));
}

#[test]
fn field_equal_to_any_listed_value_is_accepted() {
    let mut cfg = empty_cfg();
    cfg.freqs = vec!["460.125000".to_string(), "153.450000".to_string()];
    assert!(cfg.accept(&sample(Some("153.450000"))));
    assert!(!cfg.accept(&sample(Some("154.000000"))));
}

#[test]
fn every_active_criterion_must_match() {
    let mut cfg = empty_cfg();
    cfg.freqs = vec!["153.450000".to_string()];
    cfg.tgs = vec!["2".to_string()];
    cfg.rids = vec!["4506".to_string()];
    cfg.nacs = vec!["293".to_string()];
    cfg.rtypes = vec!["P25p1".to_string()];
    assert!(cfg.accept(&sample(Some("153.450000"))));
    cfg.tgs = vec!["3".to_string()];
    assert!(!cfg.accept(&sample(Some("153.450000"))));
}
