use scanlog::cli::CliArgs;
use scanlog::csv_out::{csv_header, excel_guard, record_row};
use scanlog::datetime::{compute_tz_offset, format_civil, parse_datetime, CivilDateTime,
    ZonedDateTime};
use scanlog::errors::AppError;
use scanlog::model::{RadioRecord, SlotData};
use scanlog::text::{line_chars, normalize_freq, u64_to_string};

#[test]
fn numeric_frequencies_normalize_to_six_decimals() {
    assert_eq!(normalize_freq("153.45"), "153.450000");
    assert_eq!(normalize_freq("153.450000"), "153.450000");
    assert_eq!(normalize_freq("425"), "425.000000");
    assert_eq!(normalize_freq("007.5"), "7.500000");
    assert_eq!(normalize_freq(".5"), "0.500000");
    assert_eq!(normalize_freq("5."), "5.000000");
    assert_eq!(normalize_freq("0"), "0.000000");
    assert_eq!(normalize_freq("1.23456789"), "1.234567");
}

#[test]
fn non_numeric_frequencies_pass_unchanged() {
    assert_eq!(normalize_freq("1.2.3"), "1.2.3");
    assert_eq!(normalize_freq("6A2"), "6A2");
    assert_eq!(normalize_freq(""), "");
    assert_eq!(normalize_freq("."), ".");
    assert_eq!(normalize_freq("-5"), "-5");
}

#[test]
fn excel_guard_strips_leading_markers() {
    assert_eq!(excel_guard("+DMR"), "DMR");
    assert_eq!(excel_guard("++P25p1"), "P25p1");
    assert_eq!(excel_guard("DMR"), "DMR");
    assert_eq!(excel_guard(""), "");
    assert_eq!(excel_guard("a+b"), "a+b");
}

#[test]
fn datetime_parses_strictly_and_formats_with_dashes() {
    let dt = parse_datetime(&line_chars("2025/09/09 18:39:20")).unwrap();
    assert_eq!(
        dt,
        CivilDateTime { year: 2025, month: 9, day: 9, hour: 18, minute: 39, second: 20 }
    );
    assert_eq!(format_civil(&dt), "2025-09-09 18:39:20");
    assert!(parse_datetime(&line_chars("2025/02/30 00:00:00")).is_none());
    assert!(parse_datetime(&line_chars("2025/9/9 18:39:20")).is_none());
    assert!(parse_datetime(&line_chars("2024/02/29 23:59:59")).is_some());
    assert!(parse_datetime(&line_chars("2025/02/29 00:00:00")).is_none());
    assert!(parse_datetime(&line_chars("2025/09/09 24:00:00")).is_none());
}

#[test]
fn rows_carry_the_fixed_columns() {
    let header = csv_header();
    assert_eq!(header.len(), 12);
    assert_eq!(header[0], "record_number");
    assert_eq!(header[11], "slot2_text");

    let rec = RadioRecord {
        record_number: 42,
        datetime: ZonedDateTime {
            local: CivilDateTime { year: 2025, month: 9, day: 9, hour: 18, minute: 39, second: 20 },
            offset_seconds: 0,
        },
        frequency: Some("153.450000".to_string()),
        radio_type: Some("+P25p1".to_string()),
        dcc: Some("293".to_string()),
        slot1: SlotData {
            tg: Some("2".to_string()),
            rid: Some("4506".to_string()),
            text: Some("hello".to_string()),
        },
        slot2: SlotData { tg: None, rid: None, text: None },
        duration: 7,
    };
    let row = record_row(&rec);
    assert_eq!(row.len(), 12);
    assert_eq!(row[0], "42");
    assert_eq!(row[1], "2025-09-09 18:39:20");
    assert_eq!(row[2], "7");
    assert_eq!(row[3], "153.450000");
    // The radio-type cell loses its leading marker.
    assert_eq!(row[4], "P25p1");
    assert_eq!(row[5], "293");
    assert_eq!(row[6], "2");
    assert_eq!(row[7], "4506");
    assert_eq!(row[8], "hello");
    assert_eq!(row[9], "");
    assert_eq!(row[10], "");
    assert_eq!(row[11], "");
}

#[test]
fn day_and_time_codes_pack_the_fields() {
    let dt = CivilDateTime { year: 2025, month: 9, day: 9, hour: 6, minute: 43, second: 56 };
    assert_eq!(dt.day_code(), 20250909);
    assert_eq!(dt.time_code(), 64356);
    assert!(dt.is_valid());
    let bad = CivilDateTime { year: 2025, month: 2, day: 30, hour: 0, minute: 0, second: 0 };
    assert!(!bad.is_valid());
}

#[test]
fn decimal_rendering_has_no_leading_zeros() {
    assert_eq!(u64_to_string(0), "0");
    assert_eq!(u64_to_string(7), "7");
    assert_eq!(u64_to_string(1234567890), "1234567890");
}

#[test]
fn error_messages_name_their_class() {
    assert_eq!(AppError::IO("open x".to_string()).message(), "IO error: open x");
    assert_eq!(AppError::Parse("bad".to_string()).message(), "parse error: bad");
    assert_eq!(AppError::Other("misc".to_string()).message(), "other: misc");
}

#[test]
fn cli_defaults_match_the_documented_values() {
    let a = CliArgs::default();
    assert!(a.input_files.is_empty());
    assert!(a.freqs.is_empty() && a.rtypes.is_empty());
    assert!(a.rids.is_empty() && a.tgs.is_empty() && a.nacs.is_empty());
    assert_eq!(a.tz, None);
    assert_eq!(a.record_dir, None);
    assert_eq!(a.transcriber, "none");
    assert_eq!(a.log_level, "essential");
    assert_eq!(a.out, "out.csv");
}

#[test]
fn zone_offsets_come_from_the_zone_table() {
    assert_eq!(compute_tz_offset(&None), None);
    assert_eq!(compute_tz_offset(&Some("UTC".to_string())), Some(0));
    assert_eq!(compute_tz_offset(&Some("Not/AZone".to_string())), None);
    let ny = compute_tz_offset(&Some("America/New_York".to_string()));
    assert!(ny.is_some());
    let o = ny.unwrap();
    assert!(-86400 < o && o < 86400);
    assert_ne!(o, 0);
}
