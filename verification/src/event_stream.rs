//! The line-format parser: one transmission event per line. A line counts only
//! when it carries the group-call marker; fields are located by substring tags
//! (`Freq=`, `NAC=`/`DCC=` with NAC preferred, `TG=`, `RID=`, `Slot=`) and the
//! duration by a trailing `<digits>s` token. The radio type is inferred from
//! which channel tag is present: a network access code means the phase-one
//! default code, a color code means the digital default.
use crate::datetime::{parse_datetime, parse_datetime_s, resolve_offset, CivilDateTime,
    ZonedDateTime};
use crate::errors::AppError;
use crate::model::{opt_view, RadioRecord, RecordView, SlotData, SlotView};
use crate::text::{
    contains_sub, find, find_sub, first_token, line_chars, normalize_freq_chars, normalize_freq_s,
    parse_u32, parse_u32_s, split_ws, strip_bom, strip_bom_s, subvec, tokens, trim, trim_s,
    chars_to_string,
};
use vstd::prelude::*;

verus! {

/// The first whitespace-separated token after the first occurrence of `pat`,
/// or the empty sequence when `pat` is absent or nothing follows it.
pub open spec fn val_after_s(s: Seq<char>, pat: Seq<char>) -> Seq<char> {
    match find_sub(s, pat) {
        Some(i) => first_token(s.skip(i + pat.len())),
        None => Seq::empty(),
    }
}

/// The tag's value as an optional field: present iff the tag occurs and a
/// token follows it.
pub open spec fn tag_value(s: Seq<char>, pat: Seq<char>) -> Option<Seq<char>> {
    if contains_sub(s, pat) && val_after_s(s, pat).len() > 0 {
        Some(val_after_s(s, pat))
    } else {
        None
    }
}

/// The last token of `ts` that ends in `'s'`, if any.
pub open spec fn last_s_token(ts: Seq<Seq<char>>) -> Option<Seq<char>>
    decreases ts.len(),
{
    if ts.len() == 0 {
        None
    } else if ts.last().len() > 0 && ts.last().last() == 's' {
        Some(ts.last())
    } else {
        last_s_token(ts.drop_last())
    }
}

/// The duration an event line carries: the digits of the last `<digits>s`
/// token, floored at one; one when no such token parses.
pub open spec fn duration_of(s: Seq<char>) -> int {
    match last_s_token(tokens(s)) {
        Some(t) => match parse_u32_s(t.drop_last()) {
            Some(n) => {
                if n == 0 {
                    1
                } else {
                    n as int
                }
            },
            None => 1,
        },
        None => 1,
    }
}

/// The civil date-time of an event line: its first two tokens joined by one
/// space, read as `YYYY/MM/DD HH:MM:SS`. `None` when the line is noise (no
/// group-call marker), too short, or the date-time is malformed.
pub open spec fn event_naive(line: Seq<char>) -> Option<CivilDateTime> {
    let s = trim_s(strip_bom_s(line));
    if s.len() == 0 || !contains_sub(s, "Group call;"@) || tokens(s).len() < 2 {
        None
    } else {
        parse_datetime_s(tokens(s)[0] + seq![' '] + tokens(s)[1])
    }
}

/// The record an event line denotes once its civil time resolved to the fixed
/// offset `off`; `None` exactly when [`event_naive`] is `None`.
pub open spec fn event_record(line: Seq<char>, record_number: int, off: int) -> Option<RecordView> {
    match event_naive(line) {
        None => None,
        Some(dt) => {
            let s = trim_s(strip_bom_s(line));
            let has_nac = contains_sub(s, "NAC="@);
            let has_dcc = contains_sub(s, "DCC="@);
            let freq = match tag_value(s, "Freq="@) {
                Some(t) => Some(normalize_freq_s(t)),
                None => None,
            };
            let channel = if tag_value(s, "NAC="@) is Some {
                tag_value(s, "NAC="@)
            } else {
                tag_value(s, "DCC="@)
            };
            let radio_type: Option<Seq<char>> = if has_nac {
                Some("P25p1"@)
            } else if has_dcc {
                Some("DMR"@)
            } else {
                None
            };
            let tg = tag_value(s, "TG="@);
            let rid = tag_value(s, "RID="@);
            let slot = match parse_u32_s(val_after_s(s, "Slot="@)) {
                Some(v) => if v <= 255 {
                    Some(v)
                } else {
                    None
                },
                None => None,
            };
            let is_dmr = !has_nac && has_dcc;
            let filled = SlotView { tg, rid, text: None };
            let (slot1, slot2): (SlotView, SlotView) = if is_dmr && slot == Some(2u32) {
                (SlotView::empty(), filled)
            } else {
                (filled, SlotView::empty())
            };
            Some(
                RecordView {
                    record_number,
                    datetime: ZonedDateTime { local: dt, offset_seconds: off as i32 },
                    frequency: freq,
                    radio_type,
                    dcc: channel,
                    slot1,
                    slot2,
                    duration: duration_of(s),
                },
            )
        },
    }
}

/// The tag's value on a character vector: whether the tag occurs, and the
/// first token after it.
fn val_after(v: &Vec<char>, pat: &Vec<char>) -> (r: (bool, Vec<char>))
    ensures
        r.0 == contains_sub(v@, pat@),
        r.1@ == val_after_s(v@, pat@),
{
    broadcast use crate::text::lemma_chars_deep_view;

    match find(v.as_slice(), pat.as_slice()) {
        Some(i) => {
            proof {
                crate::text::lemma_find_from_some(v@, pat@, 0, i as int);
                assert(i + pat@.len() <= v@.len());
            }
            let n = v.len();
            let tail = subvec(v.as_slice(), i + pat.len(), n);
            proof {
                assert(tail@ =~= v@.skip(i + pat@.len()));
            }
            let toks = split_ws(&tail);
            if toks.len() > 0 {
                let t = subvec(toks[0].as_slice(), 0, toks[0].len());
                proof {
                    assert(t@ =~= toks@[0]@);
                    assert(toks.deep_view()[0] == toks@[0]@);
                }
                (true, t)
            } else {
                let t: Vec<char> = Vec::new();
                proof {
                    assert(t@ =~= val_after_s(v@, pat@));
                }
                (true, t)
            }
        },
        None => {
            let t: Vec<char> = Vec::new();
            proof {
                assert(t@ =~= val_after_s(v@, pat@));
            }
            (false, t)
        },
    }
}

/// The tag's value as an optional owned string.
pub(crate) fn tag_value_x(v: &Vec<char>, pat: &Vec<char>) -> (r: Option<String>)
    ensures
        opt_view(r) == tag_value(v@, pat@),
{
    let (present, tok) = val_after(v, pat);
    if present && tok.len() > 0 {
        Some(chars_to_string(tok.as_slice()))
    } else {
        None
    }
}

/// Parse one event line. `Ok(None)` for noise and malformed lines; an error
/// only when no offset was configured and the system zone cannot resolve the
/// line's civil time.
pub fn parse_event_line(line: &str, record_number: usize, tz_offset: Option<i32>) -> (r: Result<
    Option<RadioRecord>,
    AppError,
>)
    requires
        tz_offset matches Some(o) ==> -86400 < o < 86400,
    ensures
        tz_offset matches Some(o) ==> (r matches Ok(rec) && opt_rec_view(rec) == event_record(
            line@,
            record_number as int,
            o as int,
        )),
        r matches Ok(Some(rec)) ==> rec@.wf() && (exists|o: int|
            -86400 < o < 86400 && event_record(line@, record_number as int, o) == Some(rec@)),
        r is Err ==> tz_offset is None && event_naive(line@) is Some,
        r matches Ok(rec) && rec is None ==> event_naive(line@) is None,
{
    broadcast use crate::text::lemma_chars_deep_view;

    let chars = line_chars(line);
    let nb = strip_bom(&chars);
    let s = trim(&nb);
    if s.len() == 0 {
        return Ok(None);
    }
    let gc = line_chars("Group call;");
    if find(s.as_slice(), gc.as_slice()).is_none() {
        return Ok(None);
    }
    let toks = split_ws(&s);
    if toks.len() < 2 {
        return Ok(None);
    }
    let mut dtv = subvec(toks[0].as_slice(), 0, toks[0].len());
    dtv.push(' ');
    let mut time_tok = subvec(toks[1].as_slice(), 0, toks[1].len());
    dtv.append(&mut time_tok);
    proof {
        assert(toks.deep_view()[0] == toks@[0]@);
        assert(toks.deep_view()[1] == toks@[1]@);
        assert(dtv@ =~= tokens(s@)[0] + seq![' '] + tokens(s@)[1]);
    }
    let dt = match parse_datetime(dtv.as_slice()) {
        Some(d) => d,
        None => {
            return Ok(None);
        },
    };
    let off = match resolve_offset(&dt, tz_offset) {
        Some(o) => o,
        None => {
            return Err(AppError::Parse("ambiguous/invalid local datetime".to_owned()));
        },
    };
    let pat_freq = line_chars("Freq=");
    let pat_nac = line_chars("NAC=");
    let pat_dcc = line_chars("DCC=");
    let pat_tg = line_chars("TG=");
    let pat_rid = line_chars("RID=");
    let pat_slot = line_chars("Slot=");

    let freq = match tag_value_x(&s, &pat_freq) {
        Some(t) => {
            let fv = line_chars(t.as_str());
            let n = normalize_freq_chars(&fv);
            Some(chars_to_string(n.as_slice()))
        },
        None => None,
    };
    let (has_nac, _) = val_after(&s, &pat_nac);
    let (has_dcc, _) = val_after(&s, &pat_dcc);
    let nac_val = tag_value_x(&s, &pat_nac);
    let channel = match nac_val {
        Some(vv) => Some(vv),
        None => tag_value_x(&s, &pat_dcc),
    };
    let radio_type: Option<String> = if has_nac {
        Some("P25p1".to_owned())
    } else if has_dcc {
        Some("DMR".to_owned())
    } else {
        None
    };
    let tg = tag_value_x(&s, &pat_tg);
    let rid = tag_value_x(&s, &pat_rid);
    let (_, slot_tok) = val_after(&s, &pat_slot);
    let slot: Option<u32> = match parse_u32(slot_tok.as_slice()) {
        Some(v) => {
            if v <= 255 {
                Some(v)
            } else {
                None
            }
        },
        None => None,
    };
    let duration = event_duration(&toks);
    proof {
        assert(duration as int == duration_of(s@));
    }
    let is_dmr = !has_nac && has_dcc;
    let filled = SlotData { tg, rid, text: None };
    let (slot1, slot2) = if is_dmr && slot == Some(2u32) {
        (SlotData::empty(), filled)
    } else {
        (filled, SlotData::empty())
    };
    let rec = RadioRecord {
        record_number,
        datetime: ZonedDateTime { local: dt, offset_seconds: off },
        frequency: freq,
        radio_type,
        dcc: channel,
        slot1,
        slot2,
        duration,
    };
    proof {
        assert(event_record(line@, record_number as int, off as int) == Some(rec@));
    }
    Ok(Some(rec))
}

/// The duration carried by the tokenized line.
fn event_duration(toks: &Vec<Vec<char>>) -> (r: u32)
    ensures
        ({
            let d = match last_s_token(toks.deep_view()) {
                Some(t) => match parse_u32_s(t.drop_last()) {
                    Some(n) => if n == 0 {
                        1int
                    } else {
                        n as int
                    },
                    None => 1int,
                },
                None => 1int,
            };
            r == d
        }),
        r >= 1,
{
    broadcast use crate::text::lemma_chars_deep_view;

    let ghost ts = toks.deep_view();
    let mut j: usize = toks.len();
    proof {
        assert(ts.take(j as int) =~= ts);
    }
    while j > 0
        invariant
            0 <= j <= toks@.len(),
            ts == toks.deep_view(),
            ts.len() == toks@.len(),
            last_s_token(ts.take(j as int)) == last_s_token(ts),
        decreases j,
    {
        j = j - 1;
        let tok = &toks[j];
        proof {
            assert(ts.take(j + 1 as int).drop_last() =~= ts.take(j as int));
            assert(ts.take(j + 1 as int).last() == ts[j as int]);
            assert(ts[j as int] == toks@[j as int]@);
        }
        if tok.len() > 0 && tok[tok.len() - 1] == 's' {
            let digits = subvec(tok.as_slice(), 0, tok.len() - 1);
            proof {
                assert(digits@ =~= ts[j as int].drop_last());
            }
            match parse_u32(digits.as_slice()) {
                Some(n) => {
                    if n == 0 {
                        return 1;
                    } else {
                        return n;
                    }
                },
                None => {
                    return 1;
                },
            }
        }
    }
    proof {
        assert(ts.take(0) =~= Seq::<Seq<char>>::empty());
    }
    1
}

/// The view of an optional record.
pub open spec fn opt_rec_view(o: Option<RadioRecord>) -> Option<RecordView> {
    match o {
        Some(r) => Some(r@),
        None => None,
    }
}

/// The records of a whole line sequence, numbering accepted records from
/// `recno` upward (saturating), under the fixed offset `off`.
pub open spec fn event_records(lines: Seq<Seq<char>>, recno: int, off: int) -> Seq<RecordView>
    decreases lines.len(),
{
    if lines.len() == 0 {
        Seq::empty()
    } else {
        match event_record(lines[0], recno, off) {
            Some(r) => seq![r] + event_records(
                lines.drop_first(),
                if recno < usize::MAX {
                    recno + 1
                } else {
                    recno
                },
                off,
            ),
            None => event_records(lines.drop_first(), recno, off),
        }
    }
}

/// Parse a whole file's lines in order, numbering accepted records from one.
/// Lines that fail local-time resolution under the system zone are dropped,
/// as are noise and malformed lines.
pub fn parse_event_lines(lines: &Vec<String>, tz_offset: Option<i32>) -> (out: Vec<RadioRecord>)
    requires
        tz_offset matches Some(o) ==> -86400 < o < 86400,
    ensures
        tz_offset matches Some(o) ==> crate::rle_filter::views_of(out@) == event_records(
            lines.deep_view(),
            1,
            o as int,
        ),
        forall|i: int| 0 <= i < out@.len() ==> (#[trigger] out@[i])@.wf(),
{
    let ghost ls = lines.deep_view();
    let mut out: Vec<RadioRecord> = Vec::new();
    let mut recno: usize = 1;
    let mut i: usize = 0;
    proof {
        if tz_offset is Some {
            assert(ls.skip(0) =~= ls);
            assert(crate::rle_filter::views_of(out@) + event_records(ls, 1, tz_offset->0 as int)
                =~= event_records(ls, 1, tz_offset->0 as int));
        }
    }
    while i < lines.len()
        invariant
            0 <= i <= lines@.len(),
            ls == lines.deep_view(),
            ls.len() == lines@.len(),
            recno >= 1,
            tz_offset matches Some(o) ==> -86400 < o < 86400,
            tz_offset matches Some(o) ==> crate::rle_filter::views_of(out@) + event_records(
                ls.skip(i as int),
                recno as int,
                o as int,
            ) == event_records(ls, 1, o as int),
            forall|k: int| 0 <= k < out@.len() ==> (#[trigger] out@[k])@.wf(),
        decreases lines@.len() - i,
    {
        let ghost rest = ls.skip(i as int);
        proof {
            assert(rest[0] == ls[i as int]);
            assert(rest.drop_first() =~= ls.skip(i + 1 as int));
            assert(ls[i as int] == lines@[i as int]@);
        }
        match parse_event_line(lines[i].as_str(), recno, tz_offset) {
            Ok(Some(rec)) => {
                let ghost prev = crate::rle_filter::views_of(out@);
                out.push(rec);
                proof {
                    assert(crate::rle_filter::views_of(out@) =~= prev.push(rec@));
                }
                if recno < usize::MAX {
                    recno = recno + 1;
                }
            },
            Ok(None) => {},
            Err(_) => {},
        }
        proof {
            if tz_offset is Some {
                assert(crate::rle_filter::views_of(out@) + event_records(
                    ls.skip(i + 1 as int),
                    recno as int,
                    tz_offset->0 as int,
                ) =~= event_records(ls, 1, tz_offset->0 as int));
            }
        }
        i = i + 1;
    }
    proof {
        if tz_offset is Some {
            assert(ls.skip(ls.len() as int) =~= Seq::<Seq<char>>::empty());
            assert(crate::rle_filter::views_of(out@) =~= event_records(
                ls,
                1,
                tz_offset->0 as int,
            ));
        }
    }
    out
}

} // verus!
