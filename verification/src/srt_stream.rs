//! The block-format parser: each record is a fixed run of lines — an index
//! line (zero when unparsable), an ignored time-range line, an absolute
//! `YYYY/MM/DD HH:MM:SS` line (a malformed one discards the block, draining to
//! the next blank line), a line carrying frequency, radio type, and channel
//! code (`DCC=` preferred over `NAC=` in this format), and detail lines until a
//! blank line or end of input, each a `Slot <n> ...` line or a bare
//! `TG=`/`RID=` line.
use crate::csv_out::strip_leading_plus;
use crate::datetime::{parse_datetime, parse_datetime_s, resolve_offset, ZonedDateTime};
use crate::model::{opt_view, RadioRecord, RecordView, SlotData, SlotView};
use crate::text::{
    chars_to_string, contains_sub, find_char, first_token, is_digit, line_chars,
    normalize_freq_chars, normalize_freq_s, parse_usize, parse_usize_s, split_ws, starts_with,
    starts_with_s, strip_bom, strip_bom_s, subvec, tokens, trim, trim_s,
};
use vstd::prelude::*;

verus! {

/// The rest of a `<prefix><value>` token, when the value is nonempty.
pub open spec fn kv_rest(t: Seq<char>, pre: Seq<char>) -> Option<Seq<char>> {
    if starts_with_s(t, pre) && t.len() > pre.len() {
        Some(t.skip(pre.len() as int))
    } else {
        None
    }
}

/// The value of the last `<prefix><value>` token among `ts` whose value is
/// nonempty (later assignments overwrite earlier ones).
pub open spec fn last_kv(ts: Seq<Seq<char>>, pre: Seq<char>) -> Option<Seq<char>>
    decreases ts.len(),
{
    if ts.len() == 0 {
        None
    } else {
        match kv_rest(ts.last(), pre) {
            Some(r) => Some(r),
            None => last_kv(ts.drop_last(), pre),
        }
    }
}

/// The talkgroup a detail line carries: its last nonempty `TG=` token.
pub open spec fn tg_of(s: Seq<char>) -> Option<Seq<char>> {
    last_kv(tokens(strip_bom_s(s)), "TG="@)
}

/// The radio id a detail line carries: its last nonempty `RID=` token.
pub open spec fn rid_of(s: Seq<char>) -> Option<Seq<char>> {
    last_kv(tokens(strip_bom_s(s)), "RID="@)
}

fn last_kv_x(toks: &Vec<Vec<char>>, pre: &Vec<char>) -> (r: Option<String>)
    ensures
        opt_view(r) == last_kv(toks.deep_view(), pre@),
{
    broadcast use crate::text::lemma_chars_deep_view;

    let ghost ts = toks.deep_view();
    let mut j: usize = toks.len();
    proof {
        assert(ts.take(j as int) =~= ts);
    }
    while j > 0
        invariant
            0 <= j <= toks@.len(),
            ts == toks.deep_view(),
            ts.len() == toks@.len(),
            last_kv(ts.take(j as int), pre@) == last_kv(ts, pre@),
        decreases j,
    {
        j = j - 1;
        proof {
            assert(ts.take(j + 1 as int).drop_last() =~= ts.take(j as int));
            assert(ts.take(j + 1 as int).last() == ts[j as int]);
            assert(ts[j as int] == toks@[j as int]@);
        }
        let tok = &toks[j];
        if starts_with(tok.as_slice(), pre.as_slice()) && tok.len() > pre.len() {
            let rest = subvec(tok.as_slice(), pre.len(), tok.len());
            proof {
                assert(rest@ =~= ts[j as int].skip(pre@.len() as int));
            }
            return Some(chars_to_string(rest.as_slice()));
        }
    }
    proof {
        assert(ts.take(0) =~= Seq::<Seq<char>>::empty());
    }
    None
}

/// Read the `TG=` and `RID=` assignments of one detail line: the last
/// nonempty value of each tag wins.
pub fn parse_tg_rid(s: &str) -> (r: (Option<String>, Option<String>))
    ensures
        opt_view(r.0) == tg_of(s@),
        opt_view(r.1) == rid_of(s@),
{
    let chars = line_chars(s);
    let nb = strip_bom(&chars);
    let toks = split_ws(&nb);
    let tg_pre = line_chars("TG=");
    let rid_pre = line_chars("RID=");
    let tg = last_kv_x(&toks, &tg_pre);
    let rid = last_kv_x(&toks, &rid_pre);
    (tg, rid)
}

/// Whether a token could be a frequency: nothing but digits and points.
pub open spec fn freq_shaped(t: Seq<char>) -> bool {
    forall|j: int| 0 <= j < t.len() ==> (is_digit(#[trigger] t[j]) || t[j] == '.')
}

/// The tokens of the frequency/type/channel line, after trimming and
/// byte-order-mark stripping.
pub open spec fn line4_tokens(line: Seq<char>) -> Seq<Seq<char>> {
    tokens(strip_bom_s(trim_s(line)))
}

/// Where the radio-type tokens would start: 1 when the first token reads as a
/// frequency, else 0.
pub open spec fn line4_start(ts: Seq<Seq<char>>) -> int {
    if ts.len() > 0 && freq_shaped(ts[0]) {
        1
    } else {
        0
    }
}

/// The frequency of the line: a first token of digits and points, normalized.
pub open spec fn freq_of4(line: Seq<char>) -> Option<Seq<char>> {
    let ts = line4_tokens(line);
    if ts.len() > 0 && freq_shaped(ts[0]) {
        Some(normalize_freq_s(ts[0]))
    } else {
        None
    }
}

/// The first index at or past `i` of a token starting with the marker `'+'`.
pub open spec fn first_plus(ts: Seq<Seq<char>>, i: int) -> int
    decreases ts.len() - i,
{
    if i < 0 || i >= ts.len() {
        ts.len() as int
    } else if ts[i].len() > 0 && ts[i][0] == '+' {
        i
    } else {
        first_plus(ts, i + 1)
    }
}

/// Where the radio-type run ends: the first token after `i` that carries a
/// `=` or starts another marker.
pub open spec fn type_end(ts: Seq<Seq<char>>, i: int) -> int
    decreases ts.len() - i,
{
    if i < 0 || i >= ts.len() {
        ts.len() as int
    } else if find_char(ts[i], '=') is Some || (ts[i].len() > 0 && ts[i][0] == '+') {
        i
    } else {
        type_end(ts, i + 1)
    }
}

/// Tokens joined with single spaces.
pub open spec fn join_sp(parts: Seq<Seq<char>>) -> Seq<char>
    decreases parts.len(),
{
    if parts.len() == 0 {
        Seq::empty()
    } else if parts.len() == 1 {
        parts[0]
    } else {
        join_sp(parts.drop_last()) + seq![' '] + parts.last()
    }
}

/// The radio type of the line: the first marker-led token and what follows it
/// up to a key-value or another marker, joined by spaces, leading markers
/// stripped.
pub open spec fn rtype_of4(line: Seq<char>) -> Option<Seq<char>> {
    let ts = line4_tokens(line);
    let p = first_plus(ts, line4_start(ts));
    if p >= ts.len() {
        None
    } else {
        Some(strip_leading_plus(join_sp(ts.subrange(p, type_end(ts, p + 1)))))
    }
}

/// The channel code of the line: a nonempty `DCC=` value, else a nonempty
/// `NAC=` value (color code preferred in the block format).
pub open spec fn channel_of4(line: Seq<char>) -> Option<Seq<char>> {
    let s = strip_bom_s(trim_s(line));
    if crate::event_stream::tag_value(s, "DCC="@) is Some {
        crate::event_stream::tag_value(s, "DCC="@)
    } else {
        crate::event_stream::tag_value(s, "NAC="@)
    }
}

fn freq_shaped_x(t: &Vec<char>) -> (r: bool)
    ensures
        r == freq_shaped(t@),
{
    let mut i: usize = 0;
    while i < t.len()
        invariant
            0 <= i <= t@.len(),
            forall|j: int| 0 <= j < i ==> (is_digit(#[trigger] t@[j]) || t@[j] == '.'),
        decreases t@.len() - i,
    {
        let c = t[i];
        let u = c as u32;
        if !(48 <= u && u <= 57) && c != '.' {
            return false;
        }
        i = i + 1;
    }
    true
}

/// Parse the frequency/type/channel line of a block: the frequency (first
/// numeric-shaped token, normalized), the radio type (marker-led tokens,
/// markers stripped), and the channel code (`DCC=` preferred over `NAC=`).
pub fn parse_freq_type_dcc(line: &str) -> (r: (Option<String>, Option<String>, Option<String>))
    ensures
        opt_view(r.0) == freq_of4(line@),
        opt_view(r.1) == rtype_of4(line@),
        opt_view(r.2) == channel_of4(line@),
{
    broadcast use crate::text::lemma_chars_deep_view;

    let chars = line_chars(line);
    let t = trim(&chars);
    let s = strip_bom(&t);
    let toks = split_ws(&s);
    let ghost ts = line4_tokens(line@);

    let freq: Option<String>;
    let start: usize;
    if toks.len() > 0 && freq_shaped_x(&toks[0]) {
        proof {
            assert(toks.deep_view()[0] == toks@[0]@);
        }
        let n = normalize_freq_chars(&toks[0]);
        freq = Some(chars_to_string(n.as_slice()));
        start = 1;
    } else {
        proof {
            if toks.len() > 0 {
                assert(toks.deep_view()[0] == toks@[0]@);
            }
        }
        freq = None;
        start = 0;
    }
    assert(start as int == line4_start(ts));

    // Seek the first marker-led token.
    let mut p: usize = start;
    while p < toks.len() && !(toks[p].len() > 0 && toks[p][0] == '+')
        invariant
            start <= p <= toks@.len(),
            ts == toks.deep_view(),
            ts.len() == toks@.len(),
            first_plus(ts, start as int) == first_plus(ts, p as int),
        decreases toks@.len() - p,
    {
        proof {
            assert(ts[p as int] == toks@[p as int]@);
        }
        p = p + 1;
    }
    proof {
        if p < toks.len() {
            assert(ts[p as int] == toks@[p as int]@);
        }
        assert(first_plus(ts, p as int) == p as int || first_plus(ts, p as int) == ts.len());
    }
    let rtype: Option<String>;
    if p < toks.len() {
        // Extend with following tokens until a key-value or another marker.
        let mut q: usize = p + 1;
        while q < toks.len() && !(crate::text::index_of_char(toks[q].as_slice(), '=').is_some() || (
        toks[q].len() > 0 && toks[q][0] == '+'))
            invariant
                p < q <= toks@.len(),
                ts == toks.deep_view(),
                ts.len() == toks@.len(),
                type_end(ts, p + 1 as int) == type_end(ts, q as int),
            decreases toks@.len() - q,
        {
            proof {
                assert(ts[q as int] == toks@[q as int]@);
            }
            q = q + 1;
        }
        proof {
            if q < toks.len() {
                assert(ts[q as int] == toks@[q as int]@);
            }
            assert(type_end(ts, q as int) == q as int || type_end(ts, q as int) == ts.len());
            assert(type_end(ts, p + 1 as int) == q as int);
        }
        let mut joined: Vec<char> = Vec::new();
        let mut j: usize = p;
        proof {
            assert(ts.subrange(p as int, p as int) =~= Seq::<Seq<char>>::empty());
            assert(joined@ =~= join_sp(ts.subrange(p as int, p as int)));
        }
        while j < q
            invariant
                p <= j <= q <= toks@.len(),
                ts == toks.deep_view(),
                ts.len() == toks@.len(),
                joined@ == join_sp(ts.subrange(p as int, j as int)),
            decreases q - j,
        {
            proof {
                assert(ts.subrange(p as int, j + 1 as int).drop_last() =~= ts.subrange(
                    p as int,
                    j as int,
                ));
                assert(ts.subrange(p as int, j + 1 as int).last() == ts[j as int]);
                assert(ts[j as int] == toks@[j as int]@);
            }
            if j > p {
                joined.push(' ');
            }
            let mut piece = subvec(toks[j].as_slice(), 0, toks[j].len());
            joined.append(&mut piece);
            proof {
                assert(joined@ =~= join_sp(ts.subrange(p as int, j + 1 as int)));
            }
            j = j + 1;
        }
        let guarded = crate::csv_out::strip_plus_chars(&joined);
        rtype = Some(chars_to_string(guarded.as_slice()));
    } else {
        rtype = None;
    }

    let pat_dcc = line_chars("DCC=");
    let pat_nac = line_chars("NAC=");
    let dcc_val = tag_value_chars(&s, &pat_dcc);
    let channel = match dcc_val {
        Some(v) => Some(v),
        None => tag_value_chars(&s, &pat_nac),
    };
    (freq, rtype, channel)
}

/// The tag's value as an optional owned string (shared with the line format).
fn tag_value_chars(v: &Vec<char>, pat: &Vec<char>) -> (r: Option<String>)
    ensures
        opt_view(r) == crate::event_stream::tag_value(v@, pat@),
{
    crate::event_stream::tag_value_x(v, pat)
}

/// A slot updated by a `Slot <n>` line: each given field overwrites.
pub open spec fn slot_merge(s: SlotView, tg: Option<Seq<char>>, rid: Option<Seq<char>>) -> SlotView {
    SlotView {
        tg: if tg is Some {
            tg
        } else {
            s.tg
        },
        rid: if rid is Some {
            rid
        } else {
            s.rid
        },
        text: s.text,
    }
}

/// One detail line folded into the two slots: a `Slot <n>` line assigns by
/// number; a bare `TG=`/`RID=` line fills the first slot lacking the field,
/// else the second; anything else changes nothing.
pub open spec fn apply_detail(line: Seq<char>, s1: SlotView, s2: SlotView) -> (SlotView, SlotView) {
    let t = strip_bom_s(trim_s(line));
    if starts_with_s(t, "Slot "@) {
        let rest = t.skip(5);
        let slot_no = first_token(rest);
        let rest_line = trim_s(rest.skip(slot_no.len() as int));
        let tg = tg_of(rest_line);
        let rid = rid_of(rest_line);
        if slot_no == seq!['1'] {
            (slot_merge(s1, tg, rid), s2)
        } else if slot_no == seq!['2'] {
            (s1, slot_merge(s2, tg, rid))
        } else {
            (s1, s2)
        }
    } else if starts_with_s(t, "TG="@) || contains_sub(t, " TG="@) || contains_sub(t, "RID="@) {
        let tg = tg_of(t);
        let rid = rid_of(t);
        let a = if s1.tg is None && tg is Some {
            (SlotView { tg, ..s1 }, s2)
        } else if s2.tg is None && tg is Some {
            (s1, SlotView { tg, ..s2 })
        } else {
            (s1, s2)
        };
        if a.0.rid is None && rid is Some {
            (SlotView { rid, ..a.0 }, a.1)
        } else if a.1.rid is None && rid is Some {
            (a.0, SlotView { rid, ..a.1 })
        } else {
            a
        }
    } else {
        (s1, s2)
    }
}

/// The slots after folding every detail line from `k` to the next blank line
/// or the end of input.
pub open spec fn slots_to_blank(
    lines: Seq<Seq<char>>,
    k: int,
    s1: SlotView,
    s2: SlotView,
) -> (SlotView, SlotView)
    decreases lines.len() - k,
{
    if k < 0 || k >= lines.len() || trim_s(lines[k]).len() == 0 {
        (s1, s2)
    } else {
        let a = apply_detail(lines[k], s1, s2);
        slots_to_blank(lines, k + 1, a.0, a.1)
    }
}

/// The first line at or past `i` that is not blank after trimming; the length
/// when there is none.
pub open spec fn next_nonempty(lines: Seq<Seq<char>>, i: int) -> int
    decreases lines.len() - i,
{
    if i < 0 || i >= lines.len() {
        lines.len() as int
    } else if trim_s(lines[i]).len() > 0 {
        i
    } else {
        next_nonempty(lines, i + 1)
    }
}

pub proof fn lemma_next_nonempty_bounds(lines: Seq<Seq<char>>, i: int)
    requires
        0 <= i <= lines.len(),
    ensures
        i <= next_nonempty(lines, i) <= lines.len(),
    decreases lines.len() - i,
{
    if i < lines.len() && trim_s(lines[i]).len() == 0 {
        lemma_next_nonempty_bounds(lines, i + 1);
    }
}

/// Where reading resumes after a discarded block: one past the next blank
/// line, or the end of input.
pub open spec fn drain_end(lines: Seq<Seq<char>>, i: int) -> int
    decreases lines.len() - i,
{
    if i < 0 || i >= lines.len() {
        lines.len() as int
    } else if trim_s(lines[i]).len() == 0 {
        i + 1
    } else {
        drain_end(lines, i + 1)
    }
}

pub proof fn lemma_drain_end_bounds(lines: Seq<Seq<char>>, i: int)
    requires
        0 <= i <= lines.len(),
    ensures
        i <= drain_end(lines, i) <= lines.len(),
    decreases lines.len() - i,
{
    if i < lines.len() && trim_s(lines[i]).len() > 0 {
        lemma_drain_end_bounds(lines, i + 1);
    }
}

/// The blank line (or the end of input) that closes a detail run.
pub open spec fn detail_end(lines: Seq<Seq<char>>, i: int) -> int
    decreases lines.len() - i,
{
    if i < 0 || i >= lines.len() {
        lines.len() as int
    } else if trim_s(lines[i]).len() == 0 {
        i
    } else {
        detail_end(lines, i + 1)
    }
}

pub proof fn lemma_detail_end_bounds(lines: Seq<Seq<char>>, i: int)
    requires
        0 <= i <= lines.len(),
    ensures
        i <= detail_end(lines, i) <= lines.len(),
    decreases lines.len() - i,
{
    if i < lines.len() && trim_s(lines[i]).len() > 0 {
        lemma_detail_end_bounds(lines, i + 1);
    }
}

/// The records the block format yields from line `i` on, each block's civil
/// time resolved to the fixed offset `off`: blank lines between blocks are
/// skipped, an unparsable index reads as zero, a malformed date-time line
/// discards its block up to the next blank line, an input exhausted mid-header
/// ends parsing, and every block parsed yields one record of duration one.
pub open spec fn blocks_from(lines: Seq<Seq<char>>, i: int, off: int) -> Seq<RecordView>
    decreases lines.len() - i, 1int,
    via blocks_from_decreases
{
    let n = lines.len() as int;
    let i1 = next_nonempty(lines, i);
    if i < 0 || i1 >= n {
        Seq::empty()
    } else {
        let recno: int = match parse_usize_s(strip_bom_s(trim_s(lines[i1]))) {
            Some(v) => v as int,
            None => 0,
        };
        let i2 = next_nonempty(lines, i1 + 1);
        if i2 >= n {
            Seq::empty()
        } else {
            let i3 = next_nonempty(lines, i2 + 1);
            if i3 >= n {
                Seq::empty()
            } else {
                match parse_datetime_s(strip_bom_s(trim_s(lines[i3]))) {
                    None => blocks_from(lines, drain_end(lines, i3 + 1), off),
                    Some(dt) => {
                        let i4 = next_nonempty(lines, i3 + 1);
                        if i4 >= n {
                            Seq::empty()
                        } else {
                            let e = detail_end(lines, i4 + 1);
                            let slots = slots_to_blank(
                                lines,
                                i4 + 1,
                                SlotView::empty(),
                                SlotView::empty(),
                            );
                            let rec = RecordView {
                                record_number: recno,
                                datetime: ZonedDateTime { local: dt, offset_seconds: off as i32 },
                                frequency: freq_of4(lines[i4]),
                                radio_type: rtype_of4(lines[i4]),
                                dcc: channel_of4(lines[i4]),
                                slot1: slots.0,
                                slot2: slots.1,
                                duration: 1,
                            };
                            seq![rec] + blocks_from(
                                lines,
                                if e < n {
                                    e + 1
                                } else {
                                    n
                                },
                                off,
                            )
                        }
                    },
                }
            }
        }
    }
}

#[via_fn]
proof fn blocks_from_decreases(lines: Seq<Seq<char>>, i: int, off: int) {
    let n = lines.len() as int;
    if 0 <= i && next_nonempty(lines, i) < n {
        lemma_next_nonempty_bounds(lines, i);
        let i1 = next_nonempty(lines, i);
        if next_nonempty(lines, i1 + 1) < n {
            let i2 = next_nonempty(lines, i1 + 1);
            lemma_next_nonempty_bounds(lines, i1 + 1);
            if next_nonempty(lines, i2 + 1) < n {
                let i3 = next_nonempty(lines, i2 + 1);
                lemma_next_nonempty_bounds(lines, i2 + 1);
                lemma_drain_end_bounds(lines, i3 + 1);
                if next_nonempty(lines, i3 + 1) < n {
                    let i4 = next_nonempty(lines, i3 + 1);
                    lemma_next_nonempty_bounds(lines, i3 + 1);
                    lemma_detail_end_bounds(lines, i4 + 1);
                }
            }
        }
    }
}

fn line_blank(s: &str) -> (r: bool)
    ensures
        r == (trim_s(s@).len() == 0),
{
    let c = line_chars(s);
    let t = trim(&c);
    t.len() == 0
}

fn next_nonempty_x(lines: &Vec<String>, i: usize) -> (r: usize)
    requires
        i <= lines@.len(),
    ensures
        r as int == next_nonempty(lines.deep_view(), i as int),
        i <= r <= lines@.len(),
{
    let ghost ls = lines.deep_view();
    let mut j: usize = i;
    while j < lines.len()
        invariant
            i <= j <= lines@.len(),
            ls == lines.deep_view(),
            ls.len() == lines@.len(),
            next_nonempty(ls, i as int) == next_nonempty(ls, j as int),
        decreases lines@.len() - j,
    {
        proof {
            assert(ls[j as int] == lines@[j as int]@);
        }
        if !line_blank(lines[j].as_str()) {
            return j;
        }
        j = j + 1;
    }
    j
}

fn drain_x(lines: &Vec<String>, i: usize) -> (r: usize)
    requires
        i <= lines@.len(),
    ensures
        r as int == drain_end(lines.deep_view(), i as int),
        i <= r <= lines@.len(),
{
    let ghost ls = lines.deep_view();
    let mut j: usize = i;
    while j < lines.len()
        invariant
            i <= j <= lines@.len(),
            ls == lines.deep_view(),
            ls.len() == lines@.len(),
            drain_end(ls, i as int) == drain_end(ls, j as int),
        decreases lines@.len() - j,
    {
        proof {
            assert(ls[j as int] == lines@[j as int]@);
        }
        if line_blank(lines[j].as_str()) {
            return j + 1;
        }
        j = j + 1;
    }
    j
}

/// One detail line folded into the two slots.
fn apply_detail_x(line: &str, s1: SlotData, s2: SlotData) -> (r: (SlotData, SlotData))
    ensures
        r.0@ == apply_detail(line@, s1@, s2@).0,
        r.1@ == apply_detail(line@, s1@, s2@).1,
{
    broadcast use crate::text::lemma_chars_deep_view;

    let chars = line_chars(line);
    let t0 = trim(&chars);
    let t = strip_bom(&t0);
    let slot_pre = line_chars("Slot ");
    let tg_pre = line_chars("TG=");
    let rid_pre = line_chars("RID=");
    if starts_with(t.as_slice(), slot_pre.as_slice()) {
        let rest = subvec(t.as_slice(), slot_pre.len(), t.len());
        proof {
            assert(slot_pre@.len() == 5) by {
                reveal_strlit("Slot ");
            }
            assert(rest@ =~= t@.skip(5));
        }
        let toks = split_ws(&rest);
        let slot_len: usize = if toks.len() > 0 {
            proof {
                assert(toks.deep_view()[0] == toks@[0]@);
                crate::text::lemma_first_token_len(rest@);
            }
            toks[0].len()
        } else {
            0
        };
        proof {
            assert(slot_len as int == first_token(rest@).len());
            crate::text::lemma_first_token_len(rest@);
        }
        let rest_line0 = subvec(rest.as_slice(), slot_len, rest.len());
        proof {
            assert(rest_line0@ =~= rest@.skip(slot_len as int));
        }
        let rest_line = trim(&rest_line0);
        let nb = strip_bom(&rest_line);
        let tks = split_ws(&nb);
        let tg = last_kv_x(&tks, &tg_pre);
        let rid = last_kv_x(&tks, &rid_pre);
        let is1 = toks.len() > 0 && toks[0].len() == 1 && toks[0][0] == '1';
        let is2 = toks.len() > 0 && toks[0].len() == 1 && toks[0][0] == '2';
        proof {
            if toks.len() > 0 {
                assert(first_token(rest@) == toks@[0]@);
                assert(is1 == (first_token(rest@) =~= seq!['1']));
                assert(is2 == (first_token(rest@) =~= seq!['2']));
            } else {
                assert(!(first_token(rest@) == seq!['1']));
                assert(!(first_token(rest@) == seq!['2']));
            }
        }
        if is1 {
            let merged = SlotData {
                tg: if tg.is_some() {
                    tg
                } else {
                    s1.tg
                },
                rid: if rid.is_some() {
                    rid
                } else {
                    s1.rid
                },
                text: s1.text,
            };
            (merged, s2)
        } else if is2 {
            let merged = SlotData {
                tg: if tg.is_some() {
                    tg
                } else {
                    s2.tg
                },
                rid: if rid.is_some() {
                    rid
                } else {
                    s2.rid
                },
                text: s2.text,
            };
            (s1, merged)
        } else {
            (s1, s2)
        }
    } else {
        let space_tg = line_chars(" TG=");
        let bare = starts_with(t.as_slice(), tg_pre.as_slice()) || crate::text::find(
            t.as_slice(),
            space_tg.as_slice(),
        ).is_some() || crate::text::find(t.as_slice(), rid_pre.as_slice()).is_some();
        if bare {
            let nb2 = strip_bom(&t);
            let toks = split_ws(&nb2);
            let tg = last_kv_x(&toks, &tg_pre);
            let rid = last_kv_x(&toks, &rid_pre);
            let mut a1 = s1;
            let mut a2 = s2;
            if a1.tg.is_none() && tg.is_some() {
                a1.tg = tg;
            } else if a2.tg.is_none() && tg.is_some() {
                a2.tg = tg;
            }
            if a1.rid.is_none() && rid.is_some() {
                a1.rid = rid;
            } else if a2.rid.is_none() && rid.is_some() {
                a2.rid = rid;
            }
            (a1, a2)
        } else {
            (s1, s2)
        }
    }
}

/// Parse a whole file's lines as blank-line-separated blocks, in order. With
/// no configured offset, a block whose civil time the system zone cannot
/// resolve is discarded like one with a malformed date.
pub fn parse_blocks(lines: &Vec<String>, tz_offset: Option<i32>) -> (out: Vec<RadioRecord>)
    requires
        tz_offset matches Some(o) ==> -86400 < o < 86400,
    ensures
        tz_offset matches Some(o) ==> crate::rle_filter::views_of(out@) == blocks_from(
            lines.deep_view(),
            0,
            o as int,
        ),
        forall|i: int| 0 <= i < out@.len() ==> (#[trigger] out@[i])@.wf(),
{
    let ghost ls = lines.deep_view();
    let mut out: Vec<RadioRecord> = Vec::new();
    let mut i: usize = 0;
    proof {
        if tz_offset is Some {
            assert(crate::rle_filter::views_of(out@) + blocks_from(ls, 0, tz_offset->0 as int)
                =~= blocks_from(ls, 0, tz_offset->0 as int));
        }
    }
    while i < lines.len()
        invariant
            0 <= i <= lines@.len(),
            ls == lines.deep_view(),
            ls.len() == lines@.len(),
            tz_offset matches Some(o) ==> -86400 < o < 86400,
            tz_offset matches Some(o) ==> crate::rle_filter::views_of(out@) + blocks_from(
                ls,
                i as int,
                o as int,
            ) == blocks_from(ls, 0, o as int),
            forall|k: int| 0 <= k < out@.len() ==> (#[trigger] out@[k])@.wf(),
        decreases lines@.len() - i,
    {
        let ghost i0 = i as int;
        let i1 = next_nonempty_x(lines, i);
        if i1 >= lines.len() {
            proof {
                if tz_offset is Some {
                    assert(blocks_from(ls, i0, tz_offset->0 as int) =~= Seq::<RecordView>::empty());
                }
            }
            i = lines.len();
            continue ;
        }
        proof {
            assert(ls[i1 as int] == lines@[i1 as int]@);
        }
        let idx_chars = line_chars(lines[i1].as_str());
        let idx_trim = trim(&idx_chars);
        let idx_raw = strip_bom(&idx_trim);
        let record_number: usize = match parse_usize(idx_raw.as_slice()) {
            Some(v) => v,
            None => 0,
        };
        let i2 = next_nonempty_x(lines, i1 + 1);
        if i2 >= lines.len() {
            proof {
                if tz_offset is Some {
                    assert(blocks_from(ls, i0, tz_offset->0 as int) =~= Seq::<RecordView>::empty());
                }
            }
            i = lines.len();
            continue ;
        }
        let i3 = next_nonempty_x(lines, i2 + 1);
        if i3 >= lines.len() {
            proof {
                if tz_offset is Some {
                    assert(blocks_from(ls, i0, tz_offset->0 as int) =~= Seq::<RecordView>::empty());
                }
            }
            i = lines.len();
            continue ;
        }
        proof {
            assert(ls[i3 as int] == lines@[i3 as int]@);
        }
        let dt_chars = line_chars(lines[i3].as_str());
        let dt_trim = trim(&dt_chars);
        let dt_raw = strip_bom(&dt_trim);
        let dt = match parse_datetime(dt_raw.as_slice()) {
            Some(d) => d,
            None => {
                let c = drain_x(lines, i3 + 1);
                proof {
                    if tz_offset is Some {
                        let o = tz_offset->0 as int;
                        assert(blocks_from(ls, i0, o) == blocks_from(ls, c as int, o));
                    }
                }
                i = c;
                continue ;
            },
        };
        let off = match resolve_offset(&dt, tz_offset) {
            Some(o) => o,
            None => {
                proof {
                    if tz_offset is Some {
                        assert(false);
                    }
                }
                i = drain_x(lines, i3 + 1);
                continue ;
            },
        };
        let i4 = next_nonempty_x(lines, i3 + 1);
        if i4 >= lines.len() {
            proof {
                if tz_offset is Some {
                    assert(blocks_from(ls, i0, tz_offset->0 as int) =~= Seq::<RecordView>::empty());
                }
            }
            i = lines.len();
            continue ;
        }
        proof {
            assert(ls[i4 as int] == lines@[i4 as int]@);
        }
        let (frequency, radio_type, dcc) = parse_freq_type_dcc(lines[i4].as_str());
        let mut s1 = SlotData::empty();
        let mut s2 = SlotData::empty();
        let mut k: usize = i4 + 1;
        let ghost k0 = k as int;
        while k < lines.len() && !line_blank(lines[k].as_str())
            invariant
                k0 <= k <= lines@.len(),
                ls == lines.deep_view(),
                ls.len() == lines@.len(),
                slots_to_blank(ls, k as int, s1@, s2@) == slots_to_blank(
                    ls,
                    k0,
                    SlotView::empty(),
                    SlotView::empty(),
                ),
                detail_end(ls, k as int) == detail_end(ls, k0),
            decreases lines@.len() - k,
        {
            proof {
                assert(ls[k as int] == lines@[k as int]@);
            }
            let folded = apply_detail_x(lines[k].as_str(), s1, s2);
            s1 = folded.0;
            s2 = folded.1;
            k = k + 1;
        }
        proof {
            if k < lines.len() {
                assert(ls[k as int] == lines@[k as int]@);
            }
            assert(detail_end(ls, k0) == k as int);
            assert(slots_to_blank(ls, k0, SlotView::empty(), SlotView::empty()) == (s1@, s2@));
        }
        let rec = RadioRecord {
            record_number,
            datetime: ZonedDateTime { local: dt, offset_seconds: off },
            frequency,
            radio_type,
            dcc,
            slot1: s1,
            slot2: s2,
            duration: 1,
        };
        let next_i: usize = if k < lines.len() {
            k + 1
        } else {
            lines.len()
        };
        proof {
            if tz_offset is Some {
                let o = tz_offset->0 as int;
                assert(blocks_from(ls, i0, o) == seq![rec@] + blocks_from(ls, next_i as int, o));
            }
        }
        let ghost prev = crate::rle_filter::views_of(out@);
        out.push(rec);
        proof {
            assert(crate::rle_filter::views_of(out@) =~= prev.push(rec@));
            if tz_offset is Some {
                let o = tz_offset->0 as int;
                assert(crate::rle_filter::views_of(out@) + blocks_from(ls, next_i as int, o)
                    =~= blocks_from(ls, 0, o));
            }
        }
        i = next_i;
    }
    proof {
        if tz_offset is Some {
            let o = tz_offset->0 as int;
            if i >= lines.len() {
                assert(blocks_from(ls, i as int, o) =~= Seq::<RecordView>::empty());
            }
            assert(crate::rle_filter::views_of(out@) =~= blocks_from(ls, 0, o));
        }
    }
    out
}

/// A malformed date line costs exactly its own block: everything up to and
/// including the next blank line is dropped, and the blocks after it parse as
/// if the bad block were not there.
pub proof fn lemma_bad_date_drops_block(lines: Seq<Seq<char>>, i: int, off: int)
    requires
        0 <= i,
        next_nonempty(lines, i) < lines.len(),
        next_nonempty(lines, next_nonempty(lines, i) + 1) < lines.len(),
        next_nonempty(lines, next_nonempty(lines, next_nonempty(lines, i) + 1) + 1) < lines.len(),
        parse_datetime_s(
            strip_bom_s(
                trim_s(
                    lines[next_nonempty(
                        lines,
                        next_nonempty(lines, next_nonempty(lines, i) + 1) + 1,
                    )],
                ),
            ),
        ) is None,
    ensures
        blocks_from(lines, i, off) == blocks_from(
            lines,
            drain_end(
                lines,
                next_nonempty(lines, next_nonempty(lines, next_nonempty(lines, i) + 1) + 1) + 1,
            ),
            off,
        ),
{
}

} // verus!
