//! Row formatting for the tabular sink: the fixed column order, and the
//! marker-stripping rule applied to the radio-type column before it is
//! written.
use crate::model::{RadioRecord, RecordView};
use crate::text::{dec_rep, u64_to_string};
use vstd::prelude::*;

verus! {

/// Number of leading `'+'` marker characters at the front of `s`.
pub open spec fn leading_plus_count(s: Seq<char>) -> int
    decreases s.len(),
{
    if s.len() > 0 && s[0] == '+' {
        1 + leading_plus_count(s.drop_first())
    } else {
        0
    }
}

/// The string with every leading `'+'` marker removed.
pub open spec fn strip_leading_plus(s: Seq<char>) -> Seq<char> {
    s.skip(leading_plus_count(s))
}

pub proof fn lemma_leading_plus_count_bounds(s: Seq<char>)
    ensures
        0 <= leading_plus_count(s) <= s.len(),
    decreases s.len(),
{
    if s.len() > 0 && s[0] == '+' {
        lemma_leading_plus_count_bounds(s.drop_first());
    }
}

/// Every leading `'+'` marker removed from a character vector.
pub fn strip_plus_chars(v: &Vec<char>) -> (r: Vec<char>)
    ensures
        r@ == strip_leading_plus(v@),
{
    proof {
        lemma_leading_plus_count_bounds(v@);
    }
    let mut i: usize = 0;
    while i < v.len() && v[i] == '+'
        invariant
            0 <= i <= v@.len(),
            forall|j: int| 0 <= j < i ==> v@[j] == '+',
        decreases v@.len() - i,
    {
        i = i + 1;
    }
    proof {
        lemma_leading_plus_prefix(v@, i as int);
    }
    crate::text::subvec(v.as_slice(), i, v.len())
}

/// Guard a cell against spreadsheet misinterpretation: drop every leading
/// `'+'` from the field.
pub fn excel_guard(s: &str) -> (r: String)
    ensures
        r@ == strip_leading_plus(s@),
{
    proof {
        lemma_leading_plus_count_bounds(s@);
    }
    let len = s.unicode_len();
    let mut i: usize = 0;
    while i < len && s.get_char(i) == '+'
        invariant
            0 <= i <= len,
            len == s@.len(),
            forall|j: int| 0 <= j < i ==> s@[j] == '+',
        decreases len - i,
    {
        i = i + 1;
    }
    proof {
        lemma_leading_plus_prefix(s@, i as int);
    }
    let r = s.substring_char(i, len);
    r.to_owned()
}

/// The radio-type column's guard: same rule, applied unconditionally by the
/// streaming sink.
pub fn excel_guard_radio_type(s: &str) -> (r: String)
    ensures
        r@ == strip_leading_plus(s@),
{
    excel_guard(s)
}

/// The field a cell shows for an optional value: empty when absent.
pub open spec fn opt_or_empty(o: Option<Seq<char>>) -> Seq<char> {
    match o {
        Some(s) => s,
        None => Seq::empty(),
    }
}

/// The column headers of the output, in order.
pub open spec fn header_s() -> Seq<Seq<char>> {
    seq![
        "record_number"@,
        "datetime"@,
        "duration"@,
        "frequency"@,
        "radio_type"@,
        "dcc"@,
        "slot1_tg"@,
        "slot1_rid"@,
        "slot1_text"@,
        "slot2_tg"@,
        "slot2_rid"@,
        "slot2_text"@,
    ]
}

/// One record's row: absent fields print empty, the date-time is
/// `YYYY-MM-DD HH:MM:SS`, and the radio type loses its leading markers.
pub open spec fn row_s(r: RecordView) -> Seq<Seq<char>> {
    seq![
        dec_rep(r.record_number),
        crate::datetime::format_civil_s(r.datetime.local),
        dec_rep(r.duration),
        opt_or_empty(r.frequency),
        strip_leading_plus(opt_or_empty(r.radio_type)),
        opt_or_empty(r.dcc),
        opt_or_empty(r.slot1.tg),
        opt_or_empty(r.slot1.rid),
        opt_or_empty(r.slot1.text),
        opt_or_empty(r.slot2.tg),
        opt_or_empty(r.slot2.rid),
        opt_or_empty(r.slot2.text),
    ]
}

/// The one header row.
pub fn csv_header() -> (r: Vec<String>)
    ensures
        r.deep_view() == header_s(),
{
    let mut v: Vec<String> = Vec::new();
    v.push("record_number".to_owned());
    v.push("datetime".to_owned());
    v.push("duration".to_owned());
    v.push("frequency".to_owned());
    v.push("radio_type".to_owned());
    v.push("dcc".to_owned());
    v.push("slot1_tg".to_owned());
    v.push("slot1_rid".to_owned());
    v.push("slot1_text".to_owned());
    v.push("slot2_tg".to_owned());
    v.push("slot2_rid".to_owned());
    v.push("slot2_text".to_owned());
    proof {
        assert(v.deep_view() =~~= header_s());
    }
    v
}

fn opt_cell(o: &Option<String>) -> (r: String)
    ensures
        r@ == opt_or_empty(crate::model::opt_view(*o)),
{
    match o {
        Some(s) => s.clone(),
        None => String::new(),
    }
}

/// One record as an output row.
pub fn record_row(r: &RadioRecord) -> (row: Vec<String>)
    ensures
        row.deep_view() == row_s(r@),
{
    let mut v: Vec<String> = Vec::new();
    v.push(u64_to_string(r.record_number as u64));
    v.push(crate::datetime::format_civil(&r.datetime.local));
    v.push(u64_to_string(r.duration as u64));
    v.push(opt_cell(&r.frequency));
    let rt = opt_cell(&r.radio_type);
    v.push(excel_guard_radio_type(rt.as_str()));
    v.push(opt_cell(&r.dcc));
    v.push(opt_cell(&r.slot1.tg));
    v.push(opt_cell(&r.slot1.rid));
    v.push(opt_cell(&r.slot1.text));
    v.push(opt_cell(&r.slot2.tg));
    v.push(opt_cell(&r.slot2.rid));
    v.push(opt_cell(&r.slot2.text));
    proof {
        assert(v.deep_view() =~~= row_s(r@));
    }
    v
}

/// If the first `i` characters of `s` are `'+'` and either `i == s.len()` or
/// `s[i] != '+'`, then `i` is exactly the leading-marker count.
proof fn lemma_leading_plus_prefix(s: Seq<char>, i: int)
    requires
        0 <= i <= s.len(),
        forall|j: int| 0 <= j < i ==> s[j] == '+',
        i < s.len() ==> s[i] != '+',
    ensures
        leading_plus_count(s) == i,
    decreases s.len(),
{
    if s.len() > 0 && s[0] == '+' {
        assert(i >= 1);
        lemma_leading_plus_prefix(s.drop_first(), i - 1);
    }
}

} // verus!
