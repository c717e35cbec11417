//! The record model: one transmission event (or consolidated run) with its
//! identity — the fields that define "the same ongoing transmission", which
//! exclude the timestamp and any attached text.
use crate::datetime::ZonedDateTime;
use vstd::prelude::*;

verus! {

/// One logical slot of a transmission: talkgroup, radio id, attached text.
#[derive(Debug)]
pub struct SlotData {
    pub tg: Option<String>,
    pub rid: Option<String>,
    pub text: Option<String>,
}

/// The mathematical value of an optional string field.
pub open spec fn opt_view(o: Option<String>) -> Option<Seq<char>> {
    match o {
        Some(s) => Some(s@),
        None => None,
    }
}

pub ghost struct SlotView {
    pub tg: Option<Seq<char>>,
    pub rid: Option<Seq<char>>,
    pub text: Option<Seq<char>>,
}

impl SlotView {
    pub open spec fn empty() -> SlotView {
        SlotView { tg: None, rid: None, text: None }
    }
}

impl View for SlotData {
    type V = SlotView;

    open spec fn view(&self) -> SlotView {
        SlotView { tg: opt_view(self.tg), rid: opt_view(self.rid), text: opt_view(self.text) }
    }
}

impl SlotData {
    /// A slot with no fields set.
    pub fn empty() -> (r: SlotData)
        ensures
            r@ == SlotView::empty(),
    {
        SlotData { tg: None, rid: None, text: None }
    }
}

/// One transmission event, or one consolidated run of adjacent events.
#[derive(Debug)]
pub struct RadioRecord {
    /// Sequence number from the source file; non-decreasing within one file.
    pub record_number: usize,
    pub datetime: ZonedDateTime,
    /// Normalized fixed-point numeric string, or absent.
    pub frequency: Option<String>,
    /// Short type code with leading marker characters stripped, or absent.
    pub radio_type: Option<String>,
    /// Unified channel code: a network access code or a digital color code.
    pub dcc: Option<String>,
    pub slot1: SlotData,
    pub slot2: SlotData,
    /// Accumulated unit count; at least one.
    pub duration: u32,
}

pub ghost struct RecordView {
    pub record_number: int,
    pub datetime: ZonedDateTime,
    pub frequency: Option<Seq<char>>,
    pub radio_type: Option<Seq<char>>,
    pub dcc: Option<Seq<char>>,
    pub slot1: SlotView,
    pub slot2: SlotView,
    pub duration: int,
}

impl View for RadioRecord {
    type V = RecordView;

    open spec fn view(&self) -> RecordView {
        RecordView {
            record_number: self.record_number as int,
            datetime: self.datetime,
            frequency: opt_view(self.frequency),
            radio_type: opt_view(self.radio_type),
            dcc: opt_view(self.dcc),
            slot1: self.slot1@,
            slot2: self.slot2@,
            duration: self.duration as int,
        }
    }
}

/// The consolidation identity of a record: everything that defines "the same
/// ongoing transmission". Timestamps and attached text are deliberately
/// excluded.
pub ghost struct Identity {
    pub frequency: Option<Seq<char>>,
    pub radio_type: Option<Seq<char>>,
    pub dcc: Option<Seq<char>>,
    pub slot1_tg: Option<Seq<char>>,
    pub slot1_rid: Option<Seq<char>>,
    pub slot2_tg: Option<Seq<char>>,
    pub slot2_rid: Option<Seq<char>>,
}

impl RecordView {
    pub open spec fn identity(self) -> Identity {
        Identity {
            frequency: self.frequency,
            radio_type: self.radio_type,
            dcc: self.dcc,
            slot1_tg: self.slot1.tg,
            slot1_rid: self.slot1.rid,
            slot2_tg: self.slot2.tg,
            slot2_rid: self.slot2.rid,
        }
    }

    pub open spec fn wf(self) -> bool {
        &&& self.datetime.wf()
        &&& self.duration >= 1
        &&& 0 <= self.record_number <= usize::MAX
    }
}

impl RadioRecord {
    /// Decide well-formedness: a valid zoned timestamp and a positive
    /// duration.
    pub fn is_wf(&self) -> (r: bool)
        ensures
            r == self@.wf(),
    {
        self.datetime.is_valid() && self.duration >= 1
    }
}

/// A copy of an optional string field with the same value.
pub fn clone_opt_string(o: &Option<String>) -> (r: Option<String>)
    ensures
        opt_view(r) == opt_view(*o),
{
    match o {
        Some(s) => Some(s.clone()),
        None => None,
    }
}

impl Clone for SlotData {
    fn clone(&self) -> (r: Self)
        ensures
            r@ == self@,
    {
        SlotData {
            tg: clone_opt_string(&self.tg),
            rid: clone_opt_string(&self.rid),
            text: clone_opt_string(&self.text),
        }
    }
}

impl Clone for RadioRecord {
    fn clone(&self) -> (r: Self)
        ensures
            r@ == self@,
    {
        RadioRecord {
            record_number: self.record_number,
            datetime: self.datetime,
            frequency: clone_opt_string(&self.frequency),
            radio_type: clone_opt_string(&self.radio_type),
            dcc: clone_opt_string(&self.dcc),
            slot1: self.slot1.clone(),
            slot2: self.slot2.clone(),
            duration: self.duration,
        }
    }
}

/// Equality of two optional string fields.
pub fn opt_str_eq(a: &Option<String>, b: &Option<String>) -> (r: bool)
    ensures
        r == (opt_view(*a) == opt_view(*b)),
{
    match (a, b) {
        (None, None) => true,
        (Some(x), Some(y)) => x.eq(y),
        _ => false,
    }
}

} // verus!
