//! The stateless field-equality filter: a record passes iff, for every
//! non-empty criterion list, the corresponding field is present and equals one
//! of the listed values.
use crate::model::{RadioRecord, RecordView};
use vstd::prelude::*;

verus! {

#[derive(Clone, Debug)]
pub struct FilterConfig {
    pub freqs: Vec<String>,
    pub rtypes: Vec<String>,
    pub rids: Vec<String>,
    pub tgs: Vec<String>,
    pub nacs: Vec<String>,
}

/// One criterion: an empty list imposes no constraint; a non-empty list
/// demands the field be present and equal to one of its values.
pub open spec fn criterion_matches(list: Seq<Seq<char>>, field: Option<Seq<char>>) -> bool {
    list.len() == 0 || (field matches Some(f) && list.contains(f))
}

impl FilterConfig {
    /// Whether `r` passes every active criterion.
    pub open spec fn accept_s(self, r: RecordView) -> bool {
        &&& criterion_matches(self.freqs.deep_view(), r.frequency)
        &&& criterion_matches(self.rtypes.deep_view(), r.radio_type)
        &&& criterion_matches(self.rids.deep_view(), r.slot1.rid)
        &&& criterion_matches(self.tgs.deep_view(), r.slot1.tg)
        &&& criterion_matches(self.nacs.deep_view(), r.dcc)
    }

    pub fn accept(&self, r: &RadioRecord) -> (res: bool)
        ensures
            res == self.accept_s(r@),
    {
        if !field_ok(&self.freqs, &r.frequency) {
            return false;
        }
        if !field_ok(&self.rtypes, &r.radio_type) {
            return false;
        }
        if !field_ok(&self.rids, &r.slot1.rid) {
            return false;
        }
        if !field_ok(&self.tgs, &r.slot1.tg) {
            return false;
        }
        if !field_ok(&self.nacs, &r.dcc) {
            return false;
        }
        true
    }
}

fn list_contains(list: &Vec<String>, f: &String) -> (r: bool)
    ensures
        r == list.deep_view().contains(f@),
{
    let mut i: usize = 0;
    while i < list.len()
        invariant
            0 <= i <= list@.len(),
            forall|j: int| 0 <= j < i ==> list.deep_view()[j] != f@,
        decreases list@.len() - i,
    {
        if list[i].eq(f) {
            assert(list.deep_view()[i as int] == f@);
            return true;
        }
        i = i + 1;
    }
    assert(!list.deep_view().contains(f@));
    false
}

fn field_ok(list: &Vec<String>, field: &Option<String>) -> (r: bool)
    ensures
        r == criterion_matches(list.deep_view(), crate::model::opt_view(*field)),
{
    if list.len() == 0 {
        return true;
    }
    match field {
        Some(f) => list_contains(list, f),
        None => false,
    }
}

/// A record whose field is absent is rejected by an active criterion on that
/// field: here, a missing frequency under a non-empty frequency list.
pub proof fn lemma_filter_rejects_absent_field(cfg: FilterConfig, r: RecordView)
    requires
        cfg.freqs.deep_view().len() > 0,
        r.frequency is None,
    ensures
        !cfg.accept_s(r),
{
}

/// A record every active criterion of which is matched by the corresponding
/// present field is accepted.
pub proof fn lemma_filter_accepts_matching(cfg: FilterConfig, r: RecordView)
    requires
        cfg.freqs.deep_view().len() > 0 ==> (r.frequency matches Some(f)
            && cfg.freqs.deep_view().contains(f)),
        cfg.rtypes.deep_view().len() > 0 ==> (r.radio_type matches Some(t)
            && cfg.rtypes.deep_view().contains(t)),
        cfg.rids.deep_view().len() > 0 ==> (r.slot1.rid matches Some(i)
            && cfg.rids.deep_view().contains(i)),
        cfg.tgs.deep_view().len() > 0 ==> (r.slot1.tg matches Some(g)
            && cfg.tgs.deep_view().contains(g)),
        cfg.nacs.deep_view().len() > 0 ==> (r.dcc matches Some(d)
            && cfg.nacs.deep_view().contains(d)),
    ensures
        cfg.accept_s(r),
{
}

} // verus!
