//! The run-length consolidation stage: adjacent records of identical radio
//! identity are merged into one record whose `duration` grows by exactly one
//! unit per consumed record, keeping the first record's timestamp, number and
//! text. Incoming records with `duration == 0` are first normalized to 1.
use crate::model::{RadioRecord, RecordView};
use vstd::prelude::*;

verus! {

/// `r` with a zero duration normalized to one.
pub open spec fn norm1(r: RecordView) -> RecordView {
    if r.duration == 0 {
        RecordView { duration: 1, ..r }
    } else {
        r
    }
}

/// `r` extended by one consumed record (saturating at the duration type's
/// maximum).
pub open spec fn extend1(r: RecordView) -> RecordView {
    if r.duration >= u32::MAX {
        r
    } else {
        RecordView { duration: r.duration + 1, ..r }
    }
}

/// The open run after one incoming record.
pub open spec fn step_state(state: Option<RecordView>, x: RecordView) -> Option<RecordView> {
    match state {
        None => Some(norm1(x)),
        Some(run) => {
            if run.identity() == x.identity() {
                Some(extend1(run))
            } else {
                Some(norm1(x))
            }
        },
    }
}

/// What one incoming record makes the stage emit: the flushed previous run
/// when the identity changes, nothing otherwise.
pub open spec fn step_emit(state: Option<RecordView>, x: RecordView) -> Option<RecordView> {
    match state {
        None => None,
        Some(run) => {
            if run.identity() == x.identity() {
                None
            } else {
                Some(run)
            }
        },
    }
}

/// Everything the stage emits for the input `s` when `state` is the open run,
/// including the final flush.
pub open spec fn consolidate_from(state: Option<RecordView>, s: Seq<RecordView>) -> Seq<RecordView>
    decreases s.len(),
{
    if s.len() == 0 {
        match state {
            None => Seq::empty(),
            Some(run) => seq![run],
        }
    } else {
        (match step_emit(state, s[0]) {
            Some(e) => seq![e],
            None => Seq::empty(),
        }) + consolidate_from(step_state(state, s[0]), s.drop_first())
    }
}

/// The consolidated output for the whole input sequence `s`.
pub open spec fn consolidate(s: Seq<RecordView>) -> Seq<RecordView> {
    consolidate_from(None, s)
}

/// The views of a sequence of records.
pub open spec fn views_of(s: Seq<RadioRecord>) -> Seq<RecordView> {
    s.map_values(|r: RadioRecord| r@)
}

/// Whether two records share their radio identity (frequency, type, channel
/// code, and both slots' talkgroup and radio id; never timestamp or text).
pub fn same_identity(a: &RadioRecord, b: &RadioRecord) -> (r: bool)
    ensures
        r == (a@.identity() == b@.identity()),
{
    let r = crate::model::opt_str_eq(&a.frequency, &b.frequency) && crate::model::opt_str_eq(
        &a.radio_type,
        &b.radio_type,
    ) && crate::model::opt_str_eq(&a.dcc, &b.dcc) && crate::model::opt_str_eq(
        &a.slot1.tg,
        &b.slot1.tg,
    ) && crate::model::opt_str_eq(&a.slot1.rid, &b.slot1.rid) && crate::model::opt_str_eq(
        &a.slot2.tg,
        &b.slot2.tg,
    ) && crate::model::opt_str_eq(&a.slot2.rid, &b.slot2.rid);
    r
}

/// The consolidation stage's state: at most one open run.
pub struct Consolidator {
    cur: Option<RadioRecord>,
}

impl View for Consolidator {
    type V = Option<RecordView>;

    closed spec fn view(&self) -> Option<RecordView> {
        match self.cur {
            Some(r) => Some(r@),
            None => None,
        }
    }
}

impl Consolidator {
    /// A consolidator with no open run.
    pub fn new() -> (r: Consolidator)
        ensures
            r@ is None,
    {
        Consolidator { cur: None }
    }

    /// Feed one record; returns the flushed previous run when the identity
    /// changes, nothing otherwise.
    pub fn push(&mut self, mut rec: RadioRecord) -> (out: Option<RadioRecord>)
        ensures
            final(self)@ == step_state(old(self)@, rec@),
            (match out {
                Some(o) => Some(o@),
                None => None,
            }) == step_emit(old(self)@, rec@),
    {
        let ghost x = rec@;
        if rec.duration == 0 {
            rec.duration = 1;
        }
        assert(rec@ == norm1(x));
        let same = match &self.cur {
            None => false,
            Some(run) => same_identity(run, &rec),
        };
        proof {
            // Normalizing the duration leaves the identity unchanged.
            assert(norm1(x).identity() == x.identity());
        }
        match &mut self.cur {
            None => {
                self.cur = Some(rec);
                None
            },
            Some(run) => {
                if same {
                    if run.duration < u32::MAX {
                        run.duration = run.duration + 1;
                    }
                    None
                } else {
                    let prev = run.clone();
                    self.cur = Some(rec);
                    Some(prev)
                }
            },
        }
    }

    /// End of input: flush the still-open run, if any.
    pub fn finish(self) -> (out: Option<RadioRecord>)
        ensures
            (match out {
                Some(o) => Some(o@),
                None => None,
            }) == self@,
    {
        self.cur
    }
}

/// How many leading records of `s` carry the identity `id`.
pub open spec fn ext_len(id: crate::model::Identity, s: Seq<RecordView>) -> int
    decreases s.len(),
{
    if s.len() > 0 && s[0].identity() == id {
        1 + ext_len(id, s.drop_first())
    } else {
        0
    }
}

pub proof fn lemma_ext_len_bounds(id: crate::model::Identity, s: Seq<RecordView>)
    ensures
        0 <= ext_len(id, s) <= s.len(),
    decreases s.len(),
{
    if s.len() > 0 && s[0].identity() == id {
        lemma_ext_len_bounds(id, s.drop_first());
    }
}

/// The sizes of the maximal adjacent same-identity groups of `s`, in order.
pub open spec fn group_sizes(s: Seq<RecordView>) -> Seq<int>
    decreases s.len(),
    via group_sizes_decreases
{
    if s.len() == 0 {
        Seq::empty()
    } else {
        let k = 1 + ext_len(s[0].identity(), s.drop_first());
        seq![k] + group_sizes(s.skip(k))
    }
}

#[via_fn]
proof fn group_sizes_decreases(s: Seq<RecordView>) {
    if s.len() > 0 {
        lemma_ext_len_bounds(s[0].identity(), s.drop_first());
    }
}

/// `run` with `k` more consumed records.
spec fn bump(run: RecordView, k: int) -> RecordView {
    RecordView { duration: run.duration + k, ..run }
}

/// Feeding a run's continuation absorbs it into the open run: the output is
/// the extended run followed by the consolidation of what comes after the run.
proof fn lemma_absorb(run: RecordView, s: Seq<RecordView>)
    requires
        forall|i: int| 0 <= i < s.len() ==> 0 <= (#[trigger] s[i]).duration,
        run.duration >= 0,
        run.duration + s.len() < u32::MAX,
    ensures
        consolidate_from(Some(run), s) == seq![bump(run, ext_len(run.identity(), s))]
            + consolidate(s.skip(ext_len(run.identity(), s))),
    decreases s.len(),
{
    lemma_ext_len_bounds(run.identity(), s);
    let k = ext_len(run.identity(), s);
    if s.len() == 0 {
        assert(bump(run, 0) == run);
        assert(s.skip(0) =~= s);
        assert(consolidate_from(Some(run), s) =~= seq![bump(run, 0)] + consolidate(s.skip(0)));
    } else if s[0].identity() == run.identity() {
        lemma_ext_len_bounds(run.identity(), s.drop_first());
        let run2 = extend1(run);
        assert(run2 == bump(run, 1));
        assert(consolidate_from(Some(run), s) == consolidate_from(Some(run2), s.drop_first()));
        assert(forall|i: int|
            0 <= i < s.drop_first().len() ==> 0 <= (#[trigger] s.drop_first()[i]).duration) by {
            assert(forall|i: int|
                0 <= i < s.drop_first().len() ==> s.drop_first()[i] == s[i + 1]);
        }
        lemma_absorb(run2, s.drop_first());
        assert(run2.identity() == run.identity());
        assert(ext_len(run.identity(), s.drop_first()) == k - 1);
        assert(bump(run2, k - 1) == bump(run, k));
        assert(1 <= k <= s.len());
        assert forall|i: int| 0 <= i < s.len() - k implies s.drop_first().skip(k - 1)[i] == s.skip(
            k,
        )[i] by {
            assert(s.drop_first().skip(k - 1)[i] == s[1 + (k - 1) + i]);
            assert(s.skip(k)[i] == s[k + i]);
        }
        assert(s.drop_first().skip(k - 1) =~= s.skip(k));
    } else {
        assert(k == 0);
        assert(step_emit(Some(run), s[0]) == Some(run));
        assert(step_state(Some(run), s[0]) == Some(norm1(s[0])));
        assert(consolidate_from(Some(run), s) == seq![run] + consolidate_from(
            Some(norm1(s[0])),
            s.drop_first(),
        ));
        assert(consolidate(s) == consolidate_from(Some(norm1(s[0])), s.drop_first()));
        assert(bump(run, 0) == run);
        assert(s.skip(0) =~= s);
    }
}

/// The consolidator's law: for any record sequence whose records each stand
/// for one unit (duration at most one; zero is normalized to one), the output
/// holds exactly one record per maximal adjacent same-identity group of the
/// input, and each output record's duration is that group's size.
pub proof fn lemma_consolidate_runs(s: Seq<RecordView>)
    requires
        forall|i: int| 0 <= i < s.len() ==> 0 <= (#[trigger] s[i]).duration <= 1,
        s.len() < u32::MAX,
    ensures
        consolidate(s).len() == group_sizes(s).len(),
        forall|i: int|
            0 <= i < group_sizes(s).len() ==> (#[trigger] consolidate(s)[i]).duration
                == group_sizes(s)[i],
    decreases s.len(),
{
    if s.len() == 0 {
        assert(consolidate(s) =~= Seq::<RecordView>::empty());
    } else {
        let first = norm1(s[0]);
        assert(first.duration == 1);
        assert(first.identity() == s[0].identity());
        assert(consolidate(s) == consolidate_from(Some(first), s.drop_first()));
        assert(forall|i: int|
            0 <= i < s.drop_first().len() ==> 0 <= (#[trigger] s.drop_first()[i]).duration) by {
            assert(forall|i: int|
                0 <= i < s.drop_first().len() ==> s.drop_first()[i] == s[i + 1]);
        }
        lemma_absorb(first, s.drop_first());
        let k = ext_len(s[0].identity(), s.drop_first());
        lemma_ext_len_bounds(s[0].identity(), s.drop_first());
        assert(consolidate(s) == seq![bump(first, k)] + consolidate(s.drop_first().skip(k)));
        assert(s.drop_first().skip(k) =~= s.skip(k + 1));
        assert(group_sizes(s) == seq![k + 1] + group_sizes(s.skip(k + 1)));
        assert forall|i: int|
            0 <= i < s.skip(k + 1).len() implies 0 <= (#[trigger] s.skip(k + 1)[i]).duration
            <= 1 by {
            assert(s.skip(k + 1)[i] == s[i + k + 1]);
        }
        lemma_consolidate_runs(s.skip(k + 1));
        assert(bump(first, k).duration == k + 1);
        assert forall|i: int| 0 <= i < group_sizes(s).len() implies (
        #[trigger] consolidate(s)[i]).duration == group_sizes(s)[i] by {
            if i > 0 {
                assert(consolidate(s)[i] == consolidate(s.skip(k + 1))[i - 1]);
                assert(group_sizes(s)[i] == group_sizes(s.skip(k + 1))[i - 1]);
            }
        }
    }
}

/// Consolidate a whole record sequence at once.
pub fn rle_compress(records: Vec<RadioRecord>) -> (out: Vec<RadioRecord>)
    ensures
        views_of(out@) == consolidate(views_of(records@)),
{
    let mut c = Consolidator::new();
    let mut out: Vec<RadioRecord> = Vec::new();
    proof {
        assert(views_of(records@.skip(0)) =~= views_of(records@));
        assert(views_of(out@) + consolidate_from(c@, views_of(records@)) =~= consolidate(
            views_of(records@),
        ));
    }
    let n = records.len();
    let mut i: usize = 0;
    let mut rest = records;
    // Records are taken from the front so each can be handed to the stage by
    // value; `rest` always holds the unconsumed suffix.
    while rest.len() > 0
        invariant
            views_of(out@) + consolidate_from(c@, views_of(rest@)) == consolidate(
                views_of(records@),
            ),
        decreases rest@.len(),
    {
        let ghost pre = rest@;
        let rec = rest.remove(0);
        proof {
            assert(views_of(rest@) =~= views_of(pre).drop_first());
            assert(views_of(pre)[0] == rec@);
        }
        let emitted = c.push(rec);
        match emitted {
            Some(e) => {
                let ghost prev_out = views_of(out@);
                out.push(e);
                proof {
                    assert(views_of(out@) =~= prev_out.push(e@));
                    assert(views_of(out@) + consolidate_from(c@, views_of(rest@)) =~= consolidate(
                        views_of(records@),
                    ));
                }
            },
            None => {
                proof {
                    assert(views_of(out@) + consolidate_from(c@, views_of(rest@)) =~= consolidate(
                        views_of(records@),
                    ));
                }
            },
        }
    }
    let last = c.finish();
    proof {
        assert(views_of(rest@) =~= Seq::<RecordView>::empty());
    }
    match last {
        Some(e) => {
            let ghost prev_out = views_of(out@);
            out.push(e);
            proof {
                assert(views_of(out@) =~= prev_out.push(e@));
                assert(views_of(out@) =~= consolidate(views_of(records@)));
            }
        },
        None => {
            proof {
                assert(views_of(out@) =~= consolidate(views_of(records@)));
            }
        },
    }
    out
}

} // verus!
