//! The day-sharded transcript index: filenames of one day's folder parsed
//! into lookup keys and held in four maps of falling specificity — full key,
//! radio-id only, talkgroup only, bare (time and frequency) — with first-wins
//! insertion and a fall-back lookup from most to least specific.
use crate::datetime::ZonedDateTime;
use crate::errors::AppError;
use crate::model::RadioRecord;
use crate::text::{
    chars_to_string, ends_with, find_char, line_chars, normalize_freq_chars, normalize_freq_s,
    parse_u32, parse_u32_s, split_at_char, split_char, subvec, u64_to_chars_pad,
};
use vstd::prelude::*;

verus! {

/// Key for per-day transcript lookup (the day itself is implicit in the
/// shard).
#[derive(Debug)]
pub struct K {
    /// Time of day as the integer `HHMMSS`.
    pub time: u32,
    /// Normalized frequency string.
    pub freq: String,
    pub tg: Option<u32>,
    pub rid: Option<u32>,
}

pub ghost struct KeyView {
    pub time: int,
    pub freq: Seq<char>,
    pub tg: Option<int>,
    pub rid: Option<int>,
}

pub open spec fn opt_u32_view(o: Option<u32>) -> Option<int> {
    match o {
        Some(n) => Some(n as int),
        None => None,
    }
}

impl View for K {
    type V = KeyView;

    open spec fn view(&self) -> KeyView {
        KeyView {
            time: self.time as int,
            freq: self.freq@,
            tg: opt_u32_view(self.tg),
            rid: opt_u32_view(self.rid),
        }
    }
}

impl KeyView {
    /// The key with the talkgroup dropped.
    pub open spec fn mask_tg(self) -> KeyView {
        KeyView { tg: None, ..self }
    }

    /// The key with the radio id dropped.
    pub open spec fn mask_rid(self) -> KeyView {
        KeyView { rid: None, ..self }
    }

    /// The key reduced to time and frequency.
    pub open spec fn mask_bare(self) -> KeyView {
        KeyView { tg: None, rid: None, ..self }
    }
}

impl Clone for K {
    fn clone(&self) -> (r: Self)
        ensures
            r@ == self@,
    {
        K { time: self.time, freq: self.freq.clone(), tg: self.tg, rid: self.rid }
    }
}

fn opt_u32_eq(a: &Option<u32>, b: &Option<u32>) -> (r: bool)
    ensures
        r == (opt_u32_view(*a) == opt_u32_view(*b)),
{
    match (a, b) {
        (None, None) => true,
        (Some(x), Some(y)) => x == y,
        _ => false,
    }
}

fn key_eq(a: &K, b: &K) -> (r: bool)
    ensures
        r == (a@ == b@),
{
    a.time == b.time && a.freq.eq(&b.freq) && opt_u32_eq(&a.tg, &b.tg) && opt_u32_eq(
        &a.rid,
        &b.rid,
    )
}

/// The map an association vector denotes. Keys are unique in every vector the
/// index holds, so reading front to back or back to front agree.
pub open spec fn assoc_map(s: Seq<(K, String)>) -> Map<KeyView, Seq<char>>
    decreases s.len(),
{
    if s.len() == 0 {
        Map::empty()
    } else {
        assoc_map(s.drop_last()).insert(s.last().0@, s.last().1@)
    }
}

pub open spec fn keys_unique(s: Seq<(K, String)>) -> bool {
    forall|i: int, j: int| 0 <= i < j < s.len() ==> (#[trigger] s[i]).0@ != (#[trigger] s[j]).0@
}

proof fn lemma_assoc_contains(s: Seq<(K, String)>, kv: KeyView)
    ensures
        assoc_map(s).contains_key(kv) <==> exists|i: int| 0 <= i < s.len() && (#[trigger] s[i]).0@
            == kv,
    decreases s.len(),
{
    if s.len() > 0 {
        lemma_assoc_contains(s.drop_last(), kv);
        if s.last().0@ == kv {
            assert(s[s.len() - 1].0@ == kv);
        } else {
            if assoc_map(s).contains_key(kv) {
                let i = choose|i: int|
                    0 <= i < s.drop_last().len() && (#[trigger] s.drop_last()[i]).0@ == kv;
                assert(s[i].0@ == kv);
            }
            if exists|i: int| 0 <= i < s.len() && (#[trigger] s[i]).0@ == kv {
                let i = choose|i: int| 0 <= i < s.len() && (#[trigger] s[i]).0@ == kv;
                assert(i < s.len() - 1);
                assert(s.drop_last()[i].0@ == kv);
            }
        }
    }
}

proof fn lemma_assoc_lookup(s: Seq<(K, String)>, i: int)
    requires
        keys_unique(s),
        0 <= i < s.len(),
    ensures
        assoc_map(s).contains_key(s[i].0@),
        assoc_map(s)[s[i].0@] == s[i].1@,
    decreases s.len(),
{
    if i == s.len() - 1 {
        assert(s.last() == s[i]);
    } else {
        assert(keys_unique(s.drop_last())) by {
            assert(forall|x: int, y: int|
                0 <= x < y < s.len() - 1 ==> (#[trigger] s.drop_last()[x]) == s[x]
                    && (#[trigger] s.drop_last()[y]) == s[y]);
        }
        assert(s.drop_last()[i] == s[i]);
        lemma_assoc_lookup(s.drop_last(), i);
        assert(s[i].0@ != s.last().0@) by {
            assert(s.last() == s[s.len() - 1]);
        }
    }
}

/// Search an association vector for a key.
fn assoc_get(entries: &Vec<(K, String)>, k: &K) -> (r: Option<String>)
    requires
        keys_unique(entries@),
    ensures
        r matches Some(p) ==> assoc_map(entries@).contains_key(k@) && p@ == assoc_map(entries@)[k@],
        r is None ==> !assoc_map(entries@).contains_key(k@),
{
    let mut i: usize = 0;
    while i < entries.len()
        invariant
            0 <= i <= entries@.len(),
            keys_unique(entries@),
            forall|j: int| 0 <= j < i ==> (#[trigger] entries@[j]).0@ != k@,
        decreases entries@.len() - i,
    {
        if key_eq(&entries[i].0, k) {
            proof {
                lemma_assoc_lookup(entries@, i as int);
            }
            return Some(entries[i].1.clone());
        }
        i = i + 1;
    }
    proof {
        lemma_assoc_contains(entries@, k@);
    }
    None
}

/// First-wins insertion: on a key collision the existing binding stays.
fn assoc_insert(entries: &mut Vec<(K, String)>, k: K, path: String)
    requires
        keys_unique(old(entries)@),
    ensures
        keys_unique(final(entries)@),
        assoc_map(final(entries)@) == if assoc_map(old(entries)@).contains_key(k@) {
            assoc_map(old(entries)@)
        } else {
            assoc_map(old(entries)@).insert(k@, path@)
        },
{
    let mut i: usize = 0;
    while i < entries.len()
        invariant
            0 <= i <= entries@.len(),
            keys_unique(entries@),
            forall|j: int| 0 <= j < i ==> (#[trigger] entries@[j]).0@ != k@,
        decreases entries@.len() - i,
    {
        if key_eq(&entries[i].0, &k) {
            proof {
                lemma_assoc_lookup(entries@, i as int);
            }
            return ;
        }
        i = i + 1;
    }
    proof {
        lemma_assoc_contains(entries@, k@);
    }
    let ghost prev = entries@;
    entries.push((k, path));
    proof {
        assert(entries@.drop_last() =~= prev);
        assert(entries@.last() == entries@[prev.len() as int]);
        assert forall|x: int, y: int| 0 <= x < y < entries@.len() implies (
        #[trigger] entries@[x]).0@ != (#[trigger] entries@[y]).0@ by {
            if y < prev.len() {
                assert(entries@[x] == prev[x] && entries@[y] == prev[y]);
            } else {
                assert(entries@[x] == prev[x]);
            }
        }
    }
}

pub ghost struct DayIndexView {
    pub full: Map<KeyView, Seq<char>>,
    pub rid_only: Map<KeyView, Seq<char>>,
    pub tg_only: Map<KeyView, Seq<char>>,
    pub bare: Map<KeyView, Seq<char>>,
}

impl DayIndexView {
    pub open spec fn empty() -> DayIndexView {
        DayIndexView {
            full: Map::empty(),
            rid_only: Map::empty(),
            tg_only: Map::empty(),
            bare: Map::empty(),
        }
    }
}

/// One calendar day's transcript lookup table: four maps, most specific first.
#[derive(Debug)]
pub struct DayIndex {
    full: Vec<(K, String)>,
    rid_only: Vec<(K, String)>,
    tg_only: Vec<(K, String)>,
    bare: Vec<(K, String)>,
}

impl View for DayIndex {
    type V = DayIndexView;

    closed spec fn view(&self) -> DayIndexView {
        DayIndexView {
            full: assoc_map(self.full@),
            rid_only: assoc_map(self.rid_only@),
            tg_only: assoc_map(self.tg_only@),
            bare: assoc_map(self.bare@),
        }
    }
}

/// Insert a binding into one map of a day-index view only if its key is absent.
pub open spec fn map_insert_if_absent(
    m: Map<KeyView, Seq<char>>,
    kv: KeyView,
    path: Seq<char>,
) -> Map<KeyView, Seq<char>> {
    if m.contains_key(kv) {
        m
    } else {
        m.insert(kv, path)
    }
}

/// One file's bindings added to a day's view: the full key and its three
/// masked forms, each first-wins.
pub open spec fn insert_all_s(di: DayIndexView, kv: KeyView, path: Seq<char>) -> DayIndexView {
    DayIndexView {
        full: map_insert_if_absent(di.full, kv, path),
        rid_only: map_insert_if_absent(di.rid_only, kv.mask_tg(), path),
        tg_only: map_insert_if_absent(di.tg_only, kv.mask_rid(), path),
        bare: map_insert_if_absent(di.bare, kv.mask_bare(), path),
    }
}

/// The fall-back lookup: full key, then radio-id only, then talkgroup only,
/// then bare time and frequency; the first hit wins.
pub open spec fn lookup_s(di: DayIndexView, kv: KeyView) -> Option<Seq<char>> {
    if di.full.contains_key(kv) {
        Some(di.full[kv])
    } else if di.rid_only.contains_key(kv.mask_tg()) {
        Some(di.rid_only[kv.mask_tg()])
    } else if di.tg_only.contains_key(kv.mask_rid()) {
        Some(di.tg_only[kv.mask_rid()])
    } else if di.bare.contains_key(kv.mask_bare()) {
        Some(di.bare[kv.mask_bare()])
    } else {
        None
    }
}

impl DayIndex {
    pub closed spec fn wf(self) -> bool {
        keys_unique(self.full@) && keys_unique(self.rid_only@) && keys_unique(self.tg_only@)
            && keys_unique(self.bare@)
    }

    /// An empty day shard (also what a missing day folder installs).
    pub fn new() -> (r: DayIndex)
        ensures
            r.wf(),
            r@ == DayIndexView::empty(),
    {
        let r = DayIndex { full: Vec::new(), rid_only: Vec::new(), tg_only: Vec::new(), bare: Vec::new() };
        proof {
            assert(r@.full =~= Map::<KeyView, Seq<char>>::empty());
            assert(r@.rid_only =~= Map::<KeyView, Seq<char>>::empty());
            assert(r@.tg_only =~= Map::<KeyView, Seq<char>>::empty());
            assert(r@.bare =~= Map::<KeyView, Seq<char>>::empty());
        }
        r
    }

    /// Register one file under the full key and all its masked forms,
    /// first-wins on every collision.
    pub fn insert_all(&mut self, k: K, path: String)
        requires
            old(self).wf(),
        ensures
            final(self).wf(),
            final(self)@ == insert_all_s(old(self)@, k@, path@),
    {
        let k_rid = K { time: k.time, freq: k.freq.clone(), tg: None, rid: k.rid };
        let k_tg = K { time: k.time, freq: k.freq.clone(), tg: k.tg, rid: None };
        let k_bare = K { time: k.time, freq: k.freq.clone(), tg: None, rid: None };
        assoc_insert(&mut self.full, k, path.clone());
        assoc_insert(&mut self.rid_only, k_rid, path.clone());
        assoc_insert(&mut self.tg_only, k_tg, path.clone());
        assoc_insert(&mut self.bare, k_bare, path);
    }

    /// Look a key up, falling back from the full key through the masked forms.
    pub fn lookup(&self, k: &K) -> (r: Option<String>)
        requires
            self.wf(),
        ensures
            crate::model::opt_view(r) == lookup_s(self@, k@),
    {
        if let Some(p) = assoc_get(&self.full, k) {
            return Some(p);
        }
        let k_rid = K { time: k.time, freq: k.freq.clone(), tg: None, rid: k.rid };
        if let Some(p) = assoc_get(&self.rid_only, &k_rid) {
            return Some(p);
        }
        let k_tg = K { time: k.time, freq: k.freq.clone(), tg: k.tg, rid: None };
        if let Some(p) = assoc_get(&self.tg_only, &k_tg) {
            return Some(p);
        }
        let k_bare = K { time: k.time, freq: k.freq.clone(), tg: None, rid: None };
        if let Some(p) = assoc_get(&self.bare, &k_bare) {
            return Some(p);
        }
        None
    }
}

/// The `.txt` transcript suffix.
pub open spec fn txt_suffix() -> Seq<char> {
    seq!['.', 't', 'x', 't']
}

/// The filename stem: every trailing `.txt` removed.
pub open spec fn strip_txt(s: Seq<char>) -> Seq<char>
    decreases s.len(),
{
    if crate::text::ends_with_s(s, txt_suffix()) {
        strip_txt(s.take(s.len() - 4))
    } else {
        s
    }
}

/// The first two numeric tokens among `parts` fill the talkgroup, then the
/// radio id; later numeric tokens are ignored.
pub open spec fn pick_nums(parts: Seq<Seq<char>>, tg: Option<u32>, rid: Option<u32>) -> (
    Option<u32>,
    Option<u32>,
)
    decreases parts.len(),
{
    if parts.len() == 0 {
        (tg, rid)
    } else {
        match parse_u32_s(parts[0]) {
            Some(v) => {
                if tg is None {
                    pick_nums(parts.drop_first(), Some(v), rid)
                } else if rid is None {
                    pick_nums(parts.drop_first(), tg, Some(v))
                } else {
                    pick_nums(parts.drop_first(), tg, rid)
                }
            },
            None => pick_nums(parts.drop_first(), tg, rid),
        }
    }
}

/// The lookup key a transcript filename denotes: `<HHMMSS>_<frequency>_...`,
/// underscore-separated, `.txt`; the time must be numeric, the frequency is
/// normalized, and the first two numeric tokens of the remainder are read as
/// talkgroup and radio id.
pub open spec fn parse_name_s(name: Seq<char>) -> Option<KeyView> {
    if !crate::text::ends_with_s(name, txt_suffix()) {
        None
    } else {
        let parts = split_char(strip_txt(name), '_');
        if parts.len() < 2 {
            None
        } else {
            match parse_u32_s(parts[0]) {
                Some(time) => {
                    let (tg, rid) = pick_nums(parts.skip(2), None, None);
                    Some(
                        KeyView {
                            time: time as int,
                            freq: normalize_freq_s(parts[1]),
                            tg: opt_u32_view(tg),
                            rid: opt_u32_view(rid),
                        },
                    )
                },
                None => None,
            }
        }
    }
}

fn txt_suffix_chars() -> (r: Vec<char>)
    ensures
        r@ == txt_suffix(),
{
    let mut v: Vec<char> = Vec::new();
    v.push('.');
    v.push('t');
    v.push('x');
    v.push('t');
    proof {
        assert(v@ =~= txt_suffix());
    }
    v
}

/// Parse one directory entry's filename into a lookup key; `None` for
/// anything that is not a well-named transcript.
pub fn parse_transcript_name(name: &Vec<char>) -> (r: Option<K>)
    ensures
        match r {
            Some(k) => parse_name_s(name@) == Some(k@),
            None => parse_name_s(name@) is None,
        },
{
    broadcast use crate::text::lemma_chars_deep_view;

    let suffix = txt_suffix_chars();
    if !ends_with(name.as_slice(), suffix.as_slice()) {
        return None;
    }
    let mut stem = subvec(name.as_slice(), 0, name.len());
    proof {
        assert(name@.subrange(0, name@.len() as int) =~= name@);
    }
    while ends_with(stem.as_slice(), suffix.as_slice())
        invariant
            suffix@ == txt_suffix(),
            strip_txt(stem@) == strip_txt(name@),
        decreases stem@.len(),
    {
        let keep = stem.len() - 4;
        stem = subvec(stem.as_slice(), 0, keep);
        proof {
            assert(stem@ =~= stem@);
        }
    }
    assert(stem@ == strip_txt(name@));
    let parts = split_at_char(&stem, '_');
    if parts.len() < 2 {
        return None;
    }
    let ghost sparts = split_char(strip_txt(name@), '_');
    let time = match parse_u32(parts[0].as_slice()) {
        Some(t) => t,
        None => {
            return None;
        },
    };
    let freq_chars = normalize_freq_chars(&parts[1]);
    let freq = chars_to_string(freq_chars.as_slice());
    let mut tg: Option<u32> = None;
    let mut rid: Option<u32> = None;
    let mut i: usize = 2;
    proof {
        assert(parts.deep_view().skip(2) =~= sparts.skip(2));
    }
    while i < parts.len()
        invariant
            2 <= i <= parts@.len(),
            parts.deep_view() == sparts,
            pick_nums(sparts.skip(i as int), tg, rid) == pick_nums(sparts.skip(2), None, None),
        decreases parts@.len() - i,
    {
        let ghost rest = sparts.skip(i as int);
        let ghost tg0 = tg;
        let ghost rid0 = rid;
        proof {
            assert(rest[0] == sparts[i as int]);
            assert(rest.drop_first() =~= sparts.skip(i + 1 as int));
            assert(parts.deep_view()[i as int] == parts@[i as int]@);
            assert(rest[0] == parts@[i as int]@);
        }
        match parse_u32(parts[i].as_slice()) {
            Some(v) => {
                if tg.is_none() {
                    tg = Some(v);
                } else if rid.is_none() {
                    rid = Some(v);
                }
            },
            None => {},
        }
        proof {
            assert(pick_nums(rest, tg0, rid0) == pick_nums(sparts.skip(i + 1 as int), tg, rid));
        }
        i = i + 1;
    }
    proof {
        assert(sparts.skip(parts@.len() as int) =~= Seq::<Seq<char>>::empty());
    }
    Some(K { time, freq, tg, rid })
}

/// `dir`, a separator, and `name`: the path of one day-folder entry.
pub open spec fn join_path(dir: Seq<char>, name: Seq<char>) -> Seq<char> {
    dir + seq!['/'] + name
}

/// The day shard that one directory listing builds: each plain file whose name
/// parses is registered under its key and all masked forms, first file wins.
pub open spec fn shard_s(dir: Seq<char>, es: Seq<(Seq<char>, bool)>) -> DayIndexView
    decreases es.len(),
{
    if es.len() == 0 {
        DayIndexView::empty()
    } else {
        let prev = shard_s(dir, es.drop_last());
        let (name, is_file) = es.last();
        if is_file {
            match parse_name_s(name) {
                Some(kv) => insert_all_s(prev, kv, join_path(dir, name)),
                None => prev,
            }
        } else {
            prev
        }
    }
}

/// Build one day's shard from a directory listing.
pub fn build_shard(dir: &Vec<char>, entries: &Vec<(String, bool)>) -> (r: DayIndex)
    ensures
        r.wf(),
        r@ == shard_s(dir@, entries.deep_view()),
{
    let mut shard = DayIndex::new();
    let ghost es = entries.deep_view();
    proof {
        assert(es.take(0) =~= Seq::<(Seq<char>, bool)>::empty());
    }
    let mut i: usize = 0;
    while i < entries.len()
        invariant
            0 <= i <= entries@.len(),
            es == entries.deep_view(),
            es.len() == entries@.len(),
            shard.wf(),
            shard@ == shard_s(dir@, es.take(i as int)),
        decreases entries@.len() - i,
    {
        proof {
            assert(es.take(i + 1 as int).drop_last() =~= es.take(i as int));
            assert(es.take(i + 1 as int).last() == es[i as int]);
            assert(es[i as int] == (entries@[i as int].0@, entries@[i as int].1));
        }
        let (name, is_file) = &entries[i];
        if *is_file {
            let name_chars = line_chars(name.as_str());
            match parse_transcript_name(&name_chars) {
                Some(k) => {
                    let mut path_chars = subvec(dir.as_slice(), 0, dir.len());
                    path_chars.push('/');
                    let mut nm = subvec(name_chars.as_slice(), 0, name_chars.len());
                    path_chars.append(&mut nm);
                    proof {
                        assert(dir@.subrange(0, dir@.len() as int) =~= dir@);
                        assert(name_chars@.subrange(0, name_chars@.len() as int) =~= name_chars@);
                        assert(path_chars@ =~= join_path(dir@, name@));
                    }
                    let path = chars_to_string(path_chars.as_slice());
                    shard.insert_all(k, path);
                },
                None => {},
            }
        }
        i = i + 1;
    }
    proof {
        assert(es.take(es.len() as int) =~= es);
    }
    shard
}

/// The map from day codes to shards that the index's day vector denotes.
pub open spec fn day_map(s: Seq<(u32, DayIndex)>) -> Map<int, DayIndexView>
    decreases s.len(),
{
    if s.len() == 0 {
        Map::empty()
    } else {
        day_map(s.drop_last()).insert(s.last().0 as int, s.last().1@)
    }
}

pub open spec fn days_unique(s: Seq<(u32, DayIndex)>) -> bool {
    forall|i: int, j: int| 0 <= i < j < s.len() ==> (#[trigger] s[i]).0 != (#[trigger] s[j]).0
}

proof fn lemma_day_map_contains(s: Seq<(u32, DayIndex)>, day: int)
    ensures
        day_map(s).contains_key(day) <==> exists|i: int| 0 <= i < s.len() && (#[trigger] s[i]).0
            == day,
    decreases s.len(),
{
    if s.len() > 0 {
        lemma_day_map_contains(s.drop_last(), day);
        if s.last().0 == day {
            assert(s[s.len() - 1].0 == day);
        } else {
            if day_map(s).contains_key(day) {
                let i = choose|i: int|
                    0 <= i < s.drop_last().len() && (#[trigger] s.drop_last()[i]).0 == day;
                assert(s[i].0 == day);
            }
            if exists|i: int| 0 <= i < s.len() && (#[trigger] s[i]).0 == day {
                let i = choose|i: int| 0 <= i < s.len() && (#[trigger] s[i]).0 == day;
                assert(i < s.len() - 1);
                assert(s.drop_last()[i].0 == day);
            }
        }
    }
}

proof fn lemma_day_map_lookup(s: Seq<(u32, DayIndex)>, i: int)
    requires
        days_unique(s),
        0 <= i < s.len(),
    ensures
        day_map(s).contains_key(s[i].0 as int),
        day_map(s)[s[i].0 as int] == s[i].1@,
    decreases s.len(),
{
    if i == s.len() - 1 {
        assert(s.last() == s[i]);
    } else {
        assert(days_unique(s.drop_last())) by {
            assert(forall|x: int, y: int|
                0 <= x < y < s.len() - 1 ==> (#[trigger] s.drop_last()[x]) == s[x]
                    && (#[trigger] s.drop_last()[y]) == s[y]);
        }
        assert(s.drop_last()[i] == s[i]);
        lemma_day_map_lookup(s.drop_last(), i);
        assert(s[i].0 != s.last().0) by {
            assert(s.last() == s[s.len() - 1]);
        }
    }
}

/// The process-local transcript index: one shard per already-scanned day.
pub struct Index {
    days: Vec<(u32, DayIndex)>,
}

impl View for Index {
    type V = Map<int, DayIndexView>;

    closed spec fn view(&self) -> Map<int, DayIndexView> {
        day_map(self.days@)
    }
}

/// Installing a shard for a day leaves an index that already holds the day
/// unchanged.
pub open spec fn install_s(
    m: Map<int, DayIndexView>,
    day: int,
    shard: DayIndexView,
) -> Map<int, DayIndexView> {
    if m.contains_key(day) {
        m
    } else {
        m.insert(day, shard)
    }
}

impl Index {
    pub closed spec fn wf(self) -> bool {
        days_unique(self.days@) && forall|i: int|
            0 <= i < self.days@.len() ==> (#[trigger] self.days@[i]).1.wf()
    }

    pub fn new() -> (r: Index)
        ensures
            r.wf(),
            r@ == Map::<int, DayIndexView>::empty(),
    {
        let r = Index { days: Vec::new() };
        proof {
            assert(r@ =~= Map::<int, DayIndexView>::empty());
        }
        r
    }

    /// Whether the day's shard is already installed.
    pub fn has_day(&self, day: u32) -> (r: bool)
        ensures
            r == self@.contains_key(day as int),
    {
        let mut i: usize = 0;
        while i < self.days.len()
            invariant
                0 <= i <= self.days@.len(),
                forall|j: int| 0 <= j < i ==> (#[trigger] self.days@[j]).0 != day,
            decreases self.days@.len() - i,
        {
            if self.days[i].0 == day {
                proof {
                    lemma_day_map_contains(self.days@, day as int);
                }
                return true;
            }
            i = i + 1;
        }
        proof {
            lemma_day_map_contains(self.days@, day as int);
        }
        false
    }

    /// Install `shard` for `day` unless the day is already present (the
    /// double-checked second writer finds it and changes nothing).
    pub fn install(&mut self, day: u32, shard: DayIndex)
        requires
            old(self).wf(),
            shard.wf(),
        ensures
            final(self).wf(),
            final(self)@ == install_s(old(self)@, day as int, shard@),
    {
        let mut i: usize = 0;
        while i < self.days.len()
            invariant
                0 <= i <= self.days@.len(),
                *self == *old(self),
                old(self).wf(),
                forall|j: int| 0 <= j < i ==> (#[trigger] self.days@[j]).0 != day,
            decreases self.days@.len() - i,
        {
            if self.days[i].0 == day {
                proof {
                    lemma_day_map_contains(self.days@, day as int);
                }
                return ;
            }
            i = i + 1;
        }
        proof {
            lemma_day_map_contains(self.days@, day as int);
        }
        let ghost prev = self.days@;
        self.days.push((day, shard));
        proof {
            assert(self.days@.drop_last() =~= prev);
            assert forall|x: int, y: int| 0 <= x < y < self.days@.len() implies (
            #[trigger] self.days@[x]).0 != (#[trigger] self.days@[y]).0 by {
                if y < prev.len() {
                    assert(self.days@[x] == prev[x] && self.days@[y] == prev[y]);
                } else {
                    assert(self.days@[x] == prev[x]);
                }
            }
            assert forall|i2: int| 0 <= i2 < self.days@.len() implies (
            #[trigger] self.days@[i2]).1.wf() by {
                if i2 < prev.len() {
                    assert(self.days@[i2] == prev[i2]);
                }
            }
        }
    }

    /// Look `k` up in the day's shard: `None` when the day has no shard or
    /// the shard has no match at any specificity.
    pub fn lookup_day(&self, day: u32, k: &K) -> (r: Option<String>)
        requires
            self.wf(),
        ensures
            crate::model::opt_view(r) == if self@.contains_key(day as int) {
                lookup_s(self@[day as int], k@)
            } else {
                None
            },
    {
        let mut i: usize = 0;
        while i < self.days.len()
            invariant
                0 <= i <= self.days@.len(),
                self.wf(),
                forall|j: int| 0 <= j < i ==> (#[trigger] self.days@[j]).0 != day,
            decreases self.days@.len() - i,
        {
            if self.days[i].0 == day {
                proof {
                    lemma_day_map_lookup(self.days@, i as int);
                }
                return self.days[i].1.lookup(k);
            }
            i = i + 1;
        }
        proof {
            lemma_day_map_contains(self.days@, day as int);
        }
        None
    }
}

/// After any install for a day, the day is present: every caller that runs
/// after the one scan observes the installed shard.
pub proof fn lemma_install_makes_present(m: Map<int, DayIndexView>, day: int, shard: DayIndexView)
    ensures
        install_s(m, day, shard).contains_key(day),
{
}

/// Installing a day twice is installing it once: the second writer to pass the
/// double-check finds the day present and leaves the index exactly as the
/// first left it, whatever shard it scanned.
pub proof fn lemma_install_idempotent(
    m: Map<int, DayIndexView>,
    day: int,
    shard1: DayIndexView,
    shard2: DayIndexView,
)
    ensures
        install_s(install_s(m, day, shard1), day, shard2) == install_s(m, day, shard1),
{
    assert(install_s(m, day, shard1).contains_key(day));
}

/// The lock predicate of the shared index: every value the lock ever holds is
/// a well-formed index.
pub struct IndexPred {}

impl vstd::rwlock::RwLockPredicate<Index> for IndexPred {
    open spec fn inv(self, v: Index) -> bool {
        v.wf()
    }
}

/// Relies on `walkdir::WalkDir`: a shallow listing of a directory, each entry
/// with its filename and whether it is a plain file. Unreadable entries and
/// non-UTF-8 names are skipped; a missing directory lists as empty. What comes
/// back depends on the disk, so nothing more is stated.
#[verifier::external_body]
fn list_day_entries(dir: &String) -> (r: Vec<(String, bool)>) {
    let mut out: Vec<(String, bool)> = Vec::new();
    for entry in walkdir::WalkDir::new(dir.as_str()).min_depth(1).max_depth(1) {
        if let Ok(e) = entry {
            if let Some(name) = e.file_name().to_str() {
                out.push((name.to_string(), e.file_type().is_file()));
            }
        }
    }
    out
}

/// The day folder under `record_dir`: the day code as eight digits.
pub open spec fn day_dir_s(record_dir: Seq<char>, day: int) -> Seq<char> {
    record_dir + seq!['/'] + crate::text::dec_pad(day, 8)
}

fn day_dir_chars(record_dir: &str, day: u32) -> (r: Vec<char>)
    ensures
        r@ == day_dir_s(record_dir@, day as int),
{
    let mut v = line_chars(record_dir);
    v.push('/');
    let mut d = u64_to_chars_pad(day as u64, 8);
    v.append(&mut d);
    proof {
        assert(v@ =~= day_dir_s(record_dir@, day as int));
    }
    v
}

/// The incremental, day-sharded text transcript resolver: day folders are
/// scanned once, on first use, under a writer-exclusive lock with a
/// double-check, and read under shared locks thereafter.
pub struct TextFileTranscriber {
    root: String,
    index: vstd::rwlock::RwLock<Index, IndexPred>,
}

/// The lookup key a record derives: local time of day, normalized frequency,
/// and slot 1's talkgroup and radio id where they parse as integers.
pub open spec fn key_of(r: crate::model::RecordView) -> Option<KeyView> {
    match r.frequency {
        None => None,
        Some(f) => Some(
            KeyView {
                time: r.datetime.local.time_code_s(),
                freq: normalize_freq_s(f),
                tg: match r.slot1.tg {
                    Some(s) => match parse_u32_s(s) {
                        Some(v) => Some(v as int),
                        None => None,
                    },
                    None => None,
                },
                rid: match r.slot1.rid {
                    Some(s) => match parse_u32_s(s) {
                        Some(v) => Some(v as int),
                        None => None,
                    },
                    None => None,
                },
            },
        ),
    }
}

/// Derive the lookup key from a record; `None` without a frequency.
pub fn key_from_rec(rec: &RadioRecord) -> (r: Option<K>)
    requires
        rec@.wf(),
    ensures
        match r {
            Some(k) => key_of(rec@) == Some(k@),
            None => key_of(rec@) is None,
        },
{
    let freq = match &rec.frequency {
        Some(f) => f,
        None => {
            return None;
        },
    };
    let time = rec.datetime.local.time_code();
    let freq_chars = line_chars(freq.as_str());
    let norm = normalize_freq_chars(&freq_chars);
    let freq_s = chars_to_string(norm.as_slice());
    let tg = match &rec.slot1.tg {
        Some(s) => {
            let v = line_chars(s.as_str());
            parse_u32(v.as_slice())
        },
        None => None,
    };
    let rid = match &rec.slot1.rid {
        Some(s) => {
            let v = line_chars(s.as_str());
            parse_u32(v.as_slice())
        },
        None => None,
    };
    Some(K { time, freq: freq_s, tg, rid })
}

impl TextFileTranscriber {
    /// The root configured at construction; the fall-back when a call passes
    /// no directory.
    pub closed spec fn default_root(self) -> Seq<char> {
        self.root@
    }

    /// An indexing transcriber over `root`; day folders are scanned on first
    /// use, never ahead of time.
    pub fn new_indexed(root: &str) -> (r: Result<TextFileTranscriber, AppError>)
        ensures
            r matches Ok(t) && t.default_root() == root@,
    {
        Ok(
            TextFileTranscriber {
                root: root.to_owned(),
                index: vstd::rwlock::RwLock::new(Index::new(), Ghost(IndexPred {  })),
            },
        )
    }

    /// A transcriber with no default root: resolution fails unless each call
    /// supplies a directory.
    pub fn new() -> (r: TextFileTranscriber)
        ensures
            r.default_root().len() == 0,
    {
        TextFileTranscriber {
            root: String::new(),
            index: vstd::rwlock::RwLock::new(Index::new(), Ghost(IndexPred {  })),
        }
    }

    /// Make the day's shard present, scanning `<record_dir>/<day>` exactly
    /// once per process: a shared-lock check first, then, only if the day is
    /// absent, an exclusive lock with a re-check before the one scan. A
    /// missing folder installs an empty shard, so the day is never re-probed.
    /// Returns whether this call performed the scan.
    ///
    /// What the shared index holds afterwards is not visible in this
    /// signature; the exact lookup semantics live in [`Index::lookup_day`] and
    /// [`build_shard`], and the write-once discipline in [`Index::install`].
    pub fn ensure_day_indexed(&self, day: u32, record_dir: &str) -> (did_scan: bool) {
        let handle = self.index.acquire_read();
        let present = handle.borrow().has_day(day);
        handle.release_read();
        if present {
            return false;
        }
        let (mut idx, write_handle) = self.index.acquire_write();
        if idx.has_day(day) {
            write_handle.release_write(idx);
            return false;
        }
        let dir_chars = day_dir_chars(record_dir, day);
        let dir = chars_to_string(dir_chars.as_slice());
        let entries = list_day_entries(&dir);
        let shard = build_shard(&dir_chars, &entries);
        idx.install(day, shard);
        write_handle.release_write(idx);
        true
    }

    /// Look a key up in the day's shard of the shared index, falling back from
    /// the full key to the bare one. `None` when the day was never indexed or
    /// nothing matches; the exact fall-back order is [`Index::lookup_day`]'s
    /// contract, applied to the index state this call observes.
    pub fn lookup_in_day(&self, day: u32, k: &K) -> (r: Option<String>) {
        let handle = self.index.acquire_read();
        let r = handle.borrow().lookup_day(day, k);
        handle.release_read();
        r
    }

    /// Resolve the transcript file for a record: derive day and key, choose
    /// the per-call directory or fall back to the constructor root, make sure
    /// the day is indexed, and look the key up. `Ok(None)` when the record has
    /// no frequency or nothing matches; an error exactly when no directory is
    /// configured at all.
    pub fn resolve_path(&self, rec: &RadioRecord, record_dir: &str) -> (r: Result<
        Option<String>,
        AppError,
    >)
        requires
            rec@.wf(),
        ensures
            key_of(rec@) is None ==> (r matches Ok(p) && p is None),
            r is Err <==> (key_of(rec@) is Some && record_dir@.len() == 0
                && self.default_root().len() == 0),
    {
        let key = match key_from_rec(rec) {
            Some(k) => k,
            None => {
                return Ok(None);
            },
        };
        let day = rec.datetime.local.day_code();
        let root: &str = if record_dir.is_empty() {
            if self.root.as_str().is_empty() {
                return Err(
                    AppError::Parse("TextFileTranscriber has no record_dir root".to_owned()),
                );
            }
            self.root.as_str()
        } else {
            record_dir
        };
        let _ = self.ensure_day_indexed(day, root);
        Ok(self.lookup_in_day(day, &key))
    }
}

/// A fully specified query still resolves through the bare map when only a
/// bare (time and frequency) file was indexed: inserting a file whose name
/// carried no talkgroup or radio id, into an empty day, leaves every more
/// specific probe of a tg/rid-qualified key empty, and the bare fall-back
/// finds the file.
pub proof fn lemma_bare_fallback(di: DayIndexView, file_key: KeyView, path: Seq<char>, q: KeyView)
    requires
        di == DayIndexView::empty(),
        file_key.tg is None,
        file_key.rid is None,
        q.time == file_key.time,
        q.freq == file_key.freq,
        q.tg is Some || q.rid is Some,
    ensures
        lookup_s(insert_all_s(di, file_key, path), q) == Some(path),
{
    let di2 = insert_all_s(di, file_key, path);
    assert(q != file_key);
    assert(q.mask_bare() == file_key);
}

} // verus!
