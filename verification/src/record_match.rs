//! Matching a recording's filename against a record: the name must open with
//! the record's time token followed by an underscore or dash, carry the
//! record's frequency somewhere after that, and end in a recording extension.
use crate::model::RadioRecord;
use crate::text::{
    chars_to_string, dec_pad, ends_with, ends_with_s, find, line_chars, matches_at, subvec,
    u64_to_chars_pad,
};
use vstd::prelude::*;

verus! {

/// Whether the name ends in one of the recording extensions.
pub open spec fn audio_ext(name: Seq<char>) -> bool {
    ends_with_s(name, ".mp3"@) || ends_with_s(name, ".wav"@) || ends_with_s(name, ".txt"@)
}

/// Whether a filename matches a record's time and frequency tokens: the time
/// opens the name, one `'_'` or `'-'` follows it, the frequency occurs after
/// that separator with room left for an extension, and the name ends in a
/// recording extension.
pub open spec fn audio_match_s(name: Seq<char>, time: Seq<char>, freq: Seq<char>) -> bool {
    &&& time.len() + 1 <= name.len()
    &&& crate::text::starts_with_s(name, time)
    &&& (name[time.len() as int] == '_' || name[time.len() as int] == '-')
    &&& audio_ext(name)
    &&& exists|i: int|
        time.len() + 1 <= i && i + freq.len() + 4 <= name.len() && matches_at(name, freq, i)
}

/// Decide [`audio_match_s`] for one filename.
pub fn audio_name_matches(name: &str, time: &str, freq: &str) -> (r: bool)
    ensures
        r == audio_match_s(name@, time@, freq@),
{
    let nv = line_chars(name);
    let tv = line_chars(time);
    let fv = line_chars(freq);
    if nv.len() <= tv.len() {
        return false;
    }
    if !crate::text::starts_with(nv.as_slice(), tv.as_slice()) {
        return false;
    }
    let sep = nv[tv.len()];
    if sep != '_' && sep != '-' {
        return false;
    }
    let e1 = line_chars(".mp3");
    let e2 = line_chars(".wav");
    let e3 = line_chars(".txt");
    if !(ends_with(nv.as_slice(), e1.as_slice()) || ends_with(nv.as_slice(), e2.as_slice())
        || ends_with(nv.as_slice(), e3.as_slice())) {
        return false;
    }
    proof {
        reveal_strlit(".mp3");
        reveal_strlit(".wav");
        reveal_strlit(".txt");
        assert(nv@.len() >= 4);
    }
    // The frequency must sit after the separator, with room for an extension.
    let hi = nv.len() - 4;
    if hi < tv.len() + 1 {
        return false;
    }
    let hay = subvec(nv.as_slice(), tv.len() + 1, hi);
    match find(hay.as_slice(), fv.as_slice()) {
        Some(j) => {
            proof {
                crate::text::lemma_find_from_some(hay@, fv@, 0, j as int);
                let i = tv@.len() + 1 + j;
                assert(nv@.subrange(i, i + fv@.len()) =~= hay@.subrange(
                    j as int,
                    j + fv@.len(),
                ));
                assert(matches_at(nv@, fv@, i));
            }
            true
        },
        None => {
            proof {
                assert forall|i: int|
                    !(tv@.len() + 1 <= i && i + fv@.len() + 4 <= nv@.len() && matches_at(
                        nv@,
                        fv@,
                        i,
                    )) by {
                    if tv@.len() + 1 <= i && i + fv@.len() + 4 <= nv@.len() && matches_at(
                        nv@,
                        fv@,
                        i,
                    ) {
                        let j = i - (tv@.len() + 1);
                        assert(hay@.subrange(j, j + fv@.len()) =~= nv@.subrange(
                            i,
                            i + fv@.len(),
                        ));
                        assert(matches_at(hay@, fv@, j));
                        crate::text::lemma_find_from_none(hay@, fv@, 0, j);
                    }
                }
            }
            false
        },
    }
}

/// The time token a record derives for filename matching: its time of day as
/// six digits.
pub fn record_time_token(rec: &RadioRecord) -> (r: String)
    requires
        rec@.wf(),
    ensures
        r@ == dec_pad(rec@.datetime.local.time_code_s(), 6),
{
    let t = rec.datetime.local.time_code();
    let v = u64_to_chars_pad(t as u64, 6);
    chars_to_string(v.as_slice())
}

/// The first of the listed filenames that matches the record's time and
/// frequency, in listing order; `None` when none matches. A record without a
/// frequency is matched with the empty frequency token, which any name with
/// the right time prefix and extension satisfies.
pub fn find_audio_name(rec: &RadioRecord, names: &Vec<String>) -> (r: Option<String>)
    requires
        rec@.wf(),
    ensures
        match r {
            Some(n) => exists|i: int|
                0 <= i < names.deep_view().len() && names.deep_view()[i] == n@ && audio_match_s(
                    n@,
                    dec_pad(rec@.datetime.local.time_code_s(), 6),
                    crate::csv_out::opt_or_empty(rec@.frequency),
                ),
            None => forall|i: int|
                0 <= i < names.deep_view().len() ==> !audio_match_s(
                    #[trigger] names.deep_view()[i],
                    dec_pad(rec@.datetime.local.time_code_s(), 6),
                    crate::csv_out::opt_or_empty(rec@.frequency),
                ),
        },
{
    let time = record_time_token(rec);
    let freq = match &rec.frequency {
        Some(f) => f.clone(),
        None => String::new(),
    };
    let mut i: usize = 0;
    while i < names.len()
        invariant
            0 <= i <= names@.len(),
            time@ == dec_pad(rec@.datetime.local.time_code_s(), 6),
            freq@ == crate::csv_out::opt_or_empty(rec@.frequency),
            forall|j: int|
                0 <= j < i ==> !audio_match_s(
                    #[trigger] names.deep_view()[j],
                    time@,
                    freq@,
                ),
        decreases names@.len() - i,
    {
        if audio_name_matches(names[i].as_str(), time.as_str(), freq.as_str()) {
            proof {
                assert(names.deep_view()[i as int] == names@[i as int]@);
            }
            return Some(names[i].clone());
        }
        i = i + 1;
    }
    None
}

} // verus!
