//! Character-level text utilities shared by both log-format parsers: byte-order
//! mark stripping, whitespace trimming, tokenization, substring search, decimal
//! parsing and formatting.
//!
//! Whitespace here means the ASCII whitespace characters (space, tab, line
//! feed, carriage return, vertical tab, form feed).
use vstd::prelude::*;

verus! {

/// The byte-order mark that may begin a line of input.
pub open spec fn bom() -> char {
    '\u{feff}'
}

pub open spec fn is_space(c: char) -> bool {
    c == ' ' || c == '\t' || c == '\n' || c == '\r' || c == '\u{b}' || c == '\u{c}'
}

pub open spec fn is_digit(c: char) -> bool {
    48 <= c as u32 && c as u32 <= 57
}

pub open spec fn digit_val(c: char) -> int {
    c as u32 - 48
}

fn is_space_char(c: char) -> (r: bool)
    ensures
        r == is_space(c),
{
    c == ' ' || c == '\t' || c == '\n' || c == '\r' || c == '\u{b}' || c == '\u{c}'
}

fn is_digit_char(c: char) -> (r: bool)
    ensures
        r == is_digit(c),
{
    let u = c as u32;
    48 <= u && u <= 57
}

/// A character vector's deep view is its view.
pub broadcast proof fn lemma_chars_deep_view(v: Vec<char>)
    ensures
        #[trigger] v.deep_view() == v@,
{
    assert(v.deep_view() =~= v@);
}

/// The characters of `s`, in order.
pub fn line_chars(s: &str) -> (r: Vec<char>)
    ensures
        r@ == s@,
{
    let len = s.unicode_len();
    let mut r: Vec<char> = Vec::new();
    let mut i: usize = 0;
    while i < len
        invariant
            0 <= i <= len,
            len == s@.len(),
            r@ == s@.subrange(0, i as int),
        decreases len - i,
    {
        let c = s.get_char(i);
        r.push(c);
        proof {
            assert(r@ =~= s@.subrange(0, i + 1 as int));
        }
        i = i + 1;
    }
    proof {
        assert(r@ =~= s@);
    }
    r
}

/// Relies on `String::push` of std: appends exactly one character.
pub assume_specification[ String::push ](s: &mut String, c: char)
    ensures
        final(s)@ == old(s)@.push(c),
;

/// A `String` holding exactly the characters of `v`.
pub fn chars_to_string(v: &[char]) -> (r: String)
    ensures
        r@ == v@,
{
    let mut r = String::new();
    let mut i: usize = 0;
    while i < v.len()
        invariant
            0 <= i <= v@.len(),
            r@ == v@.subrange(0, i as int),
        decreases v@.len() - i,
    {
        r.push(v[i]);
        proof {
            assert(r@ =~= v@.subrange(0, i + 1 as int));
        }
        i = i + 1;
    }
    proof {
        assert(r@ =~= v@);
    }
    r
}

/// `v@.subrange(lo, hi)` as a fresh vector.
pub fn subvec(v: &[char], lo: usize, hi: usize) -> (r: Vec<char>)
    requires
        lo <= hi <= v@.len(),
    ensures
        r@ == v@.subrange(lo as int, hi as int),
{
    let mut r: Vec<char> = Vec::new();
    let mut i: usize = lo;
    while i < hi
        invariant
            lo <= i <= hi <= v@.len(),
            r@ == v@.subrange(lo as int, i as int),
        decreases hi - i,
    {
        r.push(v[i]);
        proof {
            assert(r@ =~= v@.subrange(lo as int, i + 1 as int));
        }
        i = i + 1;
    }
    r
}

/// The line with a leading byte-order mark removed, if one is present.
pub open spec fn strip_bom_s(s: Seq<char>) -> Seq<char> {
    if s.len() > 0 && s[0] == bom() {
        s.drop_first()
    } else {
        s
    }
}

/// Strip a leading byte-order mark.
pub fn strip_bom(v: &Vec<char>) -> (r: Vec<char>)
    ensures
        r@ == strip_bom_s(v@),
{
    if v.len() > 0 && v[0] == '\u{feff}' {
        let r = subvec(v.as_slice(), 1, v.len());
        proof {
            assert(v@.subrange(1, v@.len() as int) =~= v@.drop_first());
        }
        r
    } else {
        let r = subvec(v.as_slice(), 0, v.len());
        proof {
            assert(v@.subrange(0, v@.len() as int) =~= v@);
        }
        r
    }
}

/// Number of whitespace characters at the front of `s`.
pub open spec fn leading_spaces(s: Seq<char>) -> int
    decreases s.len(),
{
    if s.len() > 0 && is_space(s[0]) {
        1 + leading_spaces(s.drop_first())
    } else {
        0
    }
}

/// Number of whitespace characters at the back of `s`.
pub open spec fn trailing_spaces(s: Seq<char>) -> int
    decreases s.len(),
{
    if s.len() > 0 && is_space(s.last()) {
        1 + trailing_spaces(s.drop_last())
    } else {
        0
    }
}

/// `s` with whitespace removed from both ends.
pub open spec fn trim_s(s: Seq<char>) -> Seq<char> {
    let t = s.skip(leading_spaces(s));
    t.take(t.len() - trailing_spaces(t))
}

proof fn lemma_leading_count_from_prefix(s: Seq<char>, i: int)
    requires
        0 <= i <= s.len(),
        forall|j: int| 0 <= j < i ==> is_space(#[trigger] s[j]),
        i < s.len() ==> !is_space(s[i]),
    ensures
        leading_spaces(s) == i,
    decreases s.len(),
{
    if s.len() > 0 && is_space(s[0]) {
        assert(i >= 1);
        let d = s.drop_first();
        assert forall|j: int| 0 <= j < i - 1 implies is_space(#[trigger] d[j]) by {
            assert(d[j] == s[j + 1]);
        }
        if i - 1 < d.len() {
            assert(d[i - 1] == s[i]);
        }
        lemma_leading_count_from_prefix(d, i - 1);
    }
}

proof fn lemma_trailing_count_from_suffix(s: Seq<char>, i: int)
    requires
        0 <= i <= s.len(),
        forall|j: int| i <= j < s.len() ==> is_space(#[trigger] s[j]),
        i > 0 ==> !is_space(s[i - 1]),
    ensures
        trailing_spaces(s) == s.len() - i,
    decreases s.len(),
{
    if s.len() > 0 && is_space(s.last()) {
        assert(i < s.len());
        let d = s.drop_last();
        assert forall|j: int| i <= j < d.len() implies is_space(#[trigger] d[j]) by {
            assert(d[j] == s[j]);
        }
        if i > 0 {
            assert(d[i - 1] == s[i - 1]);
        }
        lemma_trailing_count_from_suffix(d, i);
    }
}

/// Trim ASCII whitespace from both ends.
pub fn trim(v: &Vec<char>) -> (r: Vec<char>)
    ensures
        r@ == trim_s(v@),
{
    let mut lo: usize = 0;
    while lo < v.len() && is_space_char(v[lo])
        invariant
            0 <= lo <= v@.len(),
            forall|j: int| 0 <= j < lo ==> is_space(#[trigger] v@[j]),
        decreases v@.len() - lo,
    {
        lo = lo + 1;
    }
    proof {
        lemma_leading_count_from_prefix(v@, lo as int);
    }
    let ghost t = v@.skip(lo as int);
    let mut hi: usize = v.len();
    while hi > lo && is_space_char(v[hi - 1])
        invariant
            lo <= hi <= v@.len(),
            forall|j: int| hi <= j < v@.len() ==> is_space(#[trigger] v@[j]),
        decreases hi,
    {
        hi = hi - 1;
    }
    proof {
        assert forall|j: int| hi - lo <= j < t.len() implies is_space(#[trigger] t[j]) by {
            assert(t[j] == v@[lo + j]);
        }
        if hi - lo > 0 {
            assert(t[hi - lo - 1] == v@[hi - 1]);
        }
        lemma_trailing_count_from_suffix(t, hi - lo as int);
        assert(t.take(hi - lo as int) =~= v@.subrange(lo as int, hi as int));
    }
    subvec(v.as_slice(), lo, hi)
}

/// Length of the whitespace-free token at the front of `s`.
pub open spec fn token_len(s: Seq<char>) -> int
    decreases s.len(),
{
    if s.len() > 0 && !is_space(s[0]) {
        1 + token_len(s.drop_first())
    } else {
        0
    }
}

pub proof fn lemma_token_len_bounds(s: Seq<char>)
    ensures
        0 <= token_len(s) <= s.len(),
        forall|j: int| 0 <= j < token_len(s) ==> !is_space(#[trigger] s[j]),
        token_len(s) < s.len() ==> is_space(s[token_len(s)]),
    decreases s.len(),
{
    if s.len() > 0 && !is_space(s[0]) {
        lemma_token_len_bounds(s.drop_first());
        let n = token_len(s);
        assert forall|j: int| 0 <= j < n implies !is_space(#[trigger] s[j]) by {
            if j > 0 {
                assert(s[j] == s.drop_first()[j - 1]);
            }
        }
        if n < s.len() {
            assert(s[n] == s.drop_first()[n - 1]);
        }
    }
}

/// The whitespace-separated tokens of `s`, in order. Every token is nonempty.
pub open spec fn tokens(s: Seq<char>) -> Seq<Seq<char>>
    decreases s.len(),
    via tokens_decreases
{
    if s.len() == 0 {
        Seq::empty()
    } else if is_space(s[0]) {
        tokens(s.drop_first())
    } else {
        seq![s.take(token_len(s))] + tokens(s.skip(token_len(s)))
    }
}

#[via_fn]
proof fn tokens_decreases(s: Seq<char>) {
    lemma_token_len_bounds(s);
}

/// The first whitespace-separated token of `s`, or the empty sequence if there
/// is none.
pub open spec fn first_token(s: Seq<char>) -> Seq<char> {
    if tokens(s).len() == 0 {
        Seq::empty()
    } else {
        tokens(s)[0]
    }
}

pub proof fn lemma_first_token_len(s: Seq<char>)
    ensures
        first_token(s).len() <= s.len(),
    decreases s.len(),
{
    if s.len() > 0 {
        if is_space(s[0]) {
            lemma_first_token_len(s.drop_first());
        } else {
            lemma_token_len_bounds(s);
        }
    }
}

proof fn lemma_token_prefix(s: Seq<char>, n: int)
    requires
        0 <= n <= s.len(),
        forall|j: int| 0 <= j < n ==> !is_space(#[trigger] s[j]),
        n < s.len() ==> is_space(s[n]),
    ensures
        token_len(s) == n,
    decreases s.len(),
{
    if s.len() > 0 && !is_space(s[0]) {
        assert(n >= 1);
        let d = s.drop_first();
        assert forall|j: int| 0 <= j < n - 1 implies !is_space(#[trigger] d[j]) by {
            assert(d[j] == s[j + 1]);
        }
        if n - 1 < d.len() {
            assert(d[n - 1] == s[n]);
        }
        lemma_token_prefix(d, n - 1);
    }
}

/// Split into ASCII-whitespace-separated tokens.
pub fn split_ws(v: &Vec<char>) -> (r: Vec<Vec<char>>)
    ensures
        r.deep_view() == tokens(v@),
{
    let mut r: Vec<Vec<char>> = Vec::new();
    proof {
        assert(v@.skip(0) =~= v@);
        assert(r.deep_view() =~= Seq::<Seq<char>>::empty());
        assert(r.deep_view() + tokens(v@) =~= tokens(v@));
    }
    let mut i: usize = 0;
    while i < v.len()
        invariant
            0 <= i <= v@.len(),
            r.deep_view() + tokens(v@.skip(i as int)) == tokens(v@),
        decreases v@.len() - i,
    {
        let ghost rest = v@.skip(i as int);
        if is_space_char(v[i]) {
            proof {
                assert(rest.drop_first() =~= v@.skip(i + 1 as int));
            }
            i = i + 1;
        } else {
            proof {
                lemma_token_len_bounds(rest);
            }
            let mut j: usize = i + 1;
            while j < v.len() && !is_space_char(v[j])
                invariant
                    i < j <= v@.len(),
                    forall|k: int| i <= k < j ==> !is_space(#[trigger] v@[k]),
                decreases v@.len() - j,
            {
                j = j + 1;
            }
            proof {
                assert forall|k: int| 0 <= k < j - i implies !is_space(#[trigger] rest[k]) by {
                    assert(rest[k] == v@[i + k]);
                }
                if j < v.len() {
                    assert(rest[j - i as int] == v@[j as int]);
                }
                lemma_token_prefix(rest, j - i as int);
                assert(rest.take(j - i as int) =~= v@.subrange(i as int, j as int));
                assert(rest.skip(j - i as int) =~= v@.skip(j as int));
            }
            let tok = subvec(v.as_slice(), i, j);
            let ghost prev = r.deep_view();
            r.push(tok);
            proof {
                assert(r.deep_view() =~~= prev.push(v@.subrange(i as int, j as int)));
                assert(r.deep_view() + tokens(v@.skip(j as int)) =~= tokens(v@));
            }
            i = j;
        }
    }
    proof {
        assert(tokens(v@.skip(i as int)) =~= Seq::<Seq<char>>::empty());
        assert(r.deep_view() =~= tokens(v@));
    }
    r
}

/// True when `pat` occurs in `s` starting at position `i`.
pub open spec fn matches_at(s: Seq<char>, pat: Seq<char>, i: int) -> bool {
    0 <= i && i + pat.len() <= s.len() && s.subrange(i, i + pat.len()) == pat
}

/// The first position at or after `i` where `pat` occurs in `s`.
pub open spec fn find_from(s: Seq<char>, pat: Seq<char>, i: int) -> Option<int>
    decreases s.len() - i,
    via find_from_decreases
{
    if i + pat.len() > s.len() || i < 0 {
        None
    } else if matches_at(s, pat, i) {
        Some(i)
    } else {
        find_from(s, pat, i + 1)
    }
}

#[via_fn]
proof fn find_from_decreases(s: Seq<char>, pat: Seq<char>, i: int) {
    if 0 <= i && i + pat.len() <= s.len() && !matches_at(s, pat, i) {
        if pat.len() == 0 {
            assert(s.subrange(i, i) =~= pat);
        }
    }
}

/// The position of the first occurrence of `pat` in `s`, if any.
pub open spec fn find_sub(s: Seq<char>, pat: Seq<char>) -> Option<int> {
    find_from(s, pat, 0)
}

pub proof fn lemma_find_from_some(s: Seq<char>, pat: Seq<char>, j: int, i: int)
    requires
        find_from(s, pat, j) == Some(i),
    ensures
        j <= i,
        matches_at(s, pat, i),
    decreases s.len() - j,
{
    if !(j + pat.len() > s.len() || j < 0) && !matches_at(s, pat, j) {
        if pat.len() == 0 {
            assert(s.subrange(j, j) =~= pat);
        }
        lemma_find_from_some(s, pat, j + 1, i);
    }
}

pub open spec fn contains_sub(s: Seq<char>, pat: Seq<char>) -> bool {
    find_sub(s, pat) is Some
}

pub proof fn lemma_find_from_none(s: Seq<char>, pat: Seq<char>, j: int, i: int)
    requires
        find_from(s, pat, j) is None,
        0 <= j <= i,
    ensures
        !matches_at(s, pat, i),
    decreases s.len() - j,
{
    if j + pat.len() <= s.len() {
        if pat.len() == 0 {
            assert(s.subrange(j, j) =~= pat);
        }
        if i > j {
            lemma_find_from_none(s, pat, j + 1, i);
        }
    }
}

fn slice_eq_at(v: &[char], pat: &[char], i: usize) -> (r: bool)
    requires
        i + pat@.len() <= v@.len(),
    ensures
        r == (v@.subrange(i as int, i + pat@.len()) == pat@),
{
    let n: usize = v.len();
    let mut k: usize = 0;
    while k < pat.len()
        invariant
            0 <= k <= pat@.len(),
            i + pat@.len() <= v@.len(),
            n == v@.len(),
            forall|j: int| 0 <= j < k ==> v@[i + j] == pat@[j],
        decreases pat@.len() - k,
    {
        if v[i + k] != pat[k] {
            proof {
                assert(v@.subrange(i as int, i + pat@.len())[k as int] != pat@[k as int]);
            }
            return false;
        }
        k = k + 1;
    }
    proof {
        assert(v@.subrange(i as int, i + pat@.len()) =~= pat@);
    }
    true
}

/// Position of the first occurrence of `pat` in `v`, if any.
pub fn find(v: &[char], pat: &[char]) -> (r: Option<usize>)
    ensures
        match r {
            Some(i) => find_sub(v@, pat@) == Some(i as int),
            None => find_sub(v@, pat@) is None,
        },
{
    if pat.len() > v.len() {
        return None;
    }
    let limit = v.len() - pat.len();
    let mut i: usize = 0;
    while i < limit
        invariant
            0 <= i <= limit,
            limit == v@.len() - pat@.len(),
            pat@.len() <= v@.len(),
            v@.len() <= usize::MAX,
            find_sub(v@, pat@) == find_from(v@, pat@, i as int),
        decreases limit - i,
    {
        if slice_eq_at(v, pat, i) {
            return Some(i);
        }
        i = i + 1;
    }
    if slice_eq_at(v, pat, limit) {
        return Some(limit);
    }
    proof {
        assert(find_from(v@, pat@, limit as int) == find_from(v@, pat@, limit + 1));
        assert(find_from(v@, pat@, limit + 1) is None);
    }
    None
}

/// True when `s` begins with `pre`.
pub open spec fn starts_with_s(s: Seq<char>, pre: Seq<char>) -> bool {
    pre.len() <= s.len() && s.take(pre.len() as int) == pre
}

/// True when `s` ends with `suf`.
pub open spec fn ends_with_s(s: Seq<char>, suf: Seq<char>) -> bool {
    suf.len() <= s.len() && s.skip(s.len() - suf.len()) == suf
}

pub fn starts_with(v: &[char], pre: &[char]) -> (r: bool)
    ensures
        r == starts_with_s(v@, pre@),
{
    if pre.len() > v.len() {
        assert(!starts_with_s(v@, pre@));
        return false;
    }
    let r = slice_eq_at(v, pre, 0);
    proof {
        assert(v@.subrange(0, pre@.len() as int) =~= v@.take(pre@.len() as int));
    }
    r
}

pub fn ends_with(v: &[char], suf: &[char]) -> (r: bool)
    ensures
        r == ends_with_s(v@, suf@),
{
    if suf.len() > v.len() {
        assert(!ends_with_s(v@, suf@));
        return false;
    }
    let start = v.len() - suf.len();
    let r = slice_eq_at(v, suf, start);
    proof {
        assert(v@.subrange(start as int, start + suf@.len()) =~= v@.skip(v@.len() - suf@.len()));
    }
    r
}

pub open spec fn all_digits(s: Seq<char>) -> bool {
    forall|j: int| 0 <= j < s.len() ==> is_digit(#[trigger] s[j])
}

/// The value of a digit string read in base ten.
pub open spec fn digits_val(s: Seq<char>) -> int
    decreases s.len(),
{
    if s.len() == 0 {
        0
    } else {
        digits_val(s.drop_last()) * 10 + digit_val(s.last())
    }
}

pub proof fn lemma_digits_val_nonneg(s: Seq<char>)
    requires
        all_digits(s),
    ensures
        digits_val(s) >= 0,
    decreases s.len(),
{
    if s.len() > 0 {
        assert(all_digits(s.drop_last())) by {
            assert forall|j: int| 0 <= j < s.len() - 1 implies is_digit(
                #[trigger] s.drop_last()[j],
            ) by {
                assert(s.drop_last()[j] == s[j]);
            }
        }
        lemma_digits_val_nonneg(s.drop_last());
        assert(is_digit(s[s.len() - 1]));
        assert(s.last() == s[s.len() - 1]);
    }
}

/// The numeric reading of a digit string, when it is one and its value fits
/// in a `u64`.
pub open spec fn parse_u64_s(s: Seq<char>) -> Option<u64> {
    if s.len() > 0 && all_digits(s) && digits_val(s) <= u64::MAX {
        Some(digits_val(s) as u64)
    } else {
        None
    }
}

/// A prefix of a digit string never exceeds the value of the whole string.
proof fn lemma_digits_prefix_monotone(s: Seq<char>, i: int)
    requires
        0 <= i <= s.len(),
        all_digits(s),
    ensures
        digits_val(s) >= digits_val(s.subrange(0, i)),
    decreases s.len() - i,
{
    if i < s.len() {
        assert(s.subrange(0, i + 1).drop_last() =~= s.subrange(0, i));
        assert(all_digits(s.subrange(0, i))) by {
            assert forall|j: int| 0 <= j < i implies is_digit(#[trigger] s.subrange(0, i)[j]) by {
                assert(s.subrange(0, i)[j] == s[j]);
            }
        }
        lemma_digits_val_nonneg(s.subrange(0, i));
        assert(is_digit(s[i]));
        assert(digit_val(s[i]) >= 0);
        assert(s.subrange(0, i + 1).last() == s[i]);
        assert(digits_val(s.subrange(0, i + 1)) == digits_val(s.subrange(0, i)) * 10 + digit_val(
            s[i],
        ));
        assert(digits_val(s.subrange(0, i)) * 10 >= digits_val(s.subrange(0, i)));
        assert(digits_val(s.subrange(0, i + 1)) >= digits_val(s.subrange(0, i)));
        lemma_digits_prefix_monotone(s, i + 1);
        assert(digits_val(s) >= digits_val(s.subrange(0, i + 1)));
    } else {
        assert(s.subrange(0, i) =~= s);
    }
}

/// Once a prefix of a digit string exceeds `u64::MAX`, so does the whole.
proof fn lemma_digits_val_grows(s: Seq<char>, i: int)
    requires
        0 <= i < s.len(),
        all_digits(s),
        digits_val(s.subrange(0, i)) * 10 + digit_val(s[i]) > u64::MAX,
    ensures
        digits_val(s) > u64::MAX,
{
    assert(s.subrange(0, i + 1).drop_last() =~= s.subrange(0, i));
    assert(s.subrange(0, i + 1).last() == s[i]);
    assert(digits_val(s.subrange(0, i + 1)) > u64::MAX);
    lemma_digits_prefix_monotone(s, i + 1);
}

/// Parse a base-ten `u64`; `None` for an empty string, a non-digit character,
/// or a value out of range.
pub fn parse_u64(v: &[char]) -> (r: Option<u64>)
    ensures
        r == parse_u64_s(v@),
{
    if v.len() == 0 {
        return None;
    }
    let mut acc: u64 = 0;
    let mut i: usize = 0;
    proof {
        assert(v@.subrange(0, 0) =~= Seq::<char>::empty());
    }
    while i < v.len()
        invariant
            0 <= i <= v@.len(),
            v@.len() > 0,
            all_digits(v@.subrange(0, i as int)),
            acc == digits_val(v@.subrange(0, i as int)),
        decreases v@.len() - i,
    {
        let c = v[i];
        if !is_digit_char(c) {
            assert(!all_digits(v@));
            return None;
        }
        let d = (c as u32 - 48) as u64;
        proof {
            assert(v@.subrange(0, i + 1 as int).drop_last() =~= v@.subrange(0, i as int));
            assert(v@.subrange(0, i + 1 as int).last() == v@[i as int]);
            lemma_digits_val_nonneg(v@.subrange(0, i as int));
        }
        // 1844674407370955161 == u64::MAX / 10; past it, one more digit overflows.
        if acc > 1844674407370955161 || (acc == 1844674407370955161 && d > 5) {
            proof {
                if all_digits(v@) {
                    lemma_digits_val_grows(v@, i as int);
                }
            }
            return None;
        }
        acc = acc * 10 + d;
        proof {
            assert(all_digits(v@.subrange(0, i + 1 as int))) by {
                assert forall|j: int| 0 <= j < i + 1 implies is_digit(
                    #[trigger] v@.subrange(0, i + 1 as int)[j],
                ) by {
                    assert(v@.subrange(0, i + 1 as int)[j] == v@[j]);
                }
            }
        }
        i = i + 1;
    }
    proof {
        assert(v@.subrange(0, v@.len() as int) =~= v@);
    }
    Some(acc)
}

/// The numeric reading of a digit string when its value fits in a `u32`.
pub open spec fn parse_u32_s(s: Seq<char>) -> Option<u32> {
    if s.len() > 0 && all_digits(s) && digits_val(s) <= u32::MAX {
        Some(digits_val(s) as u32)
    } else {
        None
    }
}

pub fn parse_u32(v: &[char]) -> (r: Option<u32>)
    ensures
        r == parse_u32_s(v@),
{
    proof {
        if v@.len() > 0 && all_digits(v@) {
            lemma_digits_val_nonneg(v@);
        }
    }
    match parse_u64(v) {
        Some(n) => {
            if n <= u32::MAX as u64 {
                Some(n as u32)
            } else {
                None
            }
        },
        None => None,
    }
}

/// The numeric reading of a digit string when its value fits in a `usize`.
pub open spec fn parse_usize_s(s: Seq<char>) -> Option<usize> {
    if s.len() > 0 && all_digits(s) && digits_val(s) <= usize::MAX {
        Some(digits_val(s) as usize)
    } else {
        None
    }
}

pub fn parse_usize(v: &[char]) -> (r: Option<usize>)
    ensures
        r == parse_usize_s(v@),
{
    proof {
        if v@.len() > 0 && all_digits(v@) {
            lemma_digits_val_nonneg(v@);
        }
    }
    match parse_u64(v) {
        Some(n) => {
            if n <= usize::MAX as u64 {
                Some(n as usize)
            } else {
                None
            }
        },
        None => None,
    }
}

/// The position of the first occurrence of the character `c` in `s`.
pub open spec fn find_char(s: Seq<char>, c: char) -> Option<int>
    decreases s.len(),
{
    if s.len() == 0 {
        None
    } else if s[0] == c {
        Some(0)
    } else {
        match find_char(s.drop_first(), c) {
            Some(j) => Some(j + 1),
            None => None,
        }
    }
}

pub proof fn lemma_find_char_bounds(s: Seq<char>, c: char)
    ensures
        match find_char(s, c) {
            Some(i) => 0 <= i < s.len() && s[i] == c && forall|j: int| 0 <= j < i ==> s[j] != c,
            None => forall|j: int| 0 <= j < s.len() ==> s[j] != c,
        },
    decreases s.len(),
{
    if s.len() > 0 && s[0] != c {
        lemma_find_char_bounds(s.drop_first(), c);
        match find_char(s, c) {
            Some(i) => {
                assert forall|j: int| 0 <= j < i implies s[j] != c by {
                    if j > 0 {
                        assert(s[j] == s.drop_first()[j - 1]);
                    }
                }
                assert(s[i] == s.drop_first()[i - 1]);
            },
            None => {
                assert forall|j: int| 0 <= j < s.len() implies s[j] != c by {
                    if j > 0 {
                        assert(s[j] == s.drop_first()[j - 1]);
                    }
                }
            },
        }
    }
}

proof fn lemma_find_char_from_prefix(s: Seq<char>, c: char, i: int)
    requires
        0 <= i <= s.len(),
        forall|j: int| 0 <= j < i ==> s[j] != c,
        i < s.len() ==> s[i] == c,
    ensures
        find_char(s, c) == if i < s.len() {
            Some(i)
        } else {
            None::<int>
        },
    decreases s.len(),
{
    if s.len() > 0 && s[0] != c {
        let d = s.drop_first();
        assert forall|j: int| 0 <= j < i - 1 implies d[j] != c by {
            assert(d[j] == s[j + 1]);
        }
        if i - 1 < d.len() {
            assert(d[i - 1] == s[i]);
        }
        lemma_find_char_from_prefix(d, c, i - 1);
    }
}

/// Position of the first occurrence of the character `c` in `v`, if any.
pub fn index_of_char(v: &[char], c: char) -> (r: Option<usize>)
    ensures
        match r {
            Some(i) => find_char(v@, c) == Some(i as int),
            None => find_char(v@, c) is None,
        },
{
    let mut i: usize = 0;
    while i < v.len()
        invariant
            0 <= i <= v@.len(),
            forall|j: int| 0 <= j < i ==> v@[j] != c,
        decreases v@.len() - i,
    {
        if v[i] == c {
            proof {
                lemma_find_char_from_prefix(v@, c, i as int);
            }
            return Some(i);
        }
        i = i + 1;
    }
    proof {
        lemma_find_char_from_prefix(v@, c, v@.len() as int);
    }
    None
}

/// The pieces of `s` between occurrences of the character `c` (empty pieces
/// kept, as many as separators plus one).
pub open spec fn split_char(s: Seq<char>, c: char) -> Seq<Seq<char>>
    decreases s.len(),
    via split_char_decreases
{
    match find_char(s, c) {
        Some(i) => seq![s.take(i)] + split_char(s.skip(i + 1), c),
        None => seq![s],
    }
}

#[via_fn]
proof fn split_char_decreases(s: Seq<char>, c: char) {
    lemma_find_char_bounds(s, c);
}

/// Split at every occurrence of `c`, keeping empty pieces.
pub fn split_at_char(v: &Vec<char>, c: char) -> (r: Vec<Vec<char>>)
    ensures
        r.deep_view() == split_char(v@, c),
{
    let mut r: Vec<Vec<char>> = Vec::new();
    let ghost whole = v@;
    let mut start: usize = 0;
    proof {
        assert(v@.skip(0) =~= v@);
        assert(r.deep_view() =~= Seq::<Seq<char>>::empty());
        assert(r.deep_view() + split_char(v@, c) =~= split_char(v@, c));
    }
    let mut i: usize = 0;
    while i < v.len()
        invariant
            0 <= start <= i <= v@.len(),
            forall|j: int| start <= j < i ==> v@[j] != c,
            r.deep_view() + split_char(v@.skip(start as int), c) == split_char(v@, c),
        decreases v@.len() - i,
    {
        if v[i] == c {
            let ghost rest = v@.skip(start as int);
            proof {
                assert forall|j: int| 0 <= j < i - start implies rest[j] != c by {
                    assert(rest[j] == v@[start + j]);
                }
                assert(rest[i - start as int] == v@[i as int]);
                lemma_find_char_from_prefix(rest, c, i - start as int);
                assert(rest.take(i - start as int) =~= v@.subrange(start as int, i as int));
                assert(rest.skip(i - start + 1) =~= v@.skip(i + 1 as int));
            }
            let piece = subvec(v.as_slice(), start, i);
            let ghost prev = r.deep_view();
            r.push(piece);
            proof {
                assert(r.deep_view() =~~= prev.push(v@.subrange(start as int, i as int)));
                assert(r.deep_view() + split_char(v@.skip(i + 1 as int), c) =~= split_char(v@, c));
            }
            start = i + 1;
        }
        i = i + 1;
    }
    let ghost rest = v@.skip(start as int);
    proof {
        assert forall|j: int| 0 <= j < rest.len() implies rest[j] != c by {
            assert(rest[j] == v@[start + j]);
        }
        lemma_find_char_from_prefix(rest, c, rest.len() as int);
        assert(rest.take(rest.len() as int) =~= v@.subrange(start as int, v@.len() as int));
    }
    let piece = subvec(v.as_slice(), start, v.len());
    let ghost prev = r.deep_view();
    r.push(piece);
    proof {
        assert(r.deep_view() =~~= prev.push(v@.subrange(start as int, v@.len() as int)));
        assert(seq![rest] =~= seq![v@.subrange(start as int, v@.len() as int)]);
        assert(r.deep_view() =~= split_char(v@, c));
    }
    r
}

/// How many times the character `c` occurs in `s`.
pub open spec fn count_char(s: Seq<char>, c: char) -> int
    decreases s.len(),
{
    if s.len() == 0 {
        0
    } else {
        count_char(s.drop_last(), c) + if s.last() == c {
            1int
        } else {
            0int
        }
    }
}

pub proof fn lemma_count_char_bounds(s: Seq<char>, c: char)
    ensures
        0 <= count_char(s, c) <= s.len(),
    decreases s.len(),
{
    if s.len() > 0 {
        lemma_count_char_bounds(s.drop_last(), c);
    }
}

/// Number of `'0'` characters at the front of `s`.
pub open spec fn leading_zeros(s: Seq<char>) -> int
    decreases s.len(),
{
    if s.len() > 0 && s[0] == '0' {
        1 + leading_zeros(s.drop_first())
    } else {
        0
    }
}

proof fn lemma_leading_zeros_from_prefix(s: Seq<char>, i: int)
    requires
        0 <= i <= s.len(),
        forall|j: int| 0 <= j < i ==> s[j] == '0',
        i < s.len() ==> s[i] != '0',
    ensures
        leading_zeros(s) == i,
    decreases s.len(),
{
    if s.len() > 0 && s[0] == '0' {
        let d = s.drop_first();
        assert forall|j: int| 0 <= j < i - 1 implies d[j] == '0' by {
            assert(d[j] == s[j + 1]);
        }
        if i - 1 < d.len() {
            assert(d[i - 1] == s[i]);
        }
        lemma_leading_zeros_from_prefix(d, i - 1);
    }
}

/// A frequency token this library treats as numeric: decimal digits with at
/// most one decimal point, and at least one digit.
pub open spec fn is_numeric_token(s: Seq<char>) -> bool {
    &&& s.len() > 0
    &&& forall|j: int| 0 <= j < s.len() ==> (is_digit(#[trigger] s[j]) || s[j] == '.')
    &&& count_char(s, '.') <= 1
    &&& count_char(s, '.') < s.len()
}

/// The integer digits of a numeric token (everything before the point).
pub open spec fn int_part(s: Seq<char>) -> Seq<char> {
    match find_char(s, '.') {
        Some(i) => s.take(i),
        None => s,
    }
}

/// The fractional digits of a numeric token (everything after the point).
pub open spec fn frac_part(s: Seq<char>) -> Seq<char> {
    match find_char(s, '.') {
        Some(i) => s.skip(i + 1),
        None => Seq::empty(),
    }
}

/// Integer digits without leading zeros; a bare or exhausted integer part
/// reads as zero.
pub open spec fn canon_int(s: Seq<char>) -> Seq<char> {
    if leading_zeros(s) == s.len() {
        seq!['0']
    } else {
        s.skip(leading_zeros(s))
    }
}

/// The fraction fixed to six digits: zero-padded, or cut after the sixth.
pub open spec fn frac6(s: Seq<char>) -> Seq<char> {
    if s.len() >= 6 {
        s.take(6)
    } else {
        s + Seq::new((6 - s.len()) as nat, |i: int| '0')
    }
}

/// A numeric frequency token normalized to a fixed six-decimal form with a
/// canonical integer part; anything non-numeric is left exactly as it was.
pub open spec fn normalize_freq_s(s: Seq<char>) -> Seq<char> {
    if is_numeric_token(s) {
        canon_int(int_part(s)) + seq!['.'] + frac6(frac_part(s))
    } else {
        s
    }
}

fn is_numeric_token_x(v: &[char]) -> (r: bool)
    ensures
        r == is_numeric_token(v@),
{
    if v.len() == 0 {
        return false;
    }
    let mut dots: usize = 0;
    let mut i: usize = 0;
    while i < v.len()
        invariant
            0 <= i <= v@.len(),
            forall|j: int| 0 <= j < i ==> (is_digit(#[trigger] v@[j]) || v@[j] == '.'),
            dots == count_char(v@.take(i as int), '.'),
        decreases v@.len() - i,
    {
        let c = v[i];
        if !is_digit_char(c) && c != '.' {
            assert(!is_numeric_token(v@));
            return false;
        }
        proof {
            assert(v@.take(i + 1 as int).drop_last() =~= v@.take(i as int));
            assert(v@.take(i + 1 as int).last() == v@[i as int]);
            lemma_count_char_bounds(v@.take(i as int), '.');
        }
        if c == '.' {
            dots = dots + 1;
        }
        i = i + 1;
    }
    proof {
        assert(v@.take(v@.len() as int) =~= v@);
    }
    dots <= 1 && dots < v.len()
}

/// Normalize a numeric frequency token to six decimals; leave anything else
/// unchanged.
pub fn normalize_freq_chars(v: &Vec<char>) -> (r: Vec<char>)
    ensures
        r@ == normalize_freq_s(v@),
{
    if !is_numeric_token_x(v.as_slice()) {
        let r = subvec(v.as_slice(), 0, v.len());
        proof {
            assert(v@.subrange(0, v@.len() as int) =~= v@);
        }
        return r;
    }
    let dot = index_of_char(v.as_slice(), '.');
    proof {
        lemma_find_char_bounds(v@, '.');
    }
    let (ip, fp) = match dot {
        Some(i) => {
            let n = v.len();
            assert(i < n);
            let ip = subvec(v.as_slice(), 0, i);
            let fp = subvec(v.as_slice(), i + 1, n);
            proof {
                assert(v@.subrange(0, i as int) =~= v@.take(i as int));
                assert(v@.subrange(i + 1 as int, v@.len() as int) =~= v@.skip(i + 1 as int));
            }
            (ip, fp)
        },
        None => {
            let ip = subvec(v.as_slice(), 0, v.len());
            let fp: Vec<char> = Vec::new();
            proof {
                assert(v@.subrange(0, v@.len() as int) =~= v@);
                assert(fp@ =~= frac_part(v@));
            }
            (ip, fp)
        },
    };
    let mut out: Vec<char> = Vec::new();
    // Canonical integer part.
    let mut z: usize = 0;
    while z < ip.len() && ip[z] == '0'
        invariant
            0 <= z <= ip@.len(),
            forall|j: int| 0 <= j < z ==> ip@[j] == '0',
        decreases ip@.len() - z,
    {
        z = z + 1;
    }
    proof {
        lemma_leading_zeros_from_prefix(ip@, z as int);
    }
    if z == ip.len() {
        out.push('0');
        proof {
            assert(out@ =~= canon_int(ip@));
        }
    } else {
        let mut rest = subvec(ip.as_slice(), z, ip.len());
        out.append(&mut rest);
        proof {
            assert(ip@.subrange(z as int, ip@.len() as int) =~= ip@.skip(z as int));
            assert(out@ =~= canon_int(ip@));
        }
    }
    out.push('.');
    // Six fractional digits.
    if fp.len() >= 6 {
        let mut head = subvec(fp.as_slice(), 0, 6);
        out.append(&mut head);
        proof {
            assert(fp@.subrange(0, 6) =~= fp@.take(6));
            assert(out@ =~= normalize_freq_s(v@));
        }
    } else {
        let mut rest = subvec(fp.as_slice(), 0, fp.len());
        out.append(&mut rest);
        let mut pad: usize = fp.len();
        while pad < 6
            invariant
                fp@.len() <= pad <= 6,
                out@ == canon_int(int_part(v@)) + seq!['.'] + fp@ + Seq::new(
                    (pad - fp@.len()) as nat,
                    |i: int| '0',
                ),
            decreases 6 - pad,
        {
            out.push('0');
            proof {
                assert(out@ =~= canon_int(int_part(v@)) + seq!['.'] + fp@ + Seq::new(
                    (pad + 1 - fp@.len()) as nat,
                    |i: int| '0',
                ));
            }
            pad = pad + 1;
        }
        proof {
            assert(out@ =~= normalize_freq_s(v@));
        }
    }
    out
}

/// Normalize a numeric frequency token to a fixed six-decimal string; leave a
/// non-numeric token as it is.
pub fn normalize_freq(s: &str) -> (r: String)
    ensures
        r@ == normalize_freq_s(s@),
{
    let v = line_chars(s);
    let out = normalize_freq_chars(&v);
    chars_to_string(out.as_slice())
}

/// The character for the decimal digit `d`.
pub open spec fn digit_char(d: int) -> char {
    (48 + d) as char
}

/// The base-ten representation of `n` without leading zeros (a single `'0'`
/// for zero itself).
pub open spec fn dec_rep(n: int) -> Seq<char>
    decreases n,
{
    if n < 10 {
        seq![digit_char(n)]
    } else {
        dec_rep(n / 10).push(digit_char(n % 10))
    }
}

/// The base-ten representation of `n` zero-padded to exactly `width` digits
/// (only the low `width` digits when `n` is wider).
pub open spec fn dec_pad(n: int, width: int) -> Seq<char>
    decreases width,
{
    if width <= 0 {
        Seq::empty()
    } else {
        dec_pad(n / 10, width - 1).push(digit_char(n % 10))
    }
}

/// Decimal digits of `n`.
pub fn u64_to_chars(n: u64) -> (r: Vec<char>)
    ensures
        r@ == dec_rep(n as int),
    decreases n,
{
    if n < 10 {
        let c = (48 + n as u32) as u8 as char;
        let mut r: Vec<char> = Vec::new();
        r.push(c);
        proof {
            assert(r@ =~= seq![digit_char(n as int)]);
        }
        r
    } else {
        let mut r = u64_to_chars(n / 10);
        let c = (48 + (n % 10) as u32) as u8 as char;
        r.push(c);
        r
    }
}

pub fn u64_to_string(n: u64) -> (r: String)
    ensures
        r@ == dec_rep(n as int),
{
    let v = u64_to_chars(n);
    chars_to_string(v.as_slice())
}

/// Decimal digits of `n` zero-padded to `width`.
pub fn u64_to_chars_pad(n: u64, width: usize) -> (r: Vec<char>)
    ensures
        r@ == dec_pad(n as int, width as int),
    decreases width,
{
    if width == 0 {
        let r: Vec<char> = Vec::new();
        proof {
            assert(r@ =~= dec_pad(n as int, 0));
        }
        r
    } else {
        let mut r = u64_to_chars_pad(n / 10, width - 1);
        let c = (48 + (n % 10) as u32) as u8 as char;
        r.push(c);
        r
    }
}

} // verus!
