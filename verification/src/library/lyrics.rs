//! Lyrics: reading and analysing the LRC format.
//!
//! Plain lyrics and synchronised lyrics live in the same tag field; the LRC
//! format is recognised on reading, by its bracketed prefixes:
//!
//! ```text
//! [ar:Damso]                ← metadata, ignored
//! [00:12.34]First line      ← timed
//! [02:10.00][02:40.00]Chorus   ← two passes, same text
//! ```
use vstd::prelude::*;

use crate::text::{
    all_digits, chars_of, digit_value, digits_value, find_char, index_of, lemma_index_of, integer_value, is_digit,
    lemma_digits_value_nonneg, lemma_trim_start_len, parse_i64, parse_i64_spec, slice_chars,
    string_from, trim, trim_chars, trim_start, trim_start_chars,
};

verus! {

/// A timed line.
#[derive(Debug, Clone, PartialEq, Eq)]
pub struct LyricLine {
    pub at_ms: i64,
    pub text: String,
}

/// Analysed lyrics.
#[derive(Debug, Clone, Default, PartialEq, Eq)]
pub struct Lyrics {
    /// Timed lines, sorted. Empty when the lyrics are not synchronised.
    pub synced: Vec<LyricLine>,
    /// Plain text, always filled: it is the fallback.
    pub plain: Vec<String>,
}

/// A timed line as a pair of its instant and its text.
pub open spec fn line_view(l: LyricLine) -> (i64, Seq<char>) {
    (l.at_ms, l.text@)
}

/// Timed lines as pairs.
pub open spec fn lines_view(v: Seq<LyricLine>) -> Seq<(i64, Seq<char>)> {
    v.map_values(|l: LyricLine| line_view(l))
}

/// Strings as character sequences.
pub open spec fn strings_view(v: Seq<String>) -> Seq<Seq<char>> {
    v.map_values(|s: String| s@)
}

/// Timed lines ordered by instant.
pub open spec fn sorted_by_time(s: Seq<(i64, Seq<char>)>) -> bool {
    forall|i: int, j: int| 0 <= i <= j < s.len() ==> s[i].0 <= s[j].0
}

impl Lyrics {
    pub fn is_synced(&self) -> (r: bool)
        ensures
            r == (self.synced@.len() > 0),
    {
        self.synced.len() != 0
    }

    pub fn is_empty(&self) -> (r: bool)
        ensures
            r == (self.synced@.len() == 0 && self.plain@.len() == 0),
    {
        self.synced.len() == 0 && self.plain.len() == 0
    }

    /// Index of the line being sung at the given instant: the last line that
    /// has started, `None` before the first one.
    ///
    /// Binary search: called several times a second on lyrics of a hundred
    /// lines, a linear scan would keep the interface busy for nothing.
    pub fn line_at(&self, position_ms: i64) -> (r: Option<usize>)
        ensures
            (r is None) <==> (self.synced@.len() == 0 || position_ms < self.synced@[0].at_ms),
            r matches Some(k) ==> k < self.synced@.len(),
            r matches Some(k) ==> sorted_by_time(lines_view(self.synced@)) ==> {
                &&& self.synced@[k as int].at_ms <= position_ms
                &&& (k + 1 < self.synced@.len() ==> position_ms < self.synced@[k + 1].at_ms)
            },
    {
        if self.synced.len() == 0 || position_ms < self.synced[0].at_ms {
            return None;
        }
        // Lines [0, lo) have started; lines [hi, len) have not.
        let n = self.synced.len();
        let mut lo: usize = 1;
        let mut hi: usize = n;
        while lo < hi
            invariant
                1 <= lo <= hi <= n == self.synced@.len(),
                self.synced@[0].at_ms <= position_ms,
                sorted_by_time(lines_view(self.synced@)) ==> (forall|i: int|
                    0 <= i < lo ==> #[trigger] self.synced@[i].at_ms <= position_ms),
                sorted_by_time(lines_view(self.synced@)) ==> (forall|i: int|
                    hi <= i < n ==> position_ms < #[trigger] self.synced@[i].at_ms),
            decreases hi - lo,
        {
            let mid = lo + (hi - lo) / 2;
            if self.synced[mid].at_ms <= position_ms {
                proof {
                    if sorted_by_time(lines_view(self.synced@)) {
                        assert forall|i: int| 0 <= i < mid + 1 implies #[trigger] self.synced@[i].at_ms
                            <= position_ms by {
                            assert(lines_view(self.synced@)[i].0 == self.synced@[i].at_ms);
                            assert(lines_view(self.synced@)[mid as int].0 == self.synced@[mid as int].at_ms);
                        }
                    }
                }
                lo = mid + 1;
            } else {
                proof {
                    if sorted_by_time(lines_view(self.synced@)) {
                        assert forall|i: int| mid <= i < n implies position_ms
                            < #[trigger] self.synced@[i].at_ms by {
                            assert(lines_view(self.synced@)[i].0 == self.synced@[i].at_ms);
                            assert(lines_view(self.synced@)[mid as int].0 == self.synced@[mid as int].at_ms);
                        }
                    }
                }
                hi = mid;
            }
        }
        Some(lo - 1)
    }
}

// ── Timestamps ─────────────────────────────────────────────────────────────

/// The fraction separators of a timestamp.
pub open spec fn is_fraction_separator(c: char) -> bool {
    c == '.' || c == ':'
}

/// Index of the first `.` or `:` of `s`.
pub open spec fn first_separator(s: Seq<char>) -> Option<int>
    decreases s.len(),
{
    if s.len() == 0 {
        None
    } else if is_fraction_separator(s[0]) {
        Some(0)
    } else {
        match first_separator(s.drop_first()) {
            Some(i) => Some(i + 1),
            None => None,
        }
    }
}

/// What `first_separator` means, position by position.
pub proof fn lemma_first_separator(s: Seq<char>)
    ensures
        match first_separator(s) {
            Some(i) => 0 <= i < s.len() && is_fraction_separator(s[i]) && forall|j: int|
                0 <= j < i ==> !is_fraction_separator(#[trigger] s[j]),
            None => forall|j: int| 0 <= j < s.len() ==> !is_fraction_separator(#[trigger] s[j]),
        },
    decreases s.len(),
{
    if s.len() > 0 && !is_fraction_separator(s[0]) {
        lemma_first_separator(s.drop_first());
        match first_separator(s.drop_first()) {
            Some(i) => {
                assert forall|j: int| 0 <= j < i + 1 implies !is_fraction_separator(#[trigger] s[j]) by {
                    if j > 0 {
                        assert(s[j] == s.drop_first()[j - 1]);
                    }
                }
            },
            None => {
                assert forall|j: int| 0 <= j < s.len() implies !is_fraction_separator(#[trigger] s[j]) by {
                    if j > 0 {
                        assert(s[j] == s.drop_first()[j - 1]);
                    }
                }
            },
        }
    }
}

/// The ASCII digits of `s`, in order.
pub open spec fn digits_only(s: Seq<char>) -> Seq<char>
    decreases s.len(),
{
    if s.len() == 0 {
        s
    } else if is_digit(s.last()) {
        digits_only(s.drop_last()).push(s.last())
    } else {
        digits_only(s.drop_last())
    }
}

/// Milliseconds carried by the fraction of a timestamp: two digits are
/// hundredths, three are thousandths, one is tenths.
pub open spec fn fraction_millis(fraction: Option<Seq<char>>) -> Option<int> {
    match fraction {
        None => Some(0),
        Some(f) => {
            let d = digits_only(f);
            match parse_i64_spec(d) {
                None => None,
                Some(p) => Some(
                    if d.len() == 0 {
                        0
                    } else if d.len() == 1 {
                        p * 100
                    } else if d.len() == 2 {
                        p * 10
                    } else {
                        (p % 1000) as int
                    },
                ),
            }
        },
    }
}

/// `mm:ss`, `mm:ss.xx` or `mm:ss.xxx`, in milliseconds. A total that does not fit
/// an `i64` is refused.
pub open spec fn timestamp_value(value: Seq<char>) -> Option<i64> {
    match index_of(value, ':') {
        None => None,
        Some(m) => {
            let rem = value.skip(m + 1);
            let sec_text = match first_separator(rem) {
                Some(f) => rem.take(f),
                None => rem,
            };
            let fraction = match first_separator(rem) {
                Some(f) => Some(rem.skip(f + 1)),
                None => None,
            };
            match (parse_i64_spec(trim(value.take(m))), parse_i64_spec(trim(sec_text))) {
                (Some(minutes), Some(seconds)) => if 0 <= seconds < 60 {
                    match fraction_millis(fraction) {
                        Some(ms) => {
                            let total = minutes * 60_000 + seconds * 1_000 + ms;
                            if i64::MIN <= total <= i64::MAX {
                                Some(total as i64)
                            } else {
                                None
                            }
                        },
                        None => None,
                    }
                } else {
                    None
                },
                _ => None,
            }
        },
    }
}

/// The ASCII digits of `s`.
fn keep_digits(s: &[char]) -> (v: Vec<char>)
    ensures
        v@ == digits_only(s@),
{
    let mut v: Vec<char> = Vec::new();
    let mut i: usize = 0;
    while i < s.len()
        invariant
            i <= s@.len(),
            v@ == digits_only(s@.take(i as int)),
        decreases s@.len() - i,
    {
        assert(s@.take(i + 1).drop_last() =~= s@.take(i as int));
        let c = s[i];
        let cv = c as u32;
        if 48 <= cv && cv <= 57 {
            v.push(c);
        }
        i = i + 1;
    }
    assert(s@.take(i as int) =~= s@);
    v
}

/// Index of the first `.` or `:` in `s`.
fn find_fraction_separator(s: &[char]) -> (r: Option<usize>)
    ensures
        match r {
            Some(i) => first_separator(s@) == Some(i as int),
            None => first_separator(s@) is None,
        },
{
    proof {
        lemma_first_separator(s@);
    }
    let mut i: usize = 0;
    while i < s.len()
        invariant
            i <= s@.len(),
            forall|j: int| 0 <= j < i ==> !is_fraction_separator(#[trigger] s@[j]),
            match first_separator(s@) {
                Some(k) => 0 <= k < s@.len() && is_fraction_separator(s@[k]) && forall|j: int|
                    0 <= j < k ==> !is_fraction_separator(#[trigger] s@[j]),
                None => forall|j: int| 0 <= j < s@.len() ==> !is_fraction_separator(#[trigger] s@[j]),
            },
        decreases s@.len() - i,
    {
        if s[i] == '.' || s[i] == ':' {
            return Some(i);
        }
        i = i + 1;
    }
    None
}

/// `mm:ss`, `mm:ss.xx` or `mm:ss.xxx` → milliseconds.
pub fn parse_timestamp(value: &str) -> (r: Option<i64>)
    ensures
        r == timestamp_value(value@),
{
    let v = chars_of(value);
    parse_timestamp_chars(v.as_slice())
}

/// `parse_timestamp`, on characters.
pub fn parse_timestamp_chars(value: &[char]) -> (r: Option<i64>)
    ensures
        r == timestamp_value(value@),
{
    proof {
        lemma_index_of(value@, ':');
    }
    let m = match find_char(value, ':') {
        None => return None,
        Some(m) => m,
    };
    let n = value.len();
    assert(m < n);
    let minutes_text = slice_chars(value, 0, m);
    let rem = slice_chars(value, m + 1, n);
    assert(minutes_text@ =~= value@.take(m as int));
    assert(rem@ =~= value@.skip(m + 1));
    proof {
        lemma_first_separator(rem@);
    }
    let (sec_text, fraction) = match find_fraction_separator(rem.as_slice()) {
        Some(f) => {
            let a = slice_chars(rem.as_slice(), 0, f);
            let b = slice_chars(rem.as_slice(), f + 1, rem.len());
            assert(a@ =~= rem@.take(f as int));
            assert(b@ =~= rem@.skip(f + 1));
            (a, Some(b))
        },
        None => (rem.clone(), None),
    };
    let minutes = match parse_i64(trim_chars(minutes_text.as_slice()).as_slice()) {
        None => return None,
        Some(x) => x,
    };
    let seconds = match parse_i64(trim_chars(sec_text.as_slice()).as_slice()) {
        None => return None,
        Some(x) => x,
    };
    if !(0 <= seconds && seconds < 60) {
        return None;
    }
    let millis: i64 = match fraction {
        None => 0,
        Some(f) => {
            let digits = keep_digits(f.as_slice());
            let parsed = match parse_i64(digits.as_slice()) {
                None => return None,
                Some(p) => p,
            };
            proof {
                lemma_digits_only_all_digits(f@);
                if digits@.len() > 0 {
                    lemma_digits_value_nonneg(digits@);
                }
            }
            if digits.len() == 0 {
                0
            } else if digits.len() == 1 {
                proof {
                    assert(digits@.drop_last().len() == 0);
                    assert(is_digit(digits@[0]));
                    assert(digits_value(digits@) == digits_value(digits@.drop_last()) * 10 + digit_value(digits@.last()));
                }
                parsed * 100
            } else if digits.len() == 2 {
                proof {
                    assert(digits@.drop_last().drop_last().len() == 0);
                    assert(digits@.drop_last().last() == digits@[0]);
                    assert(is_digit(digits@[0]));
                    assert(is_digit(digits@[1]));
                    assert(digits_value(digits@.drop_last()) == digits_value(digits@.drop_last().drop_last()) * 10 + digit_value(digits@.drop_last().last()));
                    assert(digits_value(digits@) == digits_value(digits@.drop_last()) * 10 + digit_value(digits@.last()));
                }
                parsed * 10
            } else {
                parsed % 1000
            }
        },
    };
    let total: i128 = (minutes as i128) * 60_000 + (seconds as i128) * 1_000 + millis as i128;
    if total < i64::MIN as i128 || total > i64::MAX as i128 {
        return None;
    }
    Some(total as i64)
}

/// `digits_only` keeps digits only.
pub proof fn lemma_digits_only_all_digits(s: Seq<char>)
    ensures
        all_digits(digits_only(s)),
        integer_value(digits_only(s)) is Some ==> integer_value(digits_only(s)) == Some(
            digits_value(digits_only(s)),
        ),
    decreases s.len(),
{
    if s.len() > 0 {
        lemma_digits_only_all_digits(s.drop_last());
        let d = digits_only(s.drop_last());
        if is_digit(s.last()) {
            assert forall|i: int| 0 <= i < d.push(s.last()).len() implies is_digit(
                #[trigger] d.push(s.last())[i],
            ) by {
                if i < d.len() {
                    assert(d.push(s.last())[i] == d[i]);
                }
            }
        }
    }
    let d = digits_only(s);
    if d.len() > 0 {
        assert(is_digit(d[0]));
    }
}

} // verus!

verus! {

// ── Lines ──────────────────────────────────────────────────────────────────

/// The timestamps at the head of a line, and the text that follows them.
pub open spec fn split_ts(rest: Seq<char>) -> (Seq<i64>, Seq<char>)
    decreases rest.len(),
{
    if rest.len() > 0 && rest[0] == '[' {
        match index_of(rest, ']') {
            None => (seq![], trim(rest)),
            Some(e) => match timestamp_value(rest.subrange(1, e)) {
                None => (seq![], trim(rest)),
                Some(v) => {
                    proof {
                        lemma_index_of(rest, ']');
                        lemma_trim_start_len(rest.skip(e + 1));
                    }
                    let next = split_ts(trim_start(rest.skip(e + 1)));
                    (seq![v] + next.0, next.1)
                },
            },
        }
    } else {
        (seq![], trim(rest))
    }
}

/// Separates the leading timestamps from the text that follows.
pub fn split_timestamps(line: &str) -> (r: (Vec<i64>, String))
    ensures
        (r.0@, r.1@) == split_ts(line@),
{
    let v = chars_of(line);
    let (ts, text) = split_timestamps_chars(v.as_slice());
    (ts, string_from(text.as_slice()))
}

/// `split_timestamps`, on characters.
pub fn split_timestamps_chars(line: &[char]) -> (r: (Vec<i64>, Vec<char>))
    ensures
        (r.0@, r.1@) == split_ts(line@),
{
    let mut ts: Vec<i64> = Vec::new();
    let mut rest: Vec<char> = slice_chars(line, 0, line.len());
    assert(rest@ =~= line@);
    let mut stop = false;
    while !stop
        invariant
            split_ts(line@) == (ts@ + split_ts(rest@).0, split_ts(rest@).1),
            stop ==> split_ts(rest@) == (Seq::<i64>::empty(), trim(rest@)),
        decreases (if stop { 0 } else { rest@.len() + 1 }),
    {
        if rest.len() > 0 && rest[0] == '[' {
            proof {
                lemma_index_of(rest@, ']');
            }
            match find_char(rest.as_slice(), ']') {
                None => {
                    stop = true;
                },
                Some(e) => {
                    let n = rest.len();
                    assert(e < n);
                    let inside = slice_chars(rest.as_slice(), 1, e);
                    match parse_timestamp_chars(inside.as_slice()) {
                        None => {
                            stop = true;
                        },
                        Some(at) => {
                            let after = slice_chars(rest.as_slice(), e + 1, n);
                            assert(after@ =~= rest@.skip(e + 1));
                            let next = trim_start_chars(after.as_slice());
                            proof {
                                lemma_trim_start_len(after@);
                                assert(ts@.push(at) + split_ts(next@).0 =~= ts@ + (seq![at]
                                    + split_ts(next@).0));
                            }
                            ts.push(at);
                            rest = next;
                        },
                    }
                },
            }
        } else {
            stop = true;
        }
    }
    let text = trim_chars(rest.as_slice());
    assert(ts@ + Seq::<i64>::empty() =~= ts@);
    (ts, text)
}

/// An ASCII letter.
pub open spec fn is_ascii_alpha(c: char) -> bool {
    (65 <= (c as u32) && (c as u32) <= 90) || (97 <= (c as u32) && (c as u32) <= 122)
}

/// Every character of `s` is an ASCII letter.
pub open spec fn all_ascii_alphabetic(s: Seq<char>) -> bool {
    forall|i: int| 0 <= i < s.len() ==> is_ascii_alpha(#[trigger] s[i])
}

/// An LRC metadata tag (`[ar:…]`, `[ti:…]`, `[by:…]`): a bracketed line whose part
/// before the first colon is a non-empty run of ASCII letters.
pub open spec fn metadata_tag(line: Seq<char>) -> bool {
    line.len() >= 2 && line[0] == '[' && line.last() == ']' && {
        let inside = line.subrange(1, line.len() - 1);
        match index_of(inside, ':') {
            None => false,
            Some(k) => k > 0 && all_ascii_alphabetic(inside.take(k)),
        }
    }
}

/// What makes a metadata tag, by position: a line is one exactly when it opens
/// with `[`, closes with `]`, and holds between them a `:` preceded by a
/// non-empty run of ASCII letters only. A bracketed line without a colon, such
/// as `[Refrain]`, is therefore lyrics.
pub proof fn lemma_metadata_tag_shape(line: Seq<char>)
    ensures
        metadata_tag(line) <==> (line.len() >= 2 && line[0] == '[' && line.last() == ']'
            && exists|k: int|
            1 < k < line.len() - 1 && #[trigger] line[k] == ':' && forall|j: int|
                1 <= j < k ==> is_ascii_alpha(#[trigger] line[j])),
        (forall|j: int| 0 <= j < line.len() ==> #[trigger] line[j] != ':') ==> !metadata_tag(line),
{
    if line.len() >= 2 && line[0] == '[' && line.last() == ']' {
        let inside = line.subrange(1, line.len() - 1);
        lemma_index_of(inside, ':');
        match index_of(inside, ':') {
            Some(c) => {
                let k = c + 1;
                assert(line[k] == inside[c]);
                if c > 0 && all_ascii_alphabetic(inside.take(c)) {
                    assert forall|j: int| 1 <= j < k implies is_ascii_alpha(#[trigger] line[j]) by {
                        assert(line[j] == inside.take(c)[j - 1]);
                    }
                }
                if exists|k2: int|
                    1 < k2 < line.len() - 1 && #[trigger] line[k2] == ':' && forall|j: int|
                        1 <= j < k2 ==> is_ascii_alpha(#[trigger] line[j]) {
                    let k2 = choose|k2: int|
                        1 < k2 < line.len() - 1 && #[trigger] line[k2] == ':' && forall|j: int|
                            1 <= j < k2 ==> is_ascii_alpha(#[trigger] line[j]);
                    if k < k2 {
                        assert(is_ascii_alpha(line[k]));
                        assert(false);
                    }
                    if k2 < k {
                        assert(inside[k2 - 1] == line[k2]);
                        assert(false);
                    }
                    assert forall|i: int| 0 <= i < inside.take(c).len() implies is_ascii_alpha(
                        #[trigger] inside.take(c)[i],
                    ) by {
                        assert(inside.take(c)[i] == line[i + 1]);
                    }
                }
            },
            None => {
                if exists|k2: int|
                    1 < k2 < line.len() - 1 && #[trigger] line[k2] == ':' && forall|j: int|
                        1 <= j < k2 ==> is_ascii_alpha(#[trigger] line[j]) {
                    let k2 = choose|k2: int|
                        1 < k2 < line.len() - 1 && #[trigger] line[k2] == ':' && forall|j: int|
                            1 <= j < k2 ==> is_ascii_alpha(#[trigger] line[j]);
                    assert(inside[k2 - 1] == line[k2]);
                    assert(false);
                }
            },
        }
        if forall|j: int| 0 <= j < line.len() ==> #[trigger] line[j] != ':' {
            if let Some(c) = index_of(inside, ':') {
                assert(inside[c] == line[c + 1]);
            }
        }
    }
}

/// Is the line an LRC metadata tag rather than lyrics?
pub fn is_metadata_tag(line: &str) -> (r: bool)
    ensures
        r == metadata_tag(line@),
{
    let v = chars_of(line);
    is_metadata_tag_chars(v.as_slice())
}

/// `is_metadata_tag`, on characters.
#[verifier::loop_isolation(false)]
pub fn is_metadata_tag_chars(line: &[char]) -> (r: bool)
    ensures
        r == metadata_tag(line@),
{
    let n = line.len();
    if n < 2 || line[0] != '[' || line[n - 1] != ']' {
        return false;
    }
    let inside = slice_chars(line, 1, n - 1);
    assert(inside@ =~= line@.subrange(1, line@.len() - 1));
    proof {
        lemma_index_of(inside@, ':');
    }
    match find_char(inside.as_slice(), ':') {
        None => false,
        Some(k) => {
            if k == 0 {
                return false;
            }
            let mut i: usize = 0;
            while i < k
                invariant
                    k < inside@.len(),
                    i <= k,
                    all_ascii_alphabetic(inside@.take(i as int)),
                decreases k - i,
            {
                let v = inside[i] as u32;
                if !((65 <= v && v <= 90) || (97 <= v && v <= 122)) {
                    assert(inside@.take(k as int)[i as int] == inside@[i as int]);
                    assert(!is_ascii_alpha(inside@.take(k as int)[i as int]));
                    assert(!all_ascii_alphabetic(inside@.take(k as int)));
                    return false;
                }
                i = i + 1;
                assert forall|j: int| 0 <= j < i implies is_ascii_alpha(
                    #[trigger] inside@.take(i as int)[j],
                ) by {
                    if j < i - 1 {
                        assert(inside@.take(i as int)[j] == inside@.take(i - 1)[j]);
                    } else {
                        assert(inside@.take(i as int)[j] == inside@[j]);
                    }
                }
            }
            true
        },
    }
}

} // verus!

verus! {

// ── Sorting by instant ─────────────────────────────────────────────────────

/// `x` inserted into `s` after every line that does not start later.
pub open spec fn insert_by_time(s: Seq<(i64, Seq<char>)>, x: (i64, Seq<char>)) -> Seq<(i64, Seq<char>)>
    decreases s.len(),
{
    if s.len() == 0 {
        seq![x]
    } else if s.last().0 <= x.0 {
        s.push(x)
    } else {
        insert_by_time(s.drop_last(), x).push(s.last())
    }
}

/// Stable sort by instant: lines sharing an instant keep their order.
pub open spec fn sort_by_time(s: Seq<(i64, Seq<char>)>) -> Seq<(i64, Seq<char>)>
    decreases s.len(),
{
    if s.len() == 0 {
        s
    } else {
        insert_by_time(sort_by_time(s.drop_last()), s.last())
    }
}

/// Inserting keeps every instant under a common bound.
pub proof fn lemma_insert_bound(s: Seq<(i64, Seq<char>)>, x: (i64, Seq<char>), b: i64)
    requires
        forall|i: int| 0 <= i < s.len() ==> #[trigger] s[i].0 <= b,
        x.0 <= b,
    ensures
        forall|i: int| 0 <= i < insert_by_time(s, x).len() ==> #[trigger] insert_by_time(s, x)[i].0 <= b,
        insert_by_time(s, x).len() == s.len() + 1,
    decreases s.len(),
{
    if s.len() > 0 && s.last().0 > x.0 {
        lemma_insert_bound(s.drop_last(), x, b);
        let r = insert_by_time(s.drop_last(), x);
        assert forall|i: int| 0 <= i < r.push(s.last()).len() implies #[trigger] r.push(s.last())[i].0 <= b by {
            if i < r.len() {
                assert(r.push(s.last())[i] == r[i]);
            }
        }
    }
}

/// Inserting into a sorted sequence keeps it sorted.
pub proof fn lemma_insert_sorted(s: Seq<(i64, Seq<char>)>, x: (i64, Seq<char>))
    requires
        sorted_by_time(s),
    ensures
        sorted_by_time(insert_by_time(s, x)),
    decreases s.len(),
{
    if s.len() > 0 {
        if s.last().0 <= x.0 {
            assert forall|i: int, j: int| 0 <= i <= j < s.push(x).len() implies s.push(x)[i].0
                <= s.push(x)[j].0 by {
                if j == s.len() {
                    if i < s.len() {
                        assert(s[i].0 <= s[s.len() - 1].0);
                    }
                }
            }
        } else {
            let d = s.drop_last();
            assert(sorted_by_time(d)) by {
                assert forall|i: int, j: int| 0 <= i <= j < d.len() implies d[i].0 <= d[j].0 by {
                    assert(d[i] == s[i] && d[j] == s[j]);
                }
            }
            lemma_insert_sorted(d, x);
            assert forall|i: int| 0 <= i < d.len() implies #[trigger] d[i].0 <= s.last().0 by {
                assert(d[i] == s[i]);
            }
            lemma_insert_bound(d, x, s.last().0);
            let r = insert_by_time(d, x);
            assert forall|i: int, j: int| 0 <= i <= j < r.push(s.last()).len() implies r.push(
                s.last(),
            )[i].0 <= r.push(s.last())[j].0 by {
                if j == r.len() {
                    if i < r.len() {
                        assert(r[i].0 <= s.last().0);
                    }
                } else {
                    assert(r.push(s.last())[i] == r[i] && r.push(s.last())[j] == r[j]);
                }
            }
        }
    }
}

/// The stable sort is sorted.
pub proof fn lemma_sort_sorted(s: Seq<(i64, Seq<char>)>)
    ensures
        sorted_by_time(sort_by_time(s)),
        sort_by_time(s).len() == s.len(),
    decreases s.len(),
{
    if s.len() > 0 {
        lemma_sort_sorted(s.drop_last());
        lemma_insert_sorted(sort_by_time(s.drop_last()), s.last());
        lemma_insert_bound(sort_by_time(s.drop_last()), s.last(), i64::MAX);
    }
}

/// Inserts a line into a vector of lines, after every line that does not start
/// later.
fn insert_line(v: &mut Vec<LyricLine>, x: LyricLine)
    ensures
        lines_view(final(v)@) == insert_by_time(lines_view(old(v)@), line_view(x)),
{
    let ghost w = lines_view(v@);
    let ghost xv = line_view(x);
    let mut i = v.len();
    assert(w.take(i as int) =~= w);
    assert(insert_by_time(w, xv) + w.skip(i as int) =~= insert_by_time(w, xv));
    while i > 0 && v[i - 1].at_ms > x.at_ms
        invariant
            i <= v@.len(),
            w == lines_view(v@),
            xv == line_view(x),
            insert_by_time(w, xv) == insert_by_time(w.take(i as int), xv) + w.skip(i as int),
            forall|j: int| i <= j < w.len() ==> #[trigger] w[j].0 > xv.0,
        decreases i,
    {
        proof {
            let t = w.take(i as int);
            assert(t.drop_last() =~= w.take(i - 1));
            assert(t.last() == w[i - 1]);
            assert(w[i - 1].0 == v@[i - 1].at_ms);
            assert(insert_by_time(t, xv) == insert_by_time(w.take(i - 1), xv).push(w[i - 1]));
            assert(insert_by_time(w.take(i - 1), xv).push(w[i - 1]) + w.skip(i as int)
                =~= insert_by_time(w.take(i - 1), xv) + w.skip(i - 1));
        }
        i = i - 1;
    }
    proof {
        let t = w.take(i as int);
        if i > 0 {
            assert(t.last() == w[i - 1]);
            assert(w[i - 1].0 == v@[i - 1].at_ms);
        }
        assert(insert_by_time(t, xv) == t.push(xv));
    }
    v.insert(i, x);
    assert(lines_view(v@) =~= w.take(i as int).push(xv) + w.skip(i as int));
}

// ── Analysis ───────────────────────────────────────────────────────────────

/// Timed lines (in file order) and plain lines gathered so far.
pub type Gathered = (Seq<(i64, Seq<char>)>, Seq<Seq<char>>);

/// The timed lines of one row: one per timestamp, all with the same text.
pub open spec fn timed(ts: Seq<i64>, text: Seq<char>) -> Seq<(i64, Seq<char>)> {
    ts.map_values(|at: i64| (at, text))
}

/// What one raw row contributes.
///
/// Blank rows are skipped. A row without timestamps is plain lyrics, unless it
/// is a metadata tag. A row with timestamps gives one timed line per timestamp,
/// and its text, when there is one, joins the plain lyrics.
pub open spec fn gather_row(acc: Gathered, row: Seq<char>) -> Gathered {
    let t = trim(row);
    if t.len() == 0 {
        acc
    } else {
        let (ts, text) = split_ts(t);
        if ts.len() == 0 {
            if metadata_tag(t) {
                acc
            } else {
                (acc.0, acc.1.push(t))
            }
        } else {
            (acc.0 + timed(ts, text), if text.len() > 0 {
                acc.1.push(text)
            } else {
                acc.1
            })
        }
    }
}

/// What a sequence of rows contributes, in order.
pub open spec fn gather(rows: Seq<Seq<char>>) -> Gathered
    decreases rows.len(),
{
    if rows.len() == 0 {
        (seq![], seq![])
    } else {
        gather_row(gather(rows.drop_last()), rows.last())
    }
}

/// A row without a colon, `[Refrain]` as much as any sung line, carries no
/// timestamp and is no tag: its trimmed text joins the plain lyrics, and the
/// timed lines are left as they were.
pub proof fn lemma_row_without_colon_is_lyrics(acc: Gathered, row: Seq<char>)
    requires
        trim(row).len() > 0,
        forall|j: int| 0 <= j < row.len() ==> #[trigger] row[j] != ':',
    ensures
        gather_row(acc, row) == (acc.0, acc.1.push(trim(row))),
{
    let t = trim(row);
    crate::text::lemma_trim_ends(row);
    assert forall|i: int| 0 <= i < t.len() implies #[trigger] t[i] != ':' by {
        let j = choose|j: int| 0 <= j < row.len() && row[j] == t[i];
    }
    crate::text::lemma_trim_keeps(t);
    if t[0] == '[' {
        lemma_index_of(t, ']');
        if let Some(e) = index_of(t, ']') {
            let inner = t.subrange(1, e);
            lemma_index_of(inner, ':');
            if let Some(c) = index_of(inner, ':') {
                assert(inner[c] == t[c + 1]);
            }
            assert(timestamp_value(inner) is None);
        }
    }
    assert(split_ts(t) == (Seq::<i64>::empty(), t));
    lemma_metadata_tag_shape(t);
}

/// Rows already ended by a line feed, and the row in progress.
pub open spec fn split_rows(s: Seq<char>) -> (Seq<Seq<char>>, Seq<char>)
    decreases s.len(),
{
    if s.len() == 0 {
        (seq![], seq![])
    } else {
        let (done, current) = split_rows(s.drop_last());
        if s.last() == '\n' {
            (done.push(current), seq![])
        } else {
            (done, current.push(s.last()))
        }
    }
}

/// The rows of a text, separated by line feeds. (A carriage return before the
/// line feed, which `str::lines` also removes, is white space and disappears
/// when the row is trimmed.)
pub open spec fn rows_of(s: Seq<char>) -> Seq<Seq<char>> {
    split_rows(s).0.push(split_rows(s).1)
}

/// The analysis of raw lyrics: timed lines sorted by instant, plain lines.
pub open spec fn analysed(raw: Seq<char>) -> Gathered {
    let g = gather(rows_of(raw));
    (sort_by_time(g.0), g.1)
}

/// Adds what one row contributes.
fn gather_one(row: &[char], synced: &mut Vec<LyricLine>, plain: &mut Vec<String>, Ghost(unsorted): Ghost<Seq<(i64, Seq<char>)>>) -> (r: Ghost<Seq<(i64, Seq<char>)>>)
    requires
        lines_view(old(synced)@) == sort_by_time(unsorted),
    ensures
        lines_view(final(synced)@) == sort_by_time(r@),
        (r@, strings_view(final(plain)@)) == gather_row((unsorted, strings_view(old(plain)@)), row@),
{
    let t = trim_chars(row);
    if t.len() == 0 {
        return Ghost(unsorted);
    }
    let (ts, text) = split_timestamps_chars(t.as_slice());
    if ts.len() == 0 {
        if !is_metadata_tag_chars(t.as_slice()) {
            plain.push(string_from(t.as_slice()));
            assert(strings_view(plain@) =~= strings_view(old(plain)@).push(t@));
        }
        return Ghost(unsorted);
    }
    let ghost mut u = unsorted;
    let mut k: usize = 0;
    while k < ts.len()
        invariant
            k <= ts@.len(),
            u == unsorted + timed(ts@, text@).take(k as int),
            lines_view(synced@) == sort_by_time(u),
            plain@ == old(plain)@,
        decreases ts@.len() - k,
    {
        let line = LyricLine { at_ms: ts[k], text: string_from(text.as_slice()) };
        proof {
            let nu = u.push(line_view(line));
            assert(nu.drop_last() =~= u);
            assert(sort_by_time(nu) == insert_by_time(sort_by_time(u), line_view(line)));
            assert(timed(ts@, text@).take(k + 1) =~= timed(ts@, text@).take(k as int).push(
                (ts@[k as int], text@),
            ));
            u = nu;
        }
        insert_line(synced, line);
        k = k + 1;
    }
    assert(timed(ts@, text@).take(k as int) =~= timed(ts@, text@));
    if text.len() > 0 {
        plain.push(string_from(text.as_slice()));
        assert(strings_view(plain@) =~= strings_view(old(plain)@).push(text@));
    }
    Ghost(u)
}

/// Analyses a raw block of lyrics.
pub fn parse(raw: &str) -> (r: Lyrics)
    ensures
        (lines_view(r.synced@), strings_view(r.plain@)) == analysed(raw@),
{
    let chars = chars_of(raw);
    let mut synced: Vec<LyricLine> = Vec::new();
    let mut plain: Vec<String> = Vec::new();
    let ghost mut unsorted: Seq<(i64, Seq<char>)> = seq![];
    let mut current: Vec<char> = Vec::new();
    let mut i: usize = 0;
    assert(lines_view(synced@) =~= sort_by_time(unsorted));
    assert(strings_view(plain@) =~= Seq::<Seq<char>>::empty());
    while i < chars.len()
        invariant
            i <= chars@.len(),
            current@ == split_rows(chars@.take(i as int)).1,
            (unsorted, strings_view(plain@)) == gather(split_rows(chars@.take(i as int)).0),
            lines_view(synced@) == sort_by_time(unsorted),
        decreases chars@.len() - i,
    {
        let c = chars[i];
        assert(chars@.take(i + 1).drop_last() =~= chars@.take(i as int));
        if c == '\n' {
            let g = gather_one(current.as_slice(), &mut synced, &mut plain, Ghost(unsorted));
            proof {
                unsorted = g@;
                let done = split_rows(chars@.take(i as int)).0;
                assert(done.push(current@).drop_last() =~= done);
            }
            current = Vec::new();
        } else {
            current.push(c);
        }
        i = i + 1;
    }
    assert(chars@.take(i as int) =~= raw@);
    let g = gather_one(current.as_slice(), &mut synced, &mut plain, Ghost(unsorted));
    proof {
        let done = split_rows(raw@).0;
        assert(done.push(current@).drop_last() =~= done);
    }
    Lyrics { synced, plain }
}

/// Whether a raw block of lyrics carries timed lines.
pub fn is_synced_text(raw: &str) -> (r: bool)
    ensures
        r == (analysed(raw@).0.len() > 0),
{
    let lyrics = parse(raw);
    proof {
        lemma_sort_sorted(gather(rows_of(raw@)).0);
    }
    lyrics.is_synced()
}

// ── Laws ───────────────────────────────────────────────────────────────────

/// The timed lines of analysed lyrics are sorted by instant, whatever order the
/// file gave them in.
pub proof fn lemma_analysed_sorted(raw: Seq<char>)
    ensures
        sorted_by_time(analysed(raw).0),
        analysed(raw).0.len() == gather(rows_of(raw)).0.len(),
{
    lemma_sort_sorted(gather(rows_of(raw)).0);
}

/// The first row of a text: up to its first line feed.
pub open spec fn first_row(s: Seq<char>) -> Seq<char> {
    match index_of(s, '\n') {
        Some(i) => s.take(i),
        None => s,
    }
}

/// Rows hold no line feed; no row is ended while the text holds no line feed,
/// and the row in progress is then the whole text.
pub proof fn lemma_split_rows_shape(s: Seq<char>)
    ensures
        forall|i: int| 0 <= i < split_rows(s).1.len() ==> split_rows(s).1[i] != '\n',
        forall|k: int, i: int|
            0 <= k < split_rows(s).0.len() && 0 <= i < split_rows(s).0[k].len() ==> split_rows(
                s,
            ).0[k][i] != '\n',
        (split_rows(s).0.len() == 0) == (forall|i: int| 0 <= i < s.len() ==> s[i] != '\n'),
        split_rows(s).0.len() == 0 ==> split_rows(s).1 == s,
    decreases s.len(),
{
    if s.len() > 0 {
        let p = s.drop_last();
        lemma_split_rows_shape(p);
        let (done, current) = split_rows(p);
        if s.last() == '\n' {
            assert(s[s.len() - 1] == '\n');
            assert forall|k: int, i: int|
                0 <= k < split_rows(s).0.len() && 0 <= i < split_rows(s).0[k].len() implies split_rows(
                s,
            ).0[k][i] != '\n' by {
                if k < done.len() {
                    assert(split_rows(s).0[k] == done[k]);
                } else {
                    assert(split_rows(s).0[k] == current);
                }
            }
        } else {
            assert forall|i: int| 0 <= i < split_rows(s).1.len() implies split_rows(s).1[i] != '\n' by {
                if i < current.len() {
                    assert(split_rows(s).1[i] == current[i]);
                }
            }
            if done.len() == 0 {
                assert(current.push(s.last()) =~= s);
            } else {
                let k = choose|k: int| 0 <= k < p.len() && !(p[k] != '\n');
                assert(s[k] == p[k]);
            }
            assert forall|i: int| 0 <= i < s.len() && done.len() == 0 implies s[i] != '\n' by {
                if i < p.len() {
                    assert(s[i] == p[i]);
                }
            }
        }
    }
}

/// The first row of `rows_of` is the text up to its first line feed.
pub proof fn lemma_first_row(s: Seq<char>)
    ensures
        rows_of(s)[0] == first_row(s),
    decreases s.len(),
{
    lemma_index_of(s, '\n');
    if s.len() > 0 {
        let p = s.drop_last();
        lemma_first_row(p);
        lemma_split_rows_shape(p);
        lemma_index_of(p, '\n');
        let (done, current) = split_rows(p);
        match index_of(p, '\n') {
            Some(i) => {
                assert(s[i] == p[i]);
                assert forall|j: int| 0 <= j < i implies s[j] != '\n' by {
                    assert(s[j] == p[j]);
                }
                lemma_index_of(s, '\n');
                if index_of(s, '\n') != Some(i) {
                    match index_of(s, '\n') {
                        Some(k) => {
                            if k < i {
                                assert(s[k] == p[k]);
                            }
                        },
                        None => {},
                    }
                }
                assert(s.take(i) =~= p.take(i));
                assert(done.len() > 0) by {
                    assert(p[i] == '\n');
                }
            },
            None => {
                assert(done.len() == 0);
                assert(current == p);
                if s.last() == '\n' {
                    match index_of(s, '\n') {
                        Some(k) => {
                            if k < p.len() {
                                assert(s[k] == p[k]);
                            }
                        },
                        None => {
                            assert(s[s.len() - 1] == '\n');
                        },
                    }
                    assert(s.take(p.len() as int) =~= p);
                } else {
                    match index_of(s, '\n') {
                        Some(k) => {
                            if k < p.len() {
                                assert(s[k] == p[k]);
                            }
                        },
                        None => {},
                    }
                    assert(current.push(s.last()) =~= s);
                }
            },
        }
    }
}

/// What a row adds to the timed lines is only ever added.
pub proof fn lemma_gather_row_grows(acc: Gathered, row: Seq<char>)
    ensures
        gather_row(acc, row).0.len() >= acc.0.len(),
{
}

/// The timed lines of a text hold at least those of its first row.
pub proof fn lemma_gather_first(rows: Seq<Seq<char>>)
    requires
        rows.len() >= 1,
    ensures
        gather(rows).0.len() >= gather_row((seq![], seq![]), rows[0]).0.len(),
    decreases rows.len(),
{
    if rows.len() == 1 {
        assert(rows.drop_last() =~= Seq::<Seq<char>>::empty());
    } else {
        let p = rows.drop_last();
        assert(p[0] == rows[0]);
        lemma_gather_first(p);
        lemma_gather_row_grows(gather(p), rows.last());
    }
}

} // verus!
