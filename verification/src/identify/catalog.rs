//! Common vocabulary of the commercial catalogues: what is looked for, and the
//! rules that compare titles and durations.
use vstd::prelude::*;

use crate::library::naming::{key_of, normalize_key_chars};
use crate::library::metadata::opt_str;
use crate::text::{chars_of, contains, contains_seq, push_all, string_from, trim, trim_chars};
use crate::unicode::{lowercase_of_str, str_lowercase};

verus! {

/// What is looked for: what the file claims to be.
#[derive(Debug, Clone, Copy)]
pub struct Query<'a> {
    pub artist: Option<&'a str>,
    pub title: &'a str,
    /// Duration of the file. `0` if unknown.
    pub duration_ms: i64,
}

/// The order key (as `f64::total_cmp` orders) of the score 0.
pub const ZERO_SCORE_KEY: u64 = 0x8000_0000_0000_0000;

/// A record proposed by a catalogue.
#[derive(Debug, Clone)]
pub struct Candidate {
    /// The service proposing it, shown as is: knowing where a proposal comes
    /// from is part of the choice.
    pub source: String,
    pub title: String,
    pub artist: Option<String>,
    pub album: Option<String>,
    pub year: Option<u32>,
    /// Duration the service announces, in milliseconds; `0` when missing.
    pub duration_ms: i64,
    pub cover_url: Option<String>,
    /// A smaller picture, for the choice.
    pub preview_url: Option<String>,
    /// An opaque reference of the service, to learn more (Deezer gives the year
    /// only with the album).
    pub album_ref: Option<String>,
    /// The score (0 to 1) the ranking gives, as its order key; that of 0 until
    /// the ranking.
    pub score_key: u64,
}

impl Candidate {
    /// A minimal record, before what the service adds.
    pub fn new(source: &str, title: String) -> (r: Candidate)
        ensures
            r.source@ == source@,
            r.title == title,
            r.artist is None,
            r.album is None,
            r.year is None,
            r.duration_ms == 0,
            r.cover_url is None,
            r.preview_url is None,
            r.album_ref is None,
            r.score_key == ZERO_SCORE_KEY,
    {
        Candidate {
            source: string_from(chars_of(source).as_slice()),
            title,
            artist: None,
            album: None,
            year: None,
            duration_ms: 0,
            cover_url: None,
            preview_url: None,
            album_ref: None,
            score_key: ZERO_SCORE_KEY,
        }
    }
}

/// What a catalogue is searched for: the trimmed artist and the title, or the
/// trimmed title alone when the artist is missing or blank.
pub open spec fn search_text(artist: Option<Seq<char>>, title: Seq<char>) -> Seq<char> {
    if artist matches Some(a) && trim(a).len() > 0 {
        trim(artist->0) + seq![' '] + title
    } else {
        trim(title)
    }
}

/// The text a catalogue is searched for (see [`search_text`]); nothing is
/// searched when it is empty.
pub fn search_term(artist: Option<&str>, title: &str) -> (r: Option<String>)
    ensures
        match r {
            Some(t) => t@ == search_text(opt_str(artist), title@) && t@.len() > 0,
            None => search_text(opt_str(artist), title@).len() == 0,
        },
{
    if let Some(a) = artist {
        let name = trim_chars(chars_of(a).as_slice());
        if name.len() > 0 {
            let mut out = name;
            out.push(' ');
            push_all(&mut out, chars_of(title).as_slice());
            return Some(string_from(out.as_slice()));
        }
    }
    let t = trim_chars(chars_of(title).as_slice());
    if t.len() == 0 {
        None
    } else {
        Some(string_from(t.as_slice()))
    }
}

/// Duration gap beyond which a record stops being credible. Thirty seconds: a
/// downloaded file often carries an intro or an outro the commercial version
/// lacks.
pub const DURATION_TOLERANCE_MS: i64 = 30_000;

/// Durations agree when either is unknown (zero) or they are at most thirty
/// seconds apart.
pub open spec fn durations_agree(candidate_ms: int, query_ms: int) -> bool {
    candidate_ms == 0 || query_ms == 0 || (-30_000 <= candidate_ms - query_ms <= 30_000)
}

/// Are the durations compatible?
pub fn duration_agrees(candidate_ms: i64, query_ms: i64) -> (r: bool)
    requires
        candidate_ms != 0 && query_ms != 0 ==> i64::MIN < candidate_ms - query_ms <= i64::MAX,
    ensures
        r == durations_agree(candidate_ms as int, query_ms as int),
{
    if candidate_ms == 0 || query_ms == 0 {
        return true;
    }
    let gap = candidate_ms - query_ms;
    let abs = if gap < 0 {
        -gap
    } else {
        gap
    };
    abs <= DURATION_TOLERANCE_MS
}

/// The production mentions whose presence makes a bracketed group noise.
pub open spec fn noise_markers() -> Seq<Seq<char>> {
    seq![
        "feat"@,
        "ft."@,
        "avec"@,
        "prod"@,
        "clip"@,
        "official"@,
        "officiel"@,
        "audio"@,
    ]
}

/// A bracketed group is noise when its lowercase form contains a production
/// mention.
pub open spec fn noisy(group: Seq<char>) -> bool {
    exists|i: int| 0 <= i < noise_markers().len() && contains_seq(str_lowercase(group), #[trigger] noise_markers()[i])
}

/// Is the content of a bracket a production mention?
pub fn is_noise(group: &str) -> (r: bool)
    ensures
        r == noisy(group@),
{
    let lowered = chars_of(lowercase_of_str(group).as_str());
    let markers: [&str; 8] = ["feat", "ft.", "avec", "prod", "clip", "official", "officiel", "audio"];
    let ghost lv = str_lowercase(group@);
    assert(markers@.len() == 8);
    let mut i: usize = 0;
    while i < 8
        invariant
            i <= 8,
            lowered@ == lv,
            lv == str_lowercase(group@),
            markers@ == seq!["feat", "ft.", "avec", "prod", "clip", "official", "officiel", "audio"],
            forall|j: int| 0 <= j < i ==> !contains_seq(lv, #[trigger] noise_markers()[j]),
        decreases 8 - i,
    {
        let m = chars_of(markers[i]);
        assert(m@ == noise_markers()[i as int]);
        if contains(lowered.as_slice(), m.as_slice()) {
            return true;
        }
        i = i + 1;
    }
    false
}

/// The state of the scan that drops noise: text kept, bracket depth, content of
/// the current group.
pub open spec fn noise_fold(s: Seq<char>) -> (Seq<char>, nat, Seq<char>)
    decreases s.len(),
{
    if s.len() == 0 {
        (seq![], 0, seq![])
    } else {
        let (out, depth, group) = noise_fold(s.drop_last());
        let c = s.last();
        if c == '(' || c == '[' {
            (out, depth + 1, seq![])
        } else if c == ')' || c == ']' {
            let d: nat = if depth > 0 { (depth - 1) as nat } else { 0 };
            if noisy(group) {
                (out, d, seq![])
            } else {
                (out + seq![' '] + group, d, seq![])
            }
        } else if depth > 0 {
            (out, depth, group.push(c))
        } else {
            (out.push(c), depth, group)
        }
    }
}

/// A title without what it carries besides itself: « (feat. X) », « [Clip
/// Officiel] », « (prod. by Y) ». A bracket without a production mention stays
/// part of the title; an unclosed bracket drops what follows it.
pub fn strip_noise(value: &str) -> (r: String)
    ensures
        r@ == noise_fold(value@).0,
{
    let s = chars_of(value);
    let mut out: Vec<char> = Vec::new();
    let mut depth: usize = 0;
    let mut group: Vec<char> = Vec::new();
    let mut i: usize = 0;
    while i < s.len()
        invariant
            i <= s@.len(),
            depth <= i,
            (out@, depth as nat, group@) == noise_fold(s@.take(i as int)),
        decreases s@.len() - i,
    {
        let c = s[i];
        assert(s@.take(i + 1).drop_last() =~= s@.take(i as int));
        if c == '(' || c == '[' {
            depth = depth + 1;
            group = Vec::new();
        } else if c == ')' || c == ']' {
            depth = if depth > 0 {
                depth - 1
            } else {
                0
            };
            let g = crate::text::string_from(group.as_slice());
            if !is_noise(g.as_str()) {
                out.push(' ');
                push_all(&mut out, group.as_slice());
            }
            group = Vec::new();
        } else if depth > 0 {
            group.push(c);
        } else {
            out.push(c);
        }
        i = i + 1;
    }
    assert(s@.take(i as int) =~= value@);
    crate::text::string_from(out.as_slice())
}

/// Each production mention, as it is spelt: a group whose lower-case form
/// contains one of them is noise.
pub proof fn lemma_noise_mentions(group: Seq<char>)
    ensures
        contains_seq(str_lowercase(group), "feat"@) ==> noisy(group),
        contains_seq(str_lowercase(group), "ft."@) ==> noisy(group),
        contains_seq(str_lowercase(group), "avec"@) ==> noisy(group),
        contains_seq(str_lowercase(group), "prod"@) ==> noisy(group),
        contains_seq(str_lowercase(group), "clip"@) ==> noisy(group),
        contains_seq(str_lowercase(group), "official"@) ==> noisy(group),
        contains_seq(str_lowercase(group), "officiel"@) ==> noisy(group),
        contains_seq(str_lowercase(group), "audio"@) ==> noisy(group),
{
    let m = noise_markers();
    assert(m[0] == "feat"@);
    assert(m[1] == "ft."@);
    assert(m[2] == "avec"@);
    assert(m[3] == "prod"@);
    assert(m[4] == "clip"@);
    assert(m[5] == "official"@);
    assert(m[6] == "officiel"@);
    assert(m[7] == "audio"@);
}

/// No bracket, opening or closing.
pub open spec fn bracket_free(s: Seq<char>) -> bool {
    forall|i: int| 0 <= i < s.len() ==> #[trigger] s[i] != '(' && s[i] != ')' && s[i] != '['
        && s[i] != ']'
}

/// Text without brackets goes through the scan untouched.
proof fn lemma_noise_fold_plain(s: Seq<char>)
    requires
        bracket_free(s),
    ensures
        noise_fold(s) == (s, 0nat, Seq::<char>::empty()),
    decreases s.len(),
{
    if s.len() > 0 {
        assert(bracket_free(s.drop_last()));
        lemma_noise_fold_plain(s.drop_last());
        assert(s.drop_last().push(s.last()) =~= s);
    }
}

/// Inside an open bracket, the characters gather in the group.
proof fn lemma_noise_fold_group(t: Seq<char>, open: char, g: Seq<char>)
    requires
        bracket_free(t),
        bracket_free(g),
        open == '(' || open == '[',
    ensures
        noise_fold(t + seq![open] + g) == (t, 1nat, g),
    decreases g.len(),
{
    if g.len() == 0 {
        lemma_noise_fold_plain(t);
        assert((t + seq![open] + g).drop_last() =~= t);
    } else {
        assert(bracket_free(g.drop_last()));
        lemma_noise_fold_group(t, open, g.drop_last());
        assert((t + seq![open] + g).drop_last() =~= t + seq![open] + g.drop_last());
        assert(g.drop_last().push(g.last()) =~= g);
    }
}

/// A bracketed group at the end of a title, in round or square brackets:
/// dropped when it is noise, kept after a space otherwise.
pub proof fn lemma_noise_fold_closing(t: Seq<char>, open: char, g: Seq<char>, close: char)
    requires
        bracket_free(t),
        bracket_free(g),
        open == '(' || open == '[',
        close == ')' || close == ']',
    ensures
        noise_fold(t + seq![open] + g + seq![close]).0 == if noisy(g) {
            t
        } else {
            t + seq![' '] + g
        },
{
    lemma_noise_fold_group(t, open, g);
    assert((t + seq![open] + g + seq![close]).drop_last() =~= t + seq![open] + g);
}

/// A production credit after a title, « Macarena (prod. Kezah) », is dropped:
/// what is left is the title and the space before the bracket, so the labels
/// with and without it score alike against any other.
pub proof fn lemma_production_credit_dropped(t: Seq<char>, g: Seq<char>, other: Seq<char>)
    requires
        bracket_free(t),
        bracket_free(g),
        contains_seq(str_lowercase(g), "prod"@),
    ensures
        noise_fold(t + seq![' ', '('] + g + seq![')']).0 == t + seq![' '],
        likeness(t + seq![' ', '('] + g + seq![')'], other) == likeness(t + seq![' '], other),
        likeness(other, t + seq![' ', '('] + g + seq![')']) == likeness(other, t + seq![' ']),
{
    lemma_noise_mentions(g);
    let t1 = t + seq![' '];
    assert(bracket_free(t1));
    lemma_noise_fold_closing(t1, '(', g, ')');
    assert(t + seq![' ', '('] + g + seq![')'] =~= t1 + seq!['('] + g + seq![')']);
    lemma_noise_fold_plain(t1);
}

/// The words of a text, cut at each space as `str::split(' ')` cuts: two
/// spaces in a row give an empty word, and an empty text one empty word.
pub open spec fn words(s: Seq<char>) -> Seq<Seq<char>>
    decreases s.len(),
{
    if s.len() == 0 {
        seq![seq![]]
    } else {
        let w = words(s.drop_last());
        if s.last() == ' ' {
            w.push(seq![])
        } else {
            w.update(w.len() - 1, w.last().push(s.last()))
        }
    }
}

/// The first position of a word in a list.
pub open spec fn position_of(list: Seq<Seq<char>>, w: Seq<char>) -> Option<int>
    decreases list.len(),
{
    if list.len() == 0 {
        None
    } else if list[0] == w {
        Some(0)
    } else {
        match position_of(list.drop_first(), w) {
            Some(k) => Some(k + 1),
            None => None,
        }
    }
}

/// A position found is in the list and holds the word.
proof fn lemma_position_of(list: Seq<Seq<char>>, w: Seq<char>)
    ensures
        position_of(list, w) matches Some(k) ==> 0 <= k < list.len() && list[k] == w,
        position_of(list, w) is None ==> forall|j: int| 0 <= j < list.len() ==> list[j] != w,
    decreases list.len(),
{
    if list.len() > 0 && list[0] != w {
        lemma_position_of(list.drop_first(), w);
        if position_of(list, w) is None {
            assert forall|j: int| 0 <= j < list.len() implies list[j] != w by {
                if j > 0 {
                    assert(list[j] == list.drop_first()[j - 1]);
                }
            }
        }
    }
}

/// The words two lists share, each word of the second used once: the left
/// words in order, each taking the first equal word still free on the right.
pub open spec fn shared(left: Seq<Seq<char>>, right: Seq<Seq<char>>) -> nat
    decreases left.len(),
{
    if left.len() == 0 {
        0
    } else {
        match position_of(right, left[0]) {
            Some(k) => 1 + shared(left.drop_first(), right.remove(k)),
            None => shared(left.drop_first(), right),
        }
    }
}

/// A similarity written as a fraction, `numerator / denominator`, so that it
/// is computed exactly; the caller divides.
#[derive(Debug, Clone, Copy, PartialEq, Eq, Structural)]
pub struct Ratio {
    pub numerator: u128,
    pub denominator: u128,
}

/// The likeness of two labels: a Dice coefficient on their words, once
/// normalized and rid of production mentions — 0 when either is empty, 1 when
/// they are equal, else twice the shared words over the total of words. Not an
/// edit distance: « De la lune » and « De la lune (feat. Shadi) » must meet,
/// while « Drapeau noir » and « L'insolence des élus » have nothing in common.
pub open spec fn likeness(left: Seq<char>, right: Seq<char>) -> (nat, nat) {
    let l = key_of(noise_fold(left).0);
    let r = key_of(noise_fold(right).0);
    if l.len() == 0 || r.len() == 0 {
        (0, 1)
    } else if l == r {
        (1, 1)
    } else {
        (2 * shared(words(l), words(r)), words(l).len() + words(r).len())
    }
}

/// The words of a text.
fn split_words(s: &[char]) -> (r: Vec<Vec<char>>)
    ensures
        r@.map_values(|w: Vec<char>| w@) == words(s@),
{
    let mut out: Vec<Vec<char>> = Vec::new();
    let mut current: Vec<char> = Vec::new();
    let mut i: usize = 0;
    while i < s.len()
        invariant
            i <= s@.len(),
            out@.map_values(|w: Vec<char>| w@).push(current@) == words(s@.take(i as int)),
        decreases s@.len() - i,
    {
        let ghost before = out@.map_values(|w: Vec<char>| w@);
        assert(s@.take(i + 1).drop_last() =~= s@.take(i as int));
        if s[i] == ' ' {
            let done = current;
            out.push(done);
            current = Vec::new();
            assert(out@.map_values(|w: Vec<char>| w@) =~= before.push(done@));
        } else {
            current.push(s[i]);
        }
        assert(out@.map_values(|w: Vec<char>| w@).push(current@) =~= words(s@.take(i + 1)));
        i = i + 1;
    }
    let ghost before = out@.map_values(|w: Vec<char>| w@);
    let last = current;
    out.push(last);
    assert(out@.map_values(|w: Vec<char>| w@) =~= before.push(last@));
    assert(s@.take(i as int) =~= s@);
    out
}

/// The first position of a word in a list.
fn find_word(list: &Vec<Vec<char>>, w: &Vec<char>) -> (r: Option<usize>)
    ensures
        match r {
            Some(k) => position_of(list@.map_values(|x: Vec<char>| x@), w@) == Some(k as int),
            None => position_of(list@.map_values(|x: Vec<char>| x@), w@) is None,
        },
{
    let ghost views = list@.map_values(|x: Vec<char>| x@);
    let mut i: usize = 0;
    assert(views.skip(0) =~= views);
    while i < list.len()
        invariant
            i <= list@.len(),
            views == list@.map_values(|x: Vec<char>| x@),
            forall|j: int| 0 <= j < i ==> views[j] != w@,
            position_of(views, w@) == match position_of(views.skip(i as int), w@) {
                Some(k) => Some(k + i),
                None => None,
            },
        decreases list@.len() - i,
    {
        assert(views.skip(i as int)[0] == views[i as int]);
        assert(views.skip(i as int).drop_first() =~= views.skip(i + 1));
        if crate::text::chars_eq(list[i].as_slice(), w.as_slice()) {
            return Some(i);
        }
        i = i + 1;
    }
    None
}

/// How many words two lists share.
fn count_shared(left: &Vec<Vec<char>>, right: Vec<Vec<char>>) -> (r: usize)
    ensures
        r == shared(left@.map_values(|x: Vec<char>| x@), right@.map_values(|x: Vec<char>| x@)),
{
    let ghost lv = left@.map_values(|x: Vec<char>| x@);
    let ghost rv0 = right@.map_values(|x: Vec<char>| x@);
    let mut rest = right;
    let mut count: usize = 0;
    let mut i: usize = 0;
    assert(lv.skip(0) =~= lv);
    while i < left.len()
        invariant
            i <= left@.len(),
            lv == left@.map_values(|x: Vec<char>| x@),
            count <= i,
            count + shared(lv.skip(i as int), rest@.map_values(|x: Vec<char>| x@)) == shared(lv, rv0),
        decreases left@.len() - i,
    {
        let ghost rv = rest@.map_values(|x: Vec<char>| x@);
        assert(lv.skip(i as int)[0] == lv[i as int]);
        assert(lv.skip(i as int).drop_first() =~= lv.skip(i + 1));
        match find_word(&rest, &left[i]) {
            Some(k) => {
                proof {
                    lemma_position_of(rv, lv[i as int]);
                }
                rest.remove(k);
                assert(rest@.map_values(|x: Vec<char>| x@) =~= rv.remove(k as int));
                count = count + 1;
            },
            None => {},
        }
        i = i + 1;
    }
    count
}

/// The likeness of two labels, as an exact fraction.
pub fn similarity(left: &str, right: &str) -> (r: Ratio)
    ensures
        (r.numerator as nat, r.denominator as nat) == likeness(left@, right@),
{
    let l = normalize_key_chars(chars_of(strip_noise(left).as_str()).as_slice());
    let r = normalize_key_chars(chars_of(strip_noise(right).as_str()).as_slice());
    if l.len() == 0 || r.len() == 0 {
        return Ratio { numerator: 0, denominator: 1 };
    }
    if crate::text::chars_eq(l.as_slice(), r.as_slice()) {
        return Ratio { numerator: 1, denominator: 1 };
    }
    let lw = split_words(l.as_slice());
    let rw = split_words(r.as_slice());
    let n_left = lw.len();
    let n_right = rw.len();
    let common = count_shared(&lw, rw);
    Ratio { numerator: 2 * (common as u128), denominator: n_left as u128 + n_right as u128 }
}

} // verus!
