//! Audio metadata: what the library keeps of a file's tags, and how it fills
//! the gaps.
//!
//! The aim is to **never have to type metadata by hand**: tags first, then the
//! hints of an external downloader, and the file name when the tags are empty.
//! Reading the tags themselves belongs to the application.
use vstd::prelude::*;

use crate::library::naming::utf8_len;
use crate::library::naming::utf8_width;
use crate::library::naming::width_of;
use crate::text::chars_of;
use crate::text::occurs_at;
use crate::text::slice_chars;
use crate::text::string_from;
use crate::text::trim;
use crate::text::trim_chars;
use crate::text::trim_start;
use crate::text::trim_start_chars;
use crate::unicode::lowercase_of_str;
use crate::unicode::str_lowercase;

verus! {

// ── Audio files ────────────────────────────────────────────────────────────

/// The stem and the extension of a file name, as `Path::file_stem` and
/// `Path::extension` split it: at the last dot, unless the name is `..`, has
/// no dot, or only a leading one.
pub open spec fn name_parts(name: Seq<char>) -> (Seq<char>, Option<Seq<char>>) {
    if name == seq!['.', '.'] {
        (name, None)
    } else {
        match last_dot(name) {
            None => (name, None),
            Some(i) => if i == 0 {
                (name, None)
            } else {
                (name.take(i), Some(name.skip(i + 1)))
            },
        }
    }
}

/// Index of the last dot of a name.
pub open spec fn last_dot(s: Seq<char>) -> Option<int>
    decreases s.len(),
{
    if s.len() == 0 {
        None
    } else if s.last() == '.' {
        Some(s.len() - 1)
    } else {
        last_dot(s.drop_last())
    }
}

/// ASCII case folding of one character.
pub open spec fn ascii_lower(c: char) -> char {
    if 'A' <= c && c <= 'Z' {
        ((c as u32) + 32) as char
    } else {
        c
    }
}

/// The extensions recognised as audio, in lower case.
pub open spec fn audio_extension(e: Seq<char>) -> bool {
    e == "mp3"@ || e == "flac"@ || e == "m4a"@ || e == "aac"@ || e == "ogg"@ || e == "opus"@
        || e == "wav"@ || e == "aiff"@ || e == "wv"@
}

/// Whether a file name carries an audio extension, in any ASCII case.
pub open spec fn supported_audio(name: Seq<char>) -> bool {
    match name_parts(name).1 {
        Some(e) => audio_extension(e.map_values(|c: char| ascii_lower(c))),
        None => false,
    }
}

/// Index of the last dot of a name.
pub(crate) fn find_last_dot(s: &[char]) -> (r: Option<usize>)
    ensures
        match r {
            Some(i) => last_dot(s@) == Some(i as int),
            None => last_dot(s@) is None,
        },
{
    let mut k = s.len();
    assert(s@.take(k as int) =~= s@);
    while k > 0
        invariant
            k <= s@.len(),
            last_dot(s@) == last_dot(s@.take(k as int)),
        decreases k,
    {
        assert(s@.take(k as int).drop_last() =~= s@.take(k - 1));
        if s[k - 1] == '.' {
            return Some(k - 1);
        }
        k = k - 1;
    }
    None
}

/// The stem and the extension of a file name.
fn split_name_parts(name: &[char]) -> (r: (Vec<char>, Option<Vec<char>>))
    ensures
        r.0@ == name_parts(name@).0,
        match r.1 {
            Some(e) => name_parts(name@).1 == Some(e@),
            None => name_parts(name@).1 is None,
        },
{
    if name.len() == 2 && name[0] == '.' && name[1] == '.' {
        assert(name@ =~= seq!['.', '.']);
        return (slice_chars(name, 0, 2), None);
    }
    assert(name@ != seq!['.', '.']) by {
        if name@ == seq!['.', '.'] {
            assert(name@.len() == 2 && name@[0] == '.' && name@[1] == '.');
        }
    }
    match find_last_dot(name) {
        None => {
            assert(name@.take(name@.len() as int) =~= name@);
            (slice_chars(name, 0, name.len()), None)
        },
        Some(i) => if i == 0 {
            (slice_chars(name, 0, name.len()), None)
        } else {
            proof {
                lemma_last_dot_in(name@);
            }
            (slice_chars(name, 0, i), Some(slice_chars(name, i + 1, name.len())))
        },
    }
}

/// The last dot is a position of the name.
pub proof fn lemma_last_dot_in(s: Seq<char>)
    ensures
        last_dot(s) matches Some(i) ==> 0 <= i < s.len(),
    decreases s.len(),
{
    if s.len() > 0 && s.last() != '.' {
        lemma_last_dot_in(s.drop_last());
    }
}

/// Whether a file name carries an audio extension, in any case (« a.FLAC »).
pub fn is_supported_audio(file_name: &str) -> (r: bool)
    ensures
        r == supported_audio(file_name@),
{
    let name = chars_of(file_name);
    let (_, extension) = split_name_parts(name.as_slice());
    match extension {
        None => false,
        Some(e) => {
            let mut lowered: Vec<char> = Vec::new();
            let mut i: usize = 0;
            while i < e.len()
                invariant
                    i <= e@.len(),
                    lowered@ == e@.take(i as int).map_values(|c: char| ascii_lower(c)),
                decreases e@.len() - i,
            {
                let c = e[i];
                let l = if 'A' <= c && c <= 'Z' {
                    ((c as u32) + 32) as u8 as char
                } else {
                    c
                };
                lowered.push(l);
                i = i + 1;
                assert(lowered@ =~= e@.take(i as int).map_values(|c: char| ascii_lower(c)));
            }
            assert(e@.take(i as int) =~= e@);
            let l = lowered.as_slice();
            is_one_of(l, "mp3") || is_one_of(l, "flac") || is_one_of(l, "m4a") || is_one_of(l, "aac")
                || is_one_of(l, "ogg") || is_one_of(l, "opus") || is_one_of(l, "wav") || is_one_of(
                l,
                "aiff",
            ) || is_one_of(l, "wv")
        },
    }
}

/// Whether `s` is exactly `text`.
fn is_one_of(s: &[char], text: &str) -> (r: bool)
    ensures
        r == (s@ == text@),
{
    let t = chars_of(text);
    crate::text::chars_eq(s, t.as_slice())
}

// ── Metadata ───────────────────────────────────────────────────────────────

/// Cover extracted from an audio file.
#[derive(Debug, Clone)]
pub struct Artwork {
    pub data: Vec<u8>,
    pub mime_type: Option<String>,
}

#[derive(Debug, Clone)]
pub struct TrackMetadata {
    pub title: String,
    /// Main artists, featurings excluded.
    pub artists: Vec<String>,
    /// Guests, taken from a « feat. » mention of the artist tag.
    pub featured_artists: Vec<String>,
    /// The album's artist, when given. It is the one used for filing.
    pub album_artist: Option<String>,
    pub album: Option<String>,
    pub track_no: Option<u32>,
    pub disc_no: Option<u32>,
    pub year: Option<u32>,
    pub genres: Vec<String>,
    pub duration_ms: i64,
    pub bitrate: Option<u32>,
    pub sample_rate: Option<u32>,
    pub channels: Option<u8>,
    pub format: String,
    pub artwork: Option<Artwork>,
    /// Raw lyrics as the file holds them, plain text or timed LRC alike.
    pub lyrics: Option<String>,
    /// True when the tags were missing or empty and the file name served as
    /// source, so that the interface can point these tracks out.
    pub from_filename: bool,
}

impl TrackMetadata {
    /// Artist to file the track under: the album artist first — otherwise an
    /// album with guests would scatter its tracks over as many folders as there
    /// are collaborations.
    pub fn filing_artist(&self) -> (r: Option<&str>)
        ensures
            match self.album_artist {
                Some(a) => r matches Some(x) && x@ == a@,
                None => if self.artists@.len() > 0 {
                    r matches Some(x) && x@ == self.artists@[0]@
                } else {
                    r is None
                },
            },
    {
        match &self.album_artist {
            Some(a) => Some(a.as_str()),
            None => if self.artists.len() > 0 {
                Some(self.artists[0].as_str())
            } else {
                None
            },
        }
    }
}

// ── Featurings ─────────────────────────────────────────────────────────────

/// The featuring mentions, in the order they are tried.
pub open spec fn featuring_marker(i: int) -> Seq<char> {
    if i == 0 {
        " feat. "@
    } else if i == 1 {
        " feat "@
    } else if i == 2 {
        " ft. "@
    } else if i == 3 {
        " ft "@
    } else if i == 4 {
        " featuring "@
    } else if i == 5 {
        " avec "@
    } else {
        " w/ "@
    }
}

/// The first position of `needle` in `hay` at or after `from`.
pub open spec fn first_at(hay: Seq<char>, needle: Seq<char>, from: int) -> Option<int>
    decreases hay.len() + 1 - from,
{
    if from < 0 || from > hay.len() {
        None
    } else if occurs_at(hay, needle, from) {
        Some(from)
    } else {
        first_at(hay, needle, from + 1)
    }
}

/// The character index where the first `p` bytes of `s` end, when that is a
/// character boundary.
pub open spec fn byte_index(s: Seq<char>, p: int) -> Option<int>
    decreases s.len(),
{
    if p == 0 {
        Some(0)
    } else if s.len() == 0 || p < utf8_width(s[0]) {
        None
    } else {
        match byte_index(s.drop_first(), p - utf8_width(s[0])) {
            Some(j) => Some(j + 1),
            None => None,
        }
    }
}

/// Guest names already ended by a `,` or a `&`, and the one in progress.
pub open spec fn guest_split(s: Seq<char>) -> (Seq<Seq<char>>, Seq<char>)
    decreases s.len(),
{
    if s.len() == 0 {
        (seq![], seq![])
    } else {
        let (done, current) = guest_split(s.drop_last());
        if s.last() == ',' || s.last() == '&' {
            (
                if trim(current).len() > 0 {
                    done.push(trim(current))
                } else {
                    done
                },
                seq![],
            )
        } else {
            (done, current.push(s.last()))
        }
    }
}

/// The guests of a mention: the pieces between `,` and `&`, trimmed, blank
/// ones dropped.
pub open spec fn guest_names(s: Seq<char>) -> Seq<Seq<char>> {
    let (done, current) = guest_split(s);
    if trim(current).len() > 0 {
        done.push(trim(current))
    } else {
        done
    }
}

/// What a featuring mention gives.
pub enum Cut {
    /// The mention does not occur.
    Absent,
    /// It occurs, at byte offsets that are no character boundary of the raw
    /// text (the lower-case form shifted them): the text cannot be cut there.
    Broken,
    /// It occurs at the very start: nothing precedes it.
    NothingBefore,
    /// Main artist and the text of the guests.
    Found(Seq<char>, Seq<char>),
}

/// Looks for mention `i`. The mention is searched for in the lower-case form,
/// and the byte offsets found there are applied to the raw text.
pub open spec fn cut_at(raw: Seq<char>, i: int) -> Cut {
    let lowered = str_lowercase(raw);
    let m = featuring_marker(i);
    match first_at(lowered, m, 0) {
        None => Cut::Absent,
        Some(k) => {
            let p = utf8_len(lowered.take(k)) as int;
            let q = p + utf8_len(m);
            match (byte_index(raw, p), byte_index(raw, q)) {
                (Some(a), Some(b)) => if trim(raw.take(a)).len() > 0 {
                    Cut::Found(trim(raw.take(a)), raw.skip(b))
                } else {
                    Cut::NothingBefore
                },
                _ => Cut::Broken,
            }
        },
    }
}

/// Main artists and guests, trying the mentions from `i` on; `None` when a
/// mention cannot be cut.
pub open spec fn featuring_from(raw: Seq<char>, i: nat) -> Option<
    (Seq<Seq<char>>, Seq<Seq<char>>),
>
    decreases 7 - i,
{
    if i >= 7 {
        Some((seq![trim(raw)], seq![]))
    } else {
        match cut_at(raw, i as int) {
            Cut::Found(main, guests) => Some((seq![main], guest_names(guests))),
            Cut::Broken => None,
            _ => featuring_from(raw, (i + 1) as nat),
        }
    }
}

/// Main artists and guests of an artist tag.
///
/// Deliberately conservative: **only** explicit featuring mentions cut. Neither
/// `&` nor the comma do, which would break up real band names such as « Earth,
/// Wind & Fire » or « Simon & Garfunkel ».
pub open spec fn featuring(raw: Seq<char>) -> Option<(Seq<Seq<char>>, Seq<Seq<char>>)> {
    featuring_from(raw, 0)
}

/// Strings as character sequences.
pub open spec fn views(v: Seq<String>) -> Seq<Seq<char>> {
    v.map_values(|s: String| s@)
}

/// The first position of `needle` in `hay`.
fn find_first(hay: &[char], needle: &[char]) -> (r: Option<usize>)
    ensures
        match r {
            Some(i) => first_at(hay@, needle@, 0) == Some(i as int),
            None => first_at(hay@, needle@, 0) is None,
        },
{
    let mut i: usize = 0;
    while i <= hay.len()
        invariant
            first_at(hay@, needle@, 0) == first_at(hay@, needle@, i as int),
        decreases hay@.len() + 1 - i,
    {
        if crate::text::matches_at(hay, needle, i) {
            return Some(i);
        }
        if i == hay.len() {
            assert(first_at(hay@, needle@, i + 1) is None);
            return None;
        }
        i = i + 1;
    }
    None
}

/// Number of bytes of the UTF-8 encoding of the first `k` characters.
fn bytes_before(s: &[char], k: usize) -> (r: u128)
    requires
        k <= s@.len(),
    ensures
        r == utf8_len(s@.take(k as int)),
        r <= 4 * k,
{
    let mut total: u128 = 0;
    let mut i: usize = 0;
    while i < k
        invariant
            i <= k <= s@.len(),
            total == utf8_len(s@.take(i as int)),
            total <= 4 * i,
        decreases k - i,
    {
        proof {
            crate::library::naming::lemma_utf8_len_push(s@.take(i as int), s@[i as int]);
            assert(s@.take(i + 1) =~= s@.take(i as int).push(s@[i as int]));
        }
        total = total + width_of(s[i]) as u128;
        i = i + 1;
    }
    total
}

/// The character index where the first `p` bytes of `s` end, if it is a
/// character boundary.
fn index_at_byte(s: &[char], p: u128) -> (r: Option<usize>)
    ensures
        match r {
            Some(j) => byte_index(s@, p as int) == Some(j as int),
            None => byte_index(s@, p as int) is None,
        },
{
    let mut i: usize = 0;
    let mut rest: u128 = p;
    assert(s@.skip(0) =~= s@);
    while i < s.len()
        invariant
            i <= s@.len(),
            rest <= p,
            byte_index(s@, p as int) == match byte_index(s@.skip(i as int), rest as int) {
                Some(j) => Some(j + i),
                None => None,
            },
        decreases s@.len() - i,
    {
        assert(s@.skip(i as int).drop_first() =~= s@.skip(i + 1));
        assert(s@.skip(i as int)[0] == s@[i as int]);
        if rest == 0 {
            return Some(i);
        }
        let w = width_of(s[i]) as u128;
        if rest < w {
            return None;
        }
        rest = rest - w;
        i = i + 1;
    }
    if rest == 0 {
        Some(i)
    } else {
        None
    }
}

/// Guests of a mention: the pieces between `,` and `&`, trimmed.
fn guest_list(s: &[char]) -> (r: Vec<String>)
    ensures
        views(r@) == guest_names(s@),
{
    let mut done: Vec<String> = Vec::new();
    let mut current: Vec<char> = Vec::new();
    let mut i: usize = 0;
    assert(views(done@) =~= Seq::<Seq<char>>::empty());
    while i < s.len()
        invariant
            i <= s@.len(),
            current@ == guest_split(s@.take(i as int)).1,
            views(done@) == guest_split(s@.take(i as int)).0,
        decreases s@.len() - i,
    {
        let c = s[i];
        assert(s@.take(i + 1).drop_last() =~= s@.take(i as int));
        if c == ',' || c == '&' {
            let t = trim_chars(current.as_slice());
            if t.len() > 0 {
                let ghost before = views(done@);
                done.push(string_from(t.as_slice()));
                assert(views(done@) =~= before.push(t@));
            }
            current = Vec::new();
        } else {
            current.push(c);
        }
        i = i + 1;
    }
    assert(s@.take(i as int) =~= s@);
    let t = trim_chars(current.as_slice());
    if t.len() > 0 {
        let ghost before = views(done@);
        done.push(string_from(t.as_slice()));
        assert(views(done@) =~= before.push(t@));
    }
    done
}

/// The featuring mention number `i`.
fn marker_text(i: usize) -> (r: &'static str)
    requires
        i < 7,
    ensures
        r@ == featuring_marker(i as int),
{
    if i == 0 {
        " feat. "
    } else if i == 1 {
        " feat "
    } else if i == 2 {
        " ft. "
    } else if i == 3 {
        " ft "
    } else if i == 4 {
        " featuring "
    } else if i == 5 {
        " avec "
    } else {
        " w/ "
    }
}

/// Separates the guests from the main artist of an artist tag.
///
/// The mention is looked for in the lower-case form and the raw text is cut at
/// the same byte offsets; `requires` leaves out the texts where the lower-case
/// form shifted those offsets off a character boundary.
pub fn split_featuring(raw: &str) -> (r: (Vec<String>, Vec<String>))
    requires
        featuring(raw@) is Some,
    ensures
        featuring(raw@) == Some((views(r.0@), views(r.1@))),
{
    let raw_chars = chars_of(raw);
    let lowered_text = lowercase_of_str(raw);
    let lowered = chars_of(lowered_text.as_str());
    let mut i: usize = 0;
    while i < 7
        invariant
            i <= 7,
            raw_chars@ == raw@,
            lowered@ == str_lowercase(raw@),
            featuring(raw@) == featuring_from(raw@, i as nat),
            featuring(raw@) is Some,
        decreases 7 - i,
    {
        let marker = chars_of(marker_text(i));
        if let Some(k) = find_first(lowered.as_slice(), marker.as_slice()) {
            proof {
                lemma_first_at_in(lowered@, marker@, 0);
            }
            let p = bytes_before(lowered.as_slice(), k);
            let q = p + bytes_before(marker.as_slice(), marker.len());
            assert(marker@.take(marker@.len() as int) =~= marker@);
            let a = index_at_byte(raw_chars.as_slice(), p);
            let b = index_at_byte(raw_chars.as_slice(), q);
            match (a, b) {
                (Some(a), Some(b)) => {
                    proof {
                        lemma_byte_index_in(raw@, p as int);
                        lemma_byte_index_in(raw@, q as int);
                    }
                    let head = slice_chars(raw_chars.as_slice(), 0, a);
                    let main = trim_chars(head.as_slice());
                    let guests = slice_chars(raw_chars.as_slice(), b, raw_chars.len());
                    let featured = guest_list(guests.as_slice());
                    if main.len() > 0 {
                        let mut mains: Vec<String> = Vec::new();
                        mains.push(string_from(main.as_slice()));
                        assert(views(mains@) =~= seq![main@]);
                        assert(raw@.take(a as int) =~= head@);
                        assert(raw@.skip(b as int) =~= guests@);
                        return (mains, featured);
                    }
                    assert(raw@.take(a as int) =~= head@);
                },
                _ => {
                    assert(false);
                },
            }
        }
        i = i + 1;
    }
    let mut mains: Vec<String> = Vec::new();
    let t = trim_chars(raw_chars.as_slice());
    mains.push(string_from(t.as_slice()));
    assert(views(mains@) =~= seq![trim(raw@)]);
    let none: Vec<String> = Vec::new();
    assert(views(none@) =~= Seq::<Seq<char>>::empty());
    (mains, none)
}

/// Splits an artist tag when it can be cut: `None` on the texts that
/// `split_featuring` leaves out.
pub fn split_artist(raw: &str) -> (r: Option<(Vec<String>, Vec<String>)>)
    ensures
        match r {
            Some(parts) => featuring(raw@) == Some((views(parts.0@), views(parts.1@))),
            None => featuring(raw@) is None,
        },
{
    if can_split(raw) {
        Some(split_featuring(raw))
    } else {
        None
    }
}

/// Whether every featuring mention tried before the split falls on character
/// boundaries of the raw text.
fn can_split(raw: &str) -> (r: bool)
    ensures
        r == featuring(raw@) is Some,
{
    let raw_chars = chars_of(raw);
    let lowered_text = lowercase_of_str(raw);
    let lowered = chars_of(lowered_text.as_str());
    let mut i: usize = 0;
    while i < 7
        invariant
            i <= 7,
            raw_chars@ == raw@,
            lowered@ == str_lowercase(raw@),
            featuring(raw@) == featuring_from(raw@, i as nat),
        decreases 7 - i,
    {
        let marker = chars_of(marker_text(i));
        if let Some(k) = find_first(lowered.as_slice(), marker.as_slice()) {
            proof {
                lemma_first_at_in(lowered@, marker@, 0);
            }
            let p = bytes_before(lowered.as_slice(), k);
            let q = p + bytes_before(marker.as_slice(), marker.len());
            assert(marker@.take(marker@.len() as int) =~= marker@);
            let a = index_at_byte(raw_chars.as_slice(), p);
            let b = index_at_byte(raw_chars.as_slice(), q);
            match (a, b) {
                (Some(a), Some(_)) => {
                    proof {
                        lemma_byte_index_in(raw@, p as int);
                    }
                    let head = slice_chars(raw_chars.as_slice(), 0, a);
                    let main = trim_chars(head.as_slice());
                    assert(raw@.take(a as int) =~= head@);
                    if main.len() > 0 {
                        return true;
                    }
                },
                _ => {
                    return false;
                },
            }
        }
        i = i + 1;
    }
    true
}

/// A first occurrence is a position of the text.
proof fn lemma_first_at_in(hay: Seq<char>, needle: Seq<char>, from: int)
    ensures
        first_at(hay, needle, from) matches Some(k) ==> from <= k <= hay.len() && occurs_at(
            hay,
            needle,
            k,
        ),
    decreases hay.len() + 1 - from,
{
    if !(from < 0 || from > hay.len()) && !occurs_at(hay, needle, from) {
        lemma_first_at_in(hay, needle, from + 1);
    }
}

/// A byte boundary is a character index of the text.
proof fn lemma_byte_index_in(s: Seq<char>, p: int)
    ensures
        byte_index(s, p) matches Some(j) ==> 0 <= j <= s.len(),
    decreases s.len(),
{
    if p != 0 && s.len() > 0 && p >= utf8_width(s[0]) {
        lemma_byte_index_in(s.drop_first(), p - utf8_width(s[0]));
    }
}

// ── Hints ──────────────────────────────────────────────────────────────────

/// A value worth using: present and not blank, trimmed.
pub open spec fn filled(value: Option<String>) -> Option<Seq<char>> {
    match value {
        Some(v) => if trim(v@).len() > 0 {
            Some(trim(v@))
        } else {
            None
        },
        None => None,
    }
}

/// An optional string as an optional character sequence.
pub open spec fn opt_view(value: Option<String>) -> Option<Seq<char>> {
    match value {
        Some(v) => Some(v@),
        None => None,
    }
}

/// The trimmed content of an optional value, when not blank.
fn non_empty(value: &Option<String>) -> (r: Option<String>)
    ensures
        opt_view(r) == filled(*value),
{
    match value {
        Some(v) => {
            let t = trim_chars(chars_of(v.as_str()).as_slice());
            if t.len() > 0 {
                Some(string_from(t.as_slice()))
            } else {
                None
            }
        },
        None => None,
    }
}

/// Metadata given by an external script at an automatic import: a downloader
/// often knows title and artist from the source page while the file it
/// produced has no usable tag.
#[derive(Debug, Clone, Default)]
pub struct MetadataHint {
    pub title: Option<String>,
    pub artist: Option<String>,
    pub album: Option<String>,
    pub album_artist: Option<String>,
    pub year: Option<u32>,
    pub track_no: Option<u32>,
    pub disc_no: Option<u32>,
    pub genre: Option<String>,
}

/// The audio properties, the cover and the lyrics are the same.
pub open spec fn same_sound(a: TrackMetadata, b: TrackMetadata) -> bool {
    &&& a.duration_ms == b.duration_ms
    &&& a.bitrate == b.bitrate
    &&& a.sample_rate == b.sample_rate
    &&& a.channels == b.channels
    &&& a.format == b.format
    &&& a.artwork == b.artwork
    &&& a.lyrics == b.lyrics
}

/// The fields that the hints do not touch are kept.
pub open spec fn same_audio(a: TrackMetadata, b: TrackMetadata) -> bool {
    same_sound(a, b) && a.from_filename == b.from_filename
}

/// Whether the artist hint will be used on these metadata.
pub open spec fn artist_hint_used(hint: MetadataHint, m: TrackMetadata) -> bool {
    filled(hint.artist) is Some && (m.from_filename || m.artists@.len() == 0)
}

/// The arbitration between hints and metadata read from the file.
///
/// A real tag present in the file always wins over a hint; but when the
/// metadata were **guessed from the file name**, the hints win: the script
/// knows the source, the file name is only a guess. Genre and the numbers
/// only fill gaps.
pub open spec fn hint_applied(hint: MetadataHint, old: TrackMetadata, new: TrackMetadata) -> bool {
    let guessed = old.from_filename;
    &&& same_audio(old, new)
    &&& match filled(hint.title) {
        Some(t) => if guessed || old.title@.len() == 0 {
            new.title@ == t
        } else {
            new.title == old.title
        },
        None => new.title == old.title,
    }
    &&& if artist_hint_used(hint, old) {
        featuring(filled(hint.artist)->0) == Some((views(new.artists@), views(new.featured_artists@)))
    } else {
        new.artists == old.artists && new.featured_artists == old.featured_artists
    }
    &&& match filled(hint.album) {
        Some(a) => if guessed || old.album is None {
            opt_view(new.album) == Some(a)
        } else {
            new.album == old.album
        },
        None => new.album == old.album,
    }
    &&& match filled(hint.album_artist) {
        Some(a) => if guessed || old.album_artist is None {
            opt_view(new.album_artist) == Some(a)
        } else {
            new.album_artist == old.album_artist
        },
        None => new.album_artist == old.album_artist,
    }
    &&& match filled(hint.genre) {
        Some(g) => if old.genres@.len() == 0 {
            views(new.genres@) == seq![g]
        } else {
            new.genres == old.genres
        },
        None => new.genres == old.genres,
    }
    &&& new.year == (if old.year is Some {
        old.year
    } else {
        hint.year
    })
    &&& new.track_no == (if old.track_no is Some {
        old.track_no
    } else {
        hint.track_no
    })
    &&& new.disc_no == (if old.disc_no is Some {
        old.disc_no
    } else {
        hint.disc_no
    })
}

impl MetadataHint {
    /// Applies the hints to the metadata read from the file.
    pub fn apply(&self, metadata: &mut TrackMetadata)
        requires
            artist_hint_used(*self, *old(metadata)) ==> featuring(filled(self.artist)->0) is Some,
        ensures
            hint_applied(*self, *old(metadata), *final(metadata)),
    {
        let guessed = metadata.from_filename;
        if let Some(title) = non_empty(&self.title) {
            if guessed || chars_of(metadata.title.as_str()).len() == 0 {
                metadata.title = title;
            }
        }
        if let Some(artist) = non_empty(&self.artist) {
            if guessed || metadata.artists.len() == 0 {
                let (main, featured) = split_featuring(artist.as_str());
                metadata.artists = main;
                metadata.featured_artists = featured;
            }
        }
        if let Some(album) = non_empty(&self.album) {
            if guessed || metadata.album.is_none() {
                metadata.album = Some(album);
            }
        }
        if let Some(album_artist) = non_empty(&self.album_artist) {
            if guessed || metadata.album_artist.is_none() {
                metadata.album_artist = Some(album_artist);
            }
        }
        if let Some(genre) = non_empty(&self.genre) {
            if metadata.genres.len() == 0 {
                metadata.genres.push(genre);
                assert(views(metadata.genres@) =~= seq![genre@]);
            }
        }
        // The numbers only fill gaps: a year taken from a tag is more reliable
        // than one guessed from a web page.
        if metadata.year.is_none() {
            metadata.year = self.year;
        }
        if metadata.track_no.is_none() {
            metadata.track_no = self.track_no;
        }
        if metadata.disc_no.is_none() {
            metadata.disc_no = self.disc_no;
        }
    }
}

// ── The file name as a last resort ─────────────────────────────────────────

/// Number of ASCII digits at the head of `s`.
pub open spec fn leading_digits(s: Seq<char>) -> nat
    decreases s.len(),
{
    if s.len() > 0 && crate::text::is_digit(s[0]) {
        1 + leading_digits(s.drop_first())
    } else {
        0
    }
}

/// A track number at the head of a name — « 03 - », « 03. », « 03 » — and
/// what follows it. At most two digits: « 1999 - Title » is a year, not a
/// track. Nothing after the number means it was the title.
pub open spec fn track_prefix(text: Seq<char>) -> Option<(u32, Seq<char>)> {
    let n = leading_digits(text);
    if n == 0 || n > 2 {
        None
    } else {
        let after = trim_start(text.skip(n as int));
        let rest = if after.len() > 0 && (after[0] == '-' || after[0] == '.') {
            trim_start(after.drop_first())
        } else {
            trim_start(after)
        };
        if rest.len() == 0 {
            None
        } else {
            Some((crate::text::digits_value(text.take(n as int)) as u32, rest))
        }
    }
}

/// « Artist - Title » at the first ` - `, both sides non-blank; otherwise the
/// whole text is the title.
pub open spec fn dash_split(s: Seq<char>) -> (Option<Seq<char>>, Seq<char>) {
    match first_at(s, seq![' ', '-', ' '], 0) {
        Some(k) => if trim(s.take(k)).len() > 0 && trim(s.skip(k + 3)).len() > 0 {
            (Some(trim(s.take(k))), trim(s.skip(k + 3)))
        } else {
            (None, trim(s))
        },
        None => (None, trim(s)),
    }
}

/// Track number, artist and title read from a file name, from the richest
/// pattern to the poorest:
///
/// ```text
/// 03 - Daft Punk - Digital Love   →  track 3, Daft Punk, Digital Love
/// 03 - Digital Love               →  track 3, Digital Love
/// 03. Digital Love                →  track 3, Digital Love
/// Daft Punk - Digital Love        →  Daft Punk, Digital Love
/// Digital Love                    →  Digital Love
/// ```
pub open spec fn name_guess(file_name: Seq<char>) -> (Option<u32>, Option<Seq<char>>, Seq<char>) {
    let remaining = trim(name_parts(file_name).0);
    let (track, rest) = match track_prefix(remaining) {
        Some((n, r)) => (Some(n), r),
        None => (None, remaining),
    };
    let (artist, title) = dash_split(rest);
    (track, artist, title)
}

/// Whether the artist guessed from a file name will be used on these metadata.
pub open spec fn name_artist_used(file_name: Option<Seq<char>>, m: TrackMetadata) -> bool {
    file_name matches Some(name) && m.artists@.len() == 0 && name_guess(name).1 is Some
}

/// What the file name adds: the gaps are filled from it, and the metadata are
/// marked as guessed.
pub open spec fn fallback_applied(file_name: Option<Seq<char>>, old: TrackMetadata, new: TrackMetadata) -> bool {
    match file_name {
        None => new == old,
        Some(name) => {
            let (track, artist, title) = name_guess(name);
            &&& same_sound(old, new)
            &&& new.from_filename
            &&& new.album == old.album && new.album_artist == old.album_artist
            &&& new.year == old.year && new.disc_no == old.disc_no && new.genres == old.genres
            &&& new.track_no == (if old.track_no is Some {
                old.track_no
            } else {
                track
            })
            &&& if old.title@.len() == 0 {
                new.title@ == title
            } else {
                new.title == old.title
            }
            &&& if name_artist_used(file_name, old) {
                featuring(artist->0) == Some((views(new.artists@), views(new.featured_artists@)))
            } else {
                new.artists == old.artists && new.featured_artists == old.featured_artists
            }
        },
    }
}

/// Number of ASCII digits at the head of `s`.
fn count_leading_digits(s: &[char]) -> (r: usize)
    ensures
        r == leading_digits(s@),
        r <= s@.len(),
{
    let mut i: usize = 0;
    assert(s@.skip(0) =~= s@);
    while i < s.len() && 48 <= (s[i] as u32) && (s[i] as u32) <= 57
        invariant
            i <= s@.len(),
            leading_digits(s@) == i + leading_digits(s@.skip(i as int)),
        decreases s@.len() - i,
    {
        assert(s@.skip(i as int).drop_first() =~= s@.skip(i + 1));
        assert(s@.skip(i as int)[0] == s@[i as int]);
        i = i + 1;
    }
    proof {
        if i < s@.len() {
            assert(s@.skip(i as int)[0] == s@[i as int]);
        } else {
            assert(s@.skip(i as int) =~= Seq::<char>::empty());
        }
    }
    i
}

/// A track number at the head of a name, and what follows it.
fn leading_track_number(text: &[char]) -> (r: Option<(u32, Vec<char>)>)
    ensures
        match r {
            Some((n, rest)) => track_prefix(text@) == Some((n, rest@)),
            None => track_prefix(text@) is None,
        },
{
    assert(text@.skip(0) =~= text@);
    let n = count_leading_digits(text);
    if n == 0 || n > 2 {
        return None;
    }
    let digits = slice_chars(text, 0, n);
    assert(digits@ =~= text@.take(n as int));
    proof {
        assert(crate::text::all_digits(digits@)) by {
            lemma_leading_digits_are_digits(text@, n as int);
        }
    }
    let number: u32 = if n == 1 {
        (digits[0] as u32) - 48
    } else {
        ((digits[0] as u32) - 48) * 10 + ((digits[1] as u32) - 48)
    };
    proof {
        reveal_with_fuel(crate::text::digits_value, 3);
        assert(digits@.drop_last().len() == n - 1);
        if n == 2 {
            assert(digits@.drop_last().drop_last() =~= Seq::<char>::empty());
            assert(digits@.drop_last()[0] == digits@[0]);
        } else {
            assert(digits@.drop_last() =~= Seq::<char>::empty());
        }
    }
    let tail = slice_chars(text, n, text.len());
    assert(tail@ =~= text@.skip(n as int));
    let after = trim_start_chars(tail.as_slice());
    let rest = if after.len() > 0 && (after[0] == '-' || after[0] == '.') {
        let dropped = slice_chars(after.as_slice(), 1, after.len());
        assert(dropped@ =~= after@.drop_first());
        trim_start_chars(dropped.as_slice())
    } else {
        trim_start_chars(after.as_slice())
    };
    if rest.len() == 0 {
        None
    } else {
        Some((number, rest))
    }
}

/// The leading digits are ASCII digits.
proof fn lemma_leading_digits_are_digits(s: Seq<char>, n: int)
    requires
        n == leading_digits(s),
    ensures
        n <= s.len(),
        crate::text::all_digits(s.take(n)),
    decreases s.len(),
{
    if n > 0 {
        lemma_leading_digits_are_digits(s.drop_first(), n - 1);
        assert forall|i: int| 0 <= i < n implies crate::text::is_digit(#[trigger] s.take(n)[i]) by {
            if i > 0 {
                assert(s.take(n)[i] == s.drop_first().take(n - 1)[i - 1]);
            }
        }
    }
}

/// « Artist - Title » at the first ` - `.
fn split_dash(s: &[char]) -> (r: (Option<Vec<char>>, Vec<char>))
    ensures
        r.1@ == dash_split(s@).1,
        match r.0 {
            Some(a) => dash_split(s@).0 == Some(a@),
            None => dash_split(s@).0 is None,
        },
{
    let mut dash: Vec<char> = Vec::new();
    dash.push(' ');
    dash.push('-');
    dash.push(' ');
    assert(dash@ =~= seq![' ', '-', ' ']);
    match find_first(s, dash.as_slice()) {
        Some(k) => {
            proof {
                lemma_first_at_in(s@, dash@, 0);
                assert(occurs_at(s@, dash@, k as int));
                assert(dash@.len() == 3);
                assert(k + 3 <= s@.len());
            }
            let left = slice_chars(s, 0, k);
            assert(k + 3 <= s.len());
            let start: usize = k + 3;
            let right = slice_chars(s, start, s.len());
            assert(left@ =~= s@.take(k as int));
            assert(right@ =~= s@.skip(k + 3));
            let l = trim_chars(left.as_slice());
            let r = trim_chars(right.as_slice());
            if l.len() > 0 && r.len() > 0 {
                (Some(l), r)
            } else {
                (None, trim_chars(s))
            }
        },
        None => (None, trim_chars(s)),
    }
}

/// Fills the gaps of the metadata from the file name, and marks them as
/// guessed. Without a usable file name, nothing changes.
pub fn apply_filename_fallback(file_name: Option<&str>, metadata: &mut TrackMetadata)
    requires
        name_artist_used(opt_str(file_name), *old(metadata)) ==> featuring(
            name_guess(opt_str(file_name)->0).1->0,
        ) is Some,
    ensures
        fallback_applied(opt_str(file_name), *old(metadata), *final(metadata)),
{
    let name = match file_name {
        Some(n) => n,
        None => return,
    };
    metadata.from_filename = true;
    let chars = chars_of(name);
    let (stem, _) = split_name_parts(chars.as_slice());
    let remaining = trim_chars(stem.as_slice());
    let (track, rest) = match leading_track_number(remaining.as_slice()) {
        Some((n, r)) => (Some(n), r),
        None => (None, remaining),
    };
    if metadata.track_no.is_none() {
        metadata.track_no = track;
    }
    let (artist, title) = split_dash(rest.as_slice());
    if chars_of(metadata.title.as_str()).len() == 0 {
        metadata.title = string_from(title.as_slice());
    }
    if metadata.artists.len() == 0 {
        if let Some(a) = artist {
            let text = string_from(a.as_slice());
            let (main, featured) = split_featuring(text.as_str());
            metadata.artists = main;
            metadata.featured_artists = featured;
        }
    }
}

/// An optional string slice as an optional character sequence.
pub open spec fn opt_str(value: Option<&str>) -> Option<Seq<char>> {
    match value {
        Some(v) => Some(v@),
        None => None,
    }
}

// ── Reading ────────────────────────────────────────────────────────────────

/// A picture embedded in a file.
#[derive(Debug, Clone)]
pub struct Picture {
    /// The picture is the front cover.
    pub cover_front: bool,
    pub data: Vec<u8>,
    pub mime_type: Option<String>,
}

/// What the main tag of a file holds.
#[derive(Debug, Clone, Default)]
pub struct TagValues {
    pub title: Option<String>,
    pub artist: Option<String>,
    pub album: Option<String>,
    pub album_artist: Option<String>,
    pub genre: Option<String>,
    pub lyrics: Option<String>,
    pub track_no: Option<u32>,
    pub disc_no: Option<u32>,
    pub year: Option<u32>,
    pub pictures: Vec<Picture>,
}

/// The audio properties of a file.
#[derive(Debug, Clone, Copy)]
pub struct AudioProperties {
    pub duration_ms: i64,
    pub bitrate: Option<u32>,
    pub sample_rate: Option<u32>,
    pub channels: Option<u8>,
}

/// Why a file's metadata cannot be built.
#[derive(Debug, Clone, Copy, PartialEq, Eq, Structural)]
pub enum MetadataError {
    /// A zero duration: the file is most likely corrupted.
    ZeroDuration,
}

impl MetadataError {
    /// The message shown for the error.
    pub fn message(&self) -> (r: &'static str)
        ensures
            r@ == "durée nulle : fichier vraisemblablement corrompu"@,
    {
        "durée nulle : fichier vraisemblablement corrompu"
    }
}

/// The picture kept: the front cover first, otherwise the first one.
pub open spec fn cover_choice(pictures: Seq<Picture>) -> Option<int> {
    if exists|i: int| 0 <= i < pictures.len() && pictures[i].cover_front {
        Some(
            choose|i: int|
                0 <= i < pictures.len() && pictures[i].cover_front && forall|j: int|
                    0 <= j < i ==> !(#[trigger] pictures[j]).cover_front,
        )
    } else if pictures.len() > 0 {
        Some(0)
    } else {
        None
    }
}

/// The cover kept is the chosen picture.
pub open spec fn artwork_of(pictures: Seq<Picture>, art: Option<Artwork>) -> bool {
    match cover_choice(pictures) {
        None => art is None,
        Some(i) => art matches Some(a) && a.data@ == pictures[i].data@ && opt_view(a.mime_type)
            == opt_view(pictures[i].mime_type),
    }
}

/// Chooses the best cover available: the front cover first.
fn extract_artwork(pictures: &[Picture]) -> (r: Option<Artwork>)
    ensures
        artwork_of(pictures@, r),
{
    let mut i: usize = 0;
    while i < pictures.len()
        invariant
            i <= pictures@.len(),
            forall|j: int| 0 <= j < i ==> !(#[trigger] pictures@[j]).cover_front,
        decreases pictures@.len() - i,
    {
        if pictures[i].cover_front {
            proof {
                let c = choose|c: int|
                    0 <= c < pictures@.len() && pictures@[c].cover_front && forall|j: int|
                        0 <= j < c ==> !(#[trigger] pictures@[j]).cover_front;
                assert(0 <= c < pictures@.len() && pictures@[c].cover_front && forall|j: int|
                    0 <= j < c ==> !(#[trigger] pictures@[j]).cover_front);
                if c < i {
                    assert(!pictures@[c].cover_front);
                }
                if i < c {
                    assert(!pictures@[i as int].cover_front);
                }
            }
            return Some(copy_picture(&pictures[i]));
        }
        i = i + 1;
    }
    if pictures.len() > 0 {
        Some(copy_picture(&pictures[0]))
    } else {
        None
    }
}

/// A picture's data and type, as a cover.
fn copy_picture(p: &Picture) -> (r: Artwork)
    ensures
        r.data@ == p.data@,
        opt_view(r.mime_type) == opt_view(p.mime_type),
{
    let data = vstd::slice::slice_to_vec(p.data.as_slice());
    let mime_type = match &p.mime_type {
        Some(m) => Some(string_from(chars_of(m.as_str()).as_slice())),
        None => None,
    };
    Artwork { data, mime_type }
}

/// The format of a file: its extension in lower case, `inconnu` without one.
pub open spec fn format_of(extension: Option<Seq<char>>) -> Seq<char> {
    match extension {
        Some(e) => e.map_values(|c: char| ascii_lower(c)),
        None => "inconnu"@,
    }
}

/// The metadata read from the tags, before any fallback.
pub open spec fn tag_read(
    props: AudioProperties,
    format: Seq<char>,
    tag: Option<TagValues>,
    m: TrackMetadata,
) -> bool {
    &&& m.duration_ms == props.duration_ms && m.bitrate == props.bitrate && m.sample_rate
        == props.sample_rate && m.channels == props.channels
    &&& m.format@ == format
    &&& !m.from_filename
    &&& match tag {
        None => {
            &&& m.title@.len() == 0
            &&& m.artists@.len() == 0 && m.featured_artists@.len() == 0
            &&& m.album is None && m.album_artist is None
            &&& m.track_no is None && m.disc_no is None && m.year is None
            &&& m.genres@.len() == 0 && m.artwork is None && m.lyrics is None
        },
        Some(t) => {
            &&& m.title@ == (match t.title {
                Some(x) => trim(x@),
                None => seq![],
            })
            &&& opt_view(m.album) == filled(t.album)
            &&& m.track_no == t.track_no && m.disc_no == t.disc_no && m.year == t.year
            &&& views(m.genres@) == (match filled(t.genre) {
                Some(g) => seq![g],
                None => seq![],
            })
            &&& opt_view(m.album_artist) == filled(t.album_artist)
            &&& match filled(t.artist) {
                Some(a) => featuring(a) == Some((views(m.artists@), views(m.featured_artists@))),
                None => m.artists@.len() == 0 && m.featured_artists@.len() == 0,
            }
            &&& artwork_of(t.pictures@, m.artwork)
            &&& opt_view(m.lyrics) == filled(t.lyrics)
        },
    }
}

/// Every field but the title is the same.
pub open spec fn same_but_title(a: TrackMetadata, b: TrackMetadata) -> bool {
    &&& same_audio(a, b)
    &&& a.artists == b.artists && a.featured_artists == b.featured_artists
    &&& a.album == b.album && a.album_artist == b.album_artist
    &&& a.track_no == b.track_no && a.disc_no == b.disc_no && a.year == b.year
    &&& a.genres == b.genres
}

/// The tags leave no artist.
pub open spec fn no_tag_artist(tag: Option<TagValues>) -> bool {
    match tag {
        None => true,
        Some(t) => filled(t.artist) is None,
    }
}

/// The texts that the featuring split can cut: the artist tag, and the artist
/// of the file name when it will be used.
pub open spec fn artists_splittable(file_name: Option<Seq<char>>, tag: Option<TagValues>) -> bool {
    &&& tag matches Some(t) ==> (filled(t.artist) is Some ==> featuring(filled(t.artist)->0) is Some)
    &&& (file_name matches Some(n) && name_guess(n).1 is Some && no_tag_artist(tag)) ==> featuring(
        name_guess(file_name->0).1->0,
    ) is Some
}

/// The metadata of a file: its tags, the file name for what they lack, and
/// « Sans titre » when nothing gave a title.
pub open spec fn read_result(
    file_name: Option<Seq<char>>,
    extension: Option<Seq<char>>,
    props: AudioProperties,
    tag: Option<TagValues>,
    m: TrackMetadata,
) -> bool {
    exists|t: TrackMetadata, u: TrackMetadata|
        #![trigger tag_read(props, format_of(extension), tag, t), same_but_title(u, m)]
        {
            &&& tag_read(props, format_of(extension), tag, t)
            &&& if t.title@.len() == 0 || t.artists@.len() == 0 {
                fallback_applied(file_name, t, u)
            } else {
                u == t
            }
            &&& same_but_title(u, m)
            &&& if u.title@.len() == 0 {
                m.title@ == "Sans titre"@
            } else {
                m.title == u.title
            }
        }
}

/// A successful split always gives one main artist.
pub proof fn lemma_featuring_main(raw: Seq<char>, i: nat)
    requires
        featuring_from(raw, i) is Some,
    ensures
        (featuring_from(raw, i)->0).0.len() == 1,
    decreases 7 - i,
{
    if i < 7 {
        match cut_at(raw, i as int) {
            Cut::Found(_, _) => {},
            Cut::Broken => {},
            _ => {
                lemma_featuring_main(raw, (i + 1) as nat);
            },
        }
    }
}

/// A needle absent from a text is found nowhere in it.
proof fn lemma_first_at_absent(hay: Seq<char>, needle: Seq<char>, from: int)
    requires
        !crate::text::contains_seq(hay, needle),
    ensures
        first_at(hay, needle, from) is None,
{
    lemma_first_at_in(hay, needle, from);
    if let Some(k) = first_at(hay, needle, from) {
        assert(occurs_at(hay, needle, k));
    }
}

/// The first occurrence at or after `from` is the one at `k` when none comes
/// between them.
proof fn lemma_first_at_is(hay: Seq<char>, needle: Seq<char>, from: int, k: int)
    requires
        0 <= from <= k,
        occurs_at(hay, needle, k),
        forall|j: int| from <= j < k ==> !occurs_at(hay, needle, j),
    ensures
        first_at(hay, needle, from) == Some(k),
    decreases k - from,
{
    if from < k {
        lemma_first_at_is(hay, needle, from + 1, k);
    }
}

/// Two texts whose characters have the same widths, place by place, take as
/// many bytes.
proof fn lemma_utf8_len_same_widths(s: Seq<char>, t: Seq<char>)
    requires
        s.len() == t.len(),
        forall|i: int| 0 <= i < s.len() ==> utf8_width(#[trigger] s[i]) == utf8_width(t[i]),
    ensures
        utf8_len(s) == utf8_len(t),
    decreases s.len(),
{
    if s.len() > 0 {
        assert forall|i: int| 0 <= i < s.drop_first().len() implies utf8_width(
            #[trigger] s.drop_first()[i],
        ) == utf8_width(t.drop_first()[i]) by {
            assert(s.drop_first()[i] == s[i + 1] && t.drop_first()[i] == t[i + 1]);
        }
        lemma_utf8_len_same_widths(s.drop_first(), t.drop_first());
    }
}

/// The byte length of a prefix is a character boundary: that prefix's end.
proof fn lemma_byte_index_of_prefix(s: Seq<char>, k: int)
    requires
        0 <= k <= s.len(),
    ensures
        byte_index(s, utf8_len(s.take(k)) as int) == Some(k),
    decreases k,
{
    if k > 0 {
        assert(s.take(k)[0] == s[0]);
        assert(s.take(k).drop_first() =~= s.drop_first().take(k - 1));
        lemma_byte_index_of_prefix(s.drop_first(), k - 1);
    } else {
        assert(s.take(0).len() == 0);
    }
}

/// Guests without `,` nor `&` are a single name.
proof fn lemma_guest_split_plain(s: Seq<char>)
    requires
        forall|i: int| 0 <= i < s.len() ==> #[trigger] s[i] != ',' && s[i] != '&',
    ensures
        guest_split(s) == (Seq::<Seq<char>>::empty(), s),
    decreases s.len(),
{
    if s.len() > 0 {
        assert(s.drop_last().push(s.last()) =~= s);
        lemma_guest_split_plain(s.drop_last());
    }
}

/// The French mention « avec » splits an artist tag: « A avec B » gives the
/// main artist A and the guests of B, when the lower-case form keeps every
/// character in its place with its width, shows ` avec ` where the tag has it
/// and nowhere before, and holds none of the mentions tried before it
/// (` feat. `, ` feat `, ` ft. `, ` ft `, ` featuring `). B without `,` nor
/// `&` is a single guest.
pub proof fn lemma_avec_splits(raw: Seq<char>, main: Seq<char>, guests: Seq<char>)
    requires
        raw == main + " avec "@ + guests,
        trim(main).len() > 0,
        str_lowercase(raw).len() == raw.len(),
        forall|i: int|
            0 <= i < raw.len() ==> utf8_width(#[trigger] str_lowercase(raw)[i]) == utf8_width(
                raw[i],
            ),
        occurs_at(str_lowercase(raw), " avec "@, main.len() as int),
        forall|k: int| 0 <= k < main.len() ==> !occurs_at(str_lowercase(raw), " avec "@, k),
        !crate::text::contains_seq(str_lowercase(raw), " feat. "@),
        !crate::text::contains_seq(str_lowercase(raw), " feat "@),
        !crate::text::contains_seq(str_lowercase(raw), " ft. "@),
        !crate::text::contains_seq(str_lowercase(raw), " ft "@),
        !crate::text::contains_seq(str_lowercase(raw), " featuring "@),
    ensures
        featuring(raw) == Some((seq![trim(main)], guest_names(guests))),
        (forall|i: int| 0 <= i < guests.len() ==> #[trigger] guests[i] != ',' && guests[i] != '&')
            && trim(guests).len() > 0 ==> featuring(raw) == Some(
            (seq![trim(main)], seq![trim(guests)]),
        ),
{
    let lowered = str_lowercase(raw);
    let m = " avec "@;
    let k = main.len() as int;
    let n = m.len() as int;
    lemma_first_at_absent(lowered, " feat. "@, 0);
    lemma_first_at_absent(lowered, " feat "@, 0);
    lemma_first_at_absent(lowered, " ft. "@, 0);
    lemma_first_at_absent(lowered, " ft "@, 0);
    lemma_first_at_absent(lowered, " featuring "@, 0);
    assert(cut_at(raw, 0) == Cut::Absent);
    assert(cut_at(raw, 1) == Cut::Absent);
    assert(cut_at(raw, 2) == Cut::Absent);
    assert(cut_at(raw, 3) == Cut::Absent);
    assert(cut_at(raw, 4) == Cut::Absent);
    lemma_first_at_is(lowered, m, 0, k);
    assert(featuring_marker(5) == m);
    // The byte offsets found in the lower-case form are those of the tag.
    assert forall|i: int| 0 <= i < lowered.take(k).len() implies utf8_width(
        #[trigger] lowered.take(k)[i],
    ) == utf8_width(raw.take(k)[i]) by {
        assert(lowered.take(k)[i] == lowered[i] && raw.take(k)[i] == raw[i]);
    }
    lemma_utf8_len_same_widths(lowered.take(k), raw.take(k));
    let p = utf8_len(lowered.take(k)) as int;
    lemma_byte_index_of_prefix(raw, k);
    crate::library::naming::lemma_utf8_len_split(raw.take(k + n), k);
    assert(raw.take(k + n).take(k) =~= raw.take(k));
    assert(raw.take(k + n).skip(k) =~= m);
    lemma_byte_index_of_prefix(raw, k + n);
    assert(byte_index(raw, p) == Some(k));
    assert(byte_index(raw, p + utf8_len(m)) == Some(k + n));
    assert(raw.take(k) =~= main);
    assert(raw.skip(k + n) =~= guests);
    assert(cut_at(raw, 5) == Cut::Found(trim(main), guests));
    assert(featuring_from(raw, 5) == Some((seq![trim(main)], guest_names(guests))));
    assert(featuring_from(raw, 4) == featuring_from(raw, 5));
    assert(featuring_from(raw, 3) == featuring_from(raw, 4));
    assert(featuring_from(raw, 2) == featuring_from(raw, 3));
    assert(featuring_from(raw, 1) == featuring_from(raw, 2));
    assert(featuring_from(raw, 0) == featuring_from(raw, 1));
    if (forall|i: int| 0 <= i < guests.len() ==> #[trigger] guests[i] != ',' && guests[i] != '&')
        && trim(guests).len() > 0 {
        lemma_guest_split_plain(guests);
        assert(guest_names(guests) == seq![trim(guests)]);
    }
}

/// The metadata read from the tags, before any fallback.
fn from_tag(props: &AudioProperties, extension: Option<&str>, tag: Option<&TagValues>) -> (m: TrackMetadata)
    requires
        tag matches Some(t) ==> (filled(t.artist) is Some ==> featuring(filled(t.artist)->0) is Some),
    ensures
        tag_read(*props, format_of(opt_str(extension)), opt_tag(tag), m),
{
    let format = match extension {
        Some(e) => {
            let chars = chars_of(e);
            let mut lowered: Vec<char> = Vec::new();
            let mut i: usize = 0;
            while i < chars.len()
                invariant
                    i <= chars@.len(),
                    lowered@ == chars@.take(i as int).map_values(|c: char| ascii_lower(c)),
                decreases chars@.len() - i,
            {
                let c = chars[i];
                let l = if 'A' <= c && c <= 'Z' {
                    ((c as u32) + 32) as u8 as char
                } else {
                    c
                };
                lowered.push(l);
                i = i + 1;
                assert(lowered@ =~= chars@.take(i as int).map_values(|c: char| ascii_lower(c)));
            }
            assert(chars@.take(i as int) =~= chars@);
            string_from(lowered.as_slice())
        },
        None => string_from(chars_of("inconnu").as_slice()),
    };
    let mut m = TrackMetadata {
        title: String::new(),
        artists: Vec::new(),
        featured_artists: Vec::new(),
        album_artist: None,
        album: None,
        track_no: None,
        disc_no: None,
        year: None,
        genres: Vec::new(),
        duration_ms: props.duration_ms,
        bitrate: props.bitrate,
        sample_rate: props.sample_rate,
        channels: props.channels,
        format,
        artwork: None,
        lyrics: None,
        from_filename: false,
    };
    if let Some(t) = tag {
        m.title = match &t.title {
            Some(x) => string_from(trim_chars(chars_of(x.as_str()).as_slice()).as_slice()),
            None => String::new(),
        };
        m.album = non_empty(&t.album);
        m.track_no = t.track_no;
        m.disc_no = t.disc_no;
        m.year = t.year;
        if let Some(genre) = non_empty(&t.genre) {
            m.genres.push(genre);
            assert(views(m.genres@) =~= seq![genre@]);
        } else {
            assert(views(m.genres@) =~= Seq::<Seq<char>>::empty());
        }
        m.album_artist = non_empty(&t.album_artist);
        if let Some(artist) = non_empty(&t.artist) {
            let (main, featured) = split_featuring(artist.as_str());
            m.artists = main;
            m.featured_artists = featured;
        }
        m.artwork = extract_artwork(t.pictures.as_slice());
        m.lyrics = non_empty(&t.lyrics);
    }
    m
}

/// The tag as an optional value.
pub open spec fn opt_tag(tag: Option<&TagValues>) -> Option<TagValues> {
    match tag {
        Some(t) => Some(*t),
        None => None,
    }
}

/// Builds a file's metadata from its audio properties, its main tag when it has
/// one, and its file name for what the tags lack.
pub fn assemble(
    file_name: Option<&str>,
    extension: Option<&str>,
    props: &AudioProperties,
    tag: Option<&TagValues>,
) -> (r: Result<TrackMetadata, MetadataError>)
    requires
        artists_splittable(opt_str(file_name), opt_tag(tag)),
    ensures
        match r {
            Ok(m) => props.duration_ms != 0 && read_result(
                opt_str(file_name),
                opt_str(extension),
                *props,
                opt_tag(tag),
                m,
            ),
            Err(e) => props.duration_ms == 0 && e == MetadataError::ZeroDuration,
        },
{
    if props.duration_ms == 0 {
        return Err(MetadataError::ZeroDuration);
    }
    let mut m = from_tag(props, extension, tag);
    let ghost t = m;
    proof {
        if let Some(tv) = opt_tag(tag) {
            if filled(tv.artist) is Some {
                lemma_featuring_main(filled(tv.artist)->0, 0);
            }
        }
    }
    if chars_of(m.title.as_str()).len() == 0 || m.artists.len() == 0 {
        apply_filename_fallback(file_name, &mut m);
    }
    let ghost u = m;
    if chars_of(m.title.as_str()).len() == 0 {
        m.title = string_from(chars_of("Sans titre").as_slice());
    }
    assert(same_but_title(u, m));
    assert(tag_read(*props, format_of(opt_str(extension)), opt_tag(tag), t));
    assert(if t.title@.len() == 0 || t.artists@.len() == 0 {
        fallback_applied(opt_str(file_name), t, u)
    } else {
        u == t
    });
    assert(if u.title@.len() == 0 {
        m.title@ == "Sans titre"@
    } else {
        m.title == u.title
    });
    assert(read_result(opt_str(file_name), opt_str(extension), *props, opt_tag(tag), m));
    Ok(m)
}

/// The artist a file name announces (« 01 - Artist - Title.mp3 »), if any.
pub fn name_artist(file_name: &str) -> (r: Option<String>)
    ensures
        match r {
            Some(a) => name_guess(file_name@).1 == Some(a@),
            None => name_guess(file_name@).1 is None,
        },
{
    let chars = chars_of(file_name);
    let (stem, _) = split_name_parts(chars.as_slice());
    let remaining = trim_chars(stem.as_slice());
    let rest = match leading_track_number(remaining.as_slice()) {
        Some((_, r)) => r,
        None => remaining,
    };
    let (artist, _) = split_dash(rest.as_slice());
    match artist {
        Some(a) => Some(string_from(a.as_slice())),
        None => None,
    }
}

/// Whether the artist texts a file's metadata would be built from can be cut
/// for featurings: the artist tag, and the artist of the file name when the
/// tag has none. `assemble` asks it of its inputs.
pub fn can_assemble(file_name: Option<&str>, tag: Option<&TagValues>) -> (r: bool)
    ensures
        r == artists_splittable(opt_str(file_name), opt_tag(tag)),
{
    let mut tag_artist_filled = false;
    let mut tag_ok = true;
    if let Some(t) = tag {
        if let Some(a) = &t.artist {
            let trimmed = trim_chars(chars_of(a.as_str()).as_slice());
            if trimmed.len() > 0 {
                tag_artist_filled = true;
                let text = string_from(trimmed.as_slice());
                tag_ok = split_artist(text.as_str()).is_some();
            }
        }
    }
    let mut name_ok = true;
    if let Some(n) = file_name {
        if !tag_artist_filled {
            if let Some(a) = name_artist(n) {
                name_ok = split_artist(a.as_str()).is_some();
            }
        }
    }
    tag_ok && name_ok
}

} // verus!
