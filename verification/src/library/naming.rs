//! Sanitising names and building the filing paths of the library.
//!
//! Two distinct duties, often confused:
//!
//! * [`sanitize_segment`] produces a name **displayable and writable on disk**.
//!   It keeps case and accents: « Beyoncé » stays « Beyoncé ».
//! * [`normalize_key`] produces a **deduplication key**, never displayed. It
//!   strips everything: case, accents, punctuation. « Beyoncé » becomes
//!   « beyonce », which matches « BEYONCE » and « beyonce ».
use vstd::prelude::*;

use crate::text::{
    chars_of, decimal, decimal2, is_control, is_whitespace, lemma_trim_end_take, push_all,
    slice_chars, spec_is_control, spec_is_whitespace, string_from, trim_end, trim_end_index,
    write_decimal, write_decimal2,
};
use crate::unicode::{
    alphanumeric, char_lowercase, is_alphanumeric, lowercase_of_char, nfd, nfd_of,
};

verus! {

/// Maximum length of a segment, in bytes. exFAT allows 255 characters per
/// segment; a comfortable margin is kept for « (2) » suffixes and extensions.
pub const MAX_SEGMENT_BYTES: usize = 180;

/// Folder of the tracks whose artist could not be identified.
pub const UNSORTED_DIR: &'static str = "_À trier";

/// Folder of the tracks without an album.
pub const SINGLES_DIR: &'static str = "Singles";

/// Watched drop folder, at the root of the library.
pub const INBOX_DIR: &'static str = "_Inbox";

/// Sub-folder of the drop folder where already known files land.
pub const INBOX_DUPLICATES_DIR: &'static str = "_Doublons";

// ── Sanitising ─────────────────────────────────────────────────────────────

/// Characters refused by exFAT (and by Windows).
pub open spec fn is_forbidden(c: char) -> bool {
    c == '"' || c == '*' || c == '/' || c == ':' || c == '<' || c == '>' || c == '?' || c
        == '\\' || c == '|'
}

/// Forbidden and control characters become spaces.
pub open spec fn cleaned_char(c: char) -> char {
    if is_forbidden(c) || spec_is_control(c) {
        ' '
    } else {
        c
    }
}

/// Runs of white space reduced to one space, none at either end — what
/// `split_whitespace().collect::<Vec<_>>().join(" ")` leaves. Built left to
/// right; a space is only ever written after a character that is not white space.
pub open spec fn squeeze(s: Seq<char>) -> Seq<char>
    decreases s.len(),
{
    if s.len() == 0 {
        s
    } else {
        let out = squeeze(s.drop_last());
        if spec_is_whitespace(s.last()) {
            if out.len() > 0 && out.last() != ' ' {
                out.push(' ')
            } else {
                out
            }
        } else {
            out.push(s.last())
        }
    }
}

/// `squeeze` without the space it may leave at the end.
pub open spec fn collapse_spaces(s: Seq<char>) -> Seq<char> {
    let q = squeeze(s);
    if q.len() > 0 && q.last() == ' ' {
        q.drop_last()
    } else {
        q
    }
}

/// Trailing dots and spaces removed: exFAT and Windows refuse them.
pub open spec fn strip_dots_spaces(s: Seq<char>) -> Seq<char>
    decreases s.len(),
{
    if s.len() > 0 && (s.last() == '.' || s.last() == ' ') {
        strip_dots_spaces(s.drop_last())
    } else {
        s
    }
}

/// Trailing spaces removed.
pub open spec fn strip_spaces(s: Seq<char>) -> Seq<char>
    decreases s.len(),
{
    if s.len() > 0 && s.last() == ' ' {
        strip_spaces(s.drop_last())
    } else {
        s
    }
}

/// Number of bytes of the UTF-8 encoding of a character.
pub open spec fn utf8_width(c: char) -> nat {
    let v = c as u32;
    if v < 0x80 {
        1
    } else if v < 0x800 {
        2
    } else if v < 0x10000 {
        3
    } else {
        4
    }
}

/// Number of bytes of the UTF-8 encoding of a string.
pub open spec fn utf8_len(s: Seq<char>) -> nat
    decreases s.len(),
{
    if s.len() == 0 {
        0
    } else {
        utf8_width(s[0]) + utf8_len(s.drop_first())
    }
}

/// The longest prefix of `s` whose encoding fits in `budget` bytes.
pub open spec fn fit_prefix(s: Seq<char>, budget: nat) -> Seq<char>
    decreases s.len(),
{
    if s.len() == 0 || utf8_width(s[0]) > budget {
        seq![]
    } else {
        seq![s[0]] + fit_prefix(s.drop_first(), (budget - utf8_width(s[0])) as nat)
    }
}

/// Truncation to `max` bytes without cutting a multi-byte character; the spaces
/// the cut leaves at the end go too.
pub open spec fn truncated(s: Seq<char>, max: nat) -> Seq<char> {
    if utf8_len(s) <= max {
        s
    } else {
        strip_spaces(fit_prefix(s, max))
    }
}

/// The segment a raw name gives, `None` when nothing usable is left. A segment
/// never ends with a dot or a space (exFAT and Windows refuse them), also where
/// the cut at `MAX_SEGMENT_BYTES` leaves one.
pub open spec fn sanitized(raw: Seq<char>) -> Option<Seq<char>> {
    let t = strip_dots_spaces(
        truncated(
            strip_dots_spaces(collapse_spaces(raw.map_values(|c: char| cleaned_char(c)))),
            MAX_SEGMENT_BYTES as nat,
        ),
    );
    if t.len() == 0 {
        None
    } else {
        Some(t)
    }
}

/// Number of bytes of the UTF-8 encoding of a character.
pub fn width_of(c: char) -> (w: usize)
    ensures
        w == utf8_width(c),
{
    let v = c as u32;
    if v < 0x80 {
        1
    } else if v < 0x800 {
        2
    } else if v < 0x10000 {
        3
    } else {
        4
    }
}

/// `strip_spaces` on a vector.
fn pop_spaces(v: &mut Vec<char>)
    ensures
        final(v)@ == strip_spaces(old(v)@),
{
    while v.len() > 0 && v[v.len() - 1] == ' '
        invariant
            strip_spaces(v@) == strip_spaces(old(v)@),
        decreases v@.len(),
    {
        v.pop();
    }
}

/// `strip_dots_spaces` on a vector.
fn pop_dots_spaces(v: &mut Vec<char>)
    ensures
        final(v)@ == strip_dots_spaces(old(v)@),
{
    while v.len() > 0 && (v[v.len() - 1] == '.' || v[v.len() - 1] == ' ')
        invariant
            strip_dots_spaces(v@) == strip_dots_spaces(old(v)@),
        decreases v@.len(),
    {
        v.pop();
    }
}

/// `fit_prefix` of a suffix, one character further.
proof fn lemma_fit_prefix_step(s: Seq<char>, i: int, budget: nat)
    requires
        0 <= i < s.len(),
        utf8_width(s[i]) <= budget,
    ensures
        fit_prefix(s.skip(i), budget) == seq![s[i]] + fit_prefix(
            s.skip(i + 1),
            (budget - utf8_width(s[i])) as nat,
        ),
{
    assert(s.skip(i)[0] == s[i]);
    assert(s.skip(i).drop_first() =~= s.skip(i + 1));
}

/// Truncates to `max` bytes without cutting a multi-byte character.
pub fn truncate_on_char_boundary(text: &mut Vec<char>, max_bytes: usize)
    ensures
        final(text)@ == truncated(old(text)@, max_bytes as nat),
{
    let ghost s = text@;
    // Keep characters while they fit.
    let mut used: usize = 0;
    let mut i: usize = 0;
    let mut fits = true;
    assert(s.take(0) =~= Seq::<char>::empty());
    assert(s.skip(0) =~= s);
    assert(utf8_len(Seq::<char>::empty()) == 0);
    assert(s.take(0) + fit_prefix(s, max_bytes as nat) =~= fit_prefix(s, max_bytes as nat));
    while i < text.len() && fits
        invariant
            text@ == s,
            i <= s.len(),
            used <= max_bytes,
            fits ==> fit_prefix(s, max_bytes as nat) == s.take(i as int) + fit_prefix(
                s.skip(i as int),
                (max_bytes - used) as nat,
            ),
            !fits ==> fit_prefix(s, max_bytes as nat) == s.take(i as int),
            !fits ==> i < s.len(),
            !fits ==> utf8_width(s[i as int]) > max_bytes - used,
            utf8_len(s) == utf8_len(s.take(i as int)) + utf8_len(s.skip(i as int)),
            utf8_len(s.take(i as int)) == used,
        decreases s.len() - i, (if fits { 1int } else { 0int }),
    {
        let w = width_of(text[i]);
        if w <= max_bytes - used {
            proof {
                lemma_fit_prefix_step(s, i as int, (max_bytes - used) as nat);
                assert(s.take(i + 1) =~= s.take(i as int).push(s[i as int]));
                lemma_utf8_len_push(s.take(i as int), s[i as int]);
                lemma_utf8_len_split(s, i + 1);
                assert(s.take(i as int) + (seq![s[i as int]] + fit_prefix(s.skip(i + 1), (max_bytes - used - w) as nat))
                    =~= s.take(i + 1) + fit_prefix(s.skip(i + 1), (max_bytes - used - w) as nat));
            }
            used = used + w;
            i = i + 1;
        } else {
            proof {
                assert(s.skip(i as int)[0] == s[i as int]);
                assert(fit_prefix(s.skip(i as int), (max_bytes - used) as nat) =~= Seq::<char>::empty());
                assert(s.take(i as int) + Seq::<char>::empty() =~= s.take(i as int));
            }
            fits = false;
        }
    }
    if fits {
        // Everything fitted: the whole text is within the limit.
        proof {
            assert(s.take(i as int) =~= s);
            assert(s.skip(i as int).len() == 0);
            assert(utf8_len(s) == used);
        }
        return;
    }
    proof {
        lemma_utf8_len_split(s, i as int);
        assert(s.skip(i as int)[0] == s[i as int]);
        assert(utf8_len(s.skip(i as int)) >= utf8_width(s[i as int]));
    }
    text.truncate(i);
    assert(text@ =~= s.take(i as int));
    pop_spaces(text);
}

/// The length of a concatenation.
pub proof fn lemma_utf8_len_push(s: Seq<char>, c: char)
    ensures
        utf8_len(s.push(c)) == utf8_len(s) + utf8_width(c),
    decreases s.len(),
{
    if s.len() > 0 {
        assert(s.push(c).drop_first() =~= s.drop_first().push(c));
        assert(s.push(c)[0] == s[0]);
        lemma_utf8_len_push(s.drop_first(), c);
    } else {
        assert(s.push(c).drop_first() =~= Seq::<char>::empty());
        assert(s.push(c)[0] == c);
        assert(utf8_len(Seq::<char>::empty()) == 0);
    }
}

/// The length of a string is the sum of the lengths of its two parts.
pub proof fn lemma_utf8_len_split(s: Seq<char>, k: int)
    requires
        0 <= k <= s.len(),
    ensures
        utf8_len(s) == utf8_len(s.take(k)) + utf8_len(s.skip(k)),
    decreases k,
{
    if k > 0 {
        assert(s.drop_first().take(k - 1) =~= s.take(k).drop_first());
        assert(s.drop_first().skip(k - 1) =~= s.skip(k));
        lemma_utf8_len_split(s.drop_first(), k - 1);
        assert(s.take(k)[0] == s[0]);
    } else {
        assert(s.skip(0) =~= s);
        assert(s.take(0).len() == 0);
    }
}

/// Makes a string usable as the name of a folder or a file.
///
/// `None` when nothing usable is left: the caller supplies a fallback.
pub fn sanitize_segment(raw: &str) -> (r: Option<String>)
    ensures
        match r {
            Some(s) => sanitized(raw@) == Some(s@),
            None => sanitized(raw@) is None,
        },
{
    let v = chars_of(raw);
    match sanitize_chars(v.as_slice()) {
        Some(t) => Some(string_from(t.as_slice())),
        None => None,
    }
}

/// `sanitize_segment`, on characters.
pub fn sanitize_chars(raw: &[char]) -> (r: Option<Vec<char>>)
    ensures
        match r {
            Some(s) => sanitized(raw@) == Some(s@),
            None => sanitized(raw@) is None,
        },
{
    let ghost cleaned = raw@.map_values(|c: char| cleaned_char(c));
    // Forbidden characters become spaces, and white space runs shrink to one
    // space, in a single pass.
    let mut out: Vec<char> = Vec::new();
    let mut i: usize = 0;
    while i < raw.len()
        invariant
            i <= raw@.len(),
            cleaned == raw@.map_values(|c: char| cleaned_char(c)),
            out@ == squeeze(cleaned.take(i as int)),
        decreases raw@.len() - i,
    {
        let c = raw[i];
        let forbidden = c == '"' || c == '*' || c == '/' || c == ':' || c == '<' || c == '>' || c
            == '?' || c == '\\' || c == '|';
        let d = if forbidden || is_control(c) {
            ' '
        } else {
            c
        };
        assert(d == cleaned[i as int]);
        assert(cleaned.take(i + 1).drop_last() =~= cleaned.take(i as int));
        if is_whitespace(d) {
            if out.len() > 0 && out[out.len() - 1] != ' ' {
                out.push(' ');
            }
        } else {
            out.push(d);
        }
        i = i + 1;
    }
    assert(cleaned.take(i as int) =~= cleaned);
    if out.len() > 0 && out[out.len() - 1] == ' ' {
        out.pop();
    }
    pop_dots_spaces(&mut out);
    truncate_on_char_boundary(&mut out, MAX_SEGMENT_BYTES);
    pop_dots_spaces(&mut out);
    if out.len() == 0 {
        None
    } else {
        Some(out)
    }
}

// ── Deduplication key ──────────────────────────────────────────────────────

/// Common stylised spellings: `$` → `s`, `@` → `a`, `!` → `i`, `&` → `+`.
pub open spec fn substituted(c: char) -> char {
    if c == '$' {
        's'
    } else if c == '@' {
        'a'
    } else if c == '!' {
        'i'
    } else if c == '&' {
        '+'
    } else {
        c
    }
}

/// Unicode combining marks: Latin, Greek and Cyrillic diacritics — all that NFD
/// sets apart.
pub open spec fn spec_is_combining_mark(c: char) -> bool {
    let v = c as u32;
    (0x0300 <= v && v <= 0x036F) || (0x1AB0 <= v && v <= 0x1AFF) || (0x1DC0 <= v && v <= 0x1DFF)
        || (0x20D0 <= v && v <= 0x20FF) || (0xFE20 <= v && v <= 0xFE2F)
}

/// Is the character a combining mark?
pub fn is_combining_mark(c: char) -> (r: bool)
    ensures
        r == spec_is_combining_mark(c),
{
    let v = c as u32;
    (0x0300 <= v && v <= 0x036F) || (0x1AB0 <= v && v <= 0x1AFF) || (0x1DC0 <= v && v <= 0x1DFF)
        || (0x20D0 <= v && v <= 0x20FF) || (0xFE20 <= v && v <= 0xFE2F)
}

/// `s` without its combining marks.
pub open spec fn without_marks(s: Seq<char>) -> Seq<char>
    decreases s.len(),
{
    if s.len() == 0 {
        s
    } else if spec_is_combining_mark(s.last()) {
        without_marks(s.drop_last())
    } else {
        without_marks(s.drop_last()).push(s.last())
    }
}

/// The key built so far, and whether it ends with a separator (true at the start,
/// so that the key never begins with a space).
///
/// Each character is lowered (first character of its lowercase mapping); an
/// alphanumeric one is kept, `+` becomes `and`, anything else becomes a single
/// separating space.
pub open spec fn key_fold(s: Seq<char>) -> (Seq<char>, bool)
    decreases s.len(),
{
    if s.len() == 0 {
        (seq![], true)
    } else {
        let (key, after_space) = key_fold(s.drop_last());
        let lowered = char_lowercase(s.last())[0];
        if alphanumeric(lowered) {
            (key.push(lowered), false)
        } else if lowered == '+' {
            (key + seq!['a', 'n', 'd'], false)
        } else if !after_space {
            (key.push(' '), true)
        } else {
            (key, after_space)
        }
    }
}

/// The deduplication key of a name.
pub open spec fn key_of(raw: Seq<char>) -> Seq<char> {
    trim_end(key_fold(without_marks(nfd(raw.map_values(|c: char| substituted(c))))).0)
}

/// Deduplication key: lowercase, without accents nor punctuation, its words
/// separated by single spaces, with none at either end.
pub fn normalize_key(raw: &str) -> (r: String)
    ensures
        r@ == key_of(raw@),
        single_spaced(r@),
{
    let v = chars_of(raw);
    // The space is no letter nor digit: what keeps the separators single.
    let space_is_alphanumeric = is_alphanumeric(' ');
    proof {
        assert(!space_is_alphanumeric);
        lemma_key_spaces(raw@);
    }
    let k = normalize_key_chars(v.as_slice());
    string_from(k.as_slice())
}

/// No space at the start, no two in a row, no white space at the end.
pub open spec fn single_spaced(k: Seq<char>) -> bool {
    &&& k.len() > 0 ==> k[0] != ' ' && !spec_is_whitespace(k.last())
    &&& forall|i: int| 0 <= i < k.len() - 1 ==> !(#[trigger] k[i] == ' ' && k[i + 1] == ' ')
}

/// How the fold places its spaces, the space being no letter nor digit.
proof fn lemma_fold_spaces(s: Seq<char>)
    requires
        !alphanumeric(' '),
    ensures
        key_fold(s).0.len() > 0 ==> key_fold(s).0[0] != ' ',
        forall|i: int| 0 <= i < key_fold(s).0.len() - 1 ==> !(#[trigger] key_fold(s).0[i] == ' '
            && key_fold(s).0[i + 1] == ' '),
        key_fold(s).1 <==> (key_fold(s).0.len() == 0 || key_fold(s).0.last() == ' '),
    decreases s.len(),
{
    if s.len() > 0 {
        lemma_fold_spaces(s.drop_last());
        let (key, after_space) = key_fold(s.drop_last());
        let next = key_fold(s).0;
        let lowered = char_lowercase(s.last())[0];
        assert forall|i: int| 0 <= i < next.len() - 1 implies !(#[trigger] next[i] == ' ' && next[i
            + 1] == ' ') by {
            if i + 1 < key.len() {
                assert(next[i] == key[i] && next[i + 1] == key[i + 1]);
            } else if i + 1 == key.len() {
                assert(next[i] == key[i]);
            } else {
                assert(next[i + 1] != ' ');
            }
        }
        if key.len() > 0 {
            assert(next[0] == key[0]);
        }
    }
}

/// A key has single spaces between its words and none at either end.
proof fn lemma_key_spaces(raw: Seq<char>)
    requires
        !alphanumeric(' '),
    ensures
        single_spaced(key_of(raw)),
{
    let k = key_fold(without_marks(nfd(raw.map_values(|c: char| substituted(c))))).0;
    lemma_fold_spaces(without_marks(nfd(raw.map_values(|c: char| substituted(c)))));
    crate::text::lemma_trim_end_prefix(k);
    let t = key_of(raw);
    assert forall|i: int| 0 <= i < t.len() - 1 implies !(#[trigger] t[i] == ' ' && t[i + 1] == ' ') by {
        assert(t[i] == k[i] && t[i + 1] == k[i + 1]);
    }
    if t.len() > 0 {
        assert(t[0] == k[0]);
    }
}

/// `normalize_key`, on characters.
pub fn normalize_key_chars(raw: &[char]) -> (r: Vec<char>)
    ensures
        r@ == key_of(raw@),
{
    let ghost subst = raw@.map_values(|c: char| substituted(c));
    let mut sub_chars: Vec<char> = Vec::new();
    let mut i: usize = 0;
    while i < raw.len()
        invariant
            i <= raw@.len(),
            subst == raw@.map_values(|c: char| substituted(c)),
            sub_chars@ == subst.take(i as int),
        decreases raw@.len() - i,
    {
        let c = raw[i];
        let d = if c == '$' {
            's'
        } else if c == '@' {
            'a'
        } else if c == '!' {
            'i'
        } else if c == '&' {
            '+'
        } else {
            c
        };
        sub_chars.push(d);
        i = i + 1;
        assert(sub_chars@ =~= subst.take(i as int));
    }
    assert(subst.take(i as int) =~= subst);
    let as_string = string_from(sub_chars.as_slice());
    let decomposed = nfd_of(as_string.as_str());
    let ghost stripped = without_marks(decomposed@);
    let mut key: Vec<char> = Vec::new();
    let mut after_space = true;
    let mut j: usize = 0;
    while j < decomposed.len()
        invariant
            j <= decomposed@.len(),
            (key@, after_space) == key_fold(without_marks(decomposed@.take(j as int))),
        decreases decomposed@.len() - j,
    {
        let c = decomposed[j];
        assert(decomposed@.take(j + 1).drop_last() =~= decomposed@.take(j as int));
        if !is_combining_mark(c) {
            let lowered_all = lowercase_of_char(c);
            let lowered = lowered_all[0];
            assert(without_marks(decomposed@.take(j + 1)).drop_last() =~= without_marks(
                decomposed@.take(j as int),
            ));
            if is_alphanumeric(lowered) {
                key.push(lowered);
                after_space = false;
            } else if lowered == '+' {
                key.push('a');
                key.push('n');
                key.push('d');
                after_space = false;
                assert(key@ =~= key_fold(without_marks(decomposed@.take(j as int))).0 + seq![
                    'a',
                    'n',
                    'd',
                ]);
            } else if !after_space {
                key.push(' ');
                after_space = true;
            }
        }
        j = j + 1;
    }
    assert(decomposed@.take(j as int) =~= decomposed@);
    let end = trim_end_index(key.as_slice());
    slice_chars(key.as_slice(), 0, end)
}

// ── Filing paths ───────────────────────────────────────────────────────────

/// The minimal description needed to file a track.
#[derive(Debug, Clone)]
pub struct FilingInfo<'a> {
    /// Filing artist: the album artist preferably, never « X feat. Y ».
    pub filing_artist: Option<&'a str>,
    pub album: Option<&'a str>,
    pub year: Option<u32>,
    pub track_no: Option<u32>,
    pub disc_no: Option<u32>,
    pub title: &'a str,
    /// Without the dot (« mp3 », « flac »…).
    pub extension: &'a str,
}

/// `_À trier`.
pub open spec fn unsorted_dir() -> Seq<char> {
    seq!['_', 'À', ' ', 't', 'r', 'i', 'e', 'r']
}

/// `Singles`.
pub open spec fn singles_dir() -> Seq<char> {
    seq!['S', 'i', 'n', 'g', 'l', 'e', 's']
}

/// `Sans titre`, the title of a track whose title sanitises to nothing.
pub open spec fn untitled() -> Seq<char> {
    seq!['S', 'a', 'n', 's', ' ', 't', 'i', 't', 'r', 'e']
}

/// ` - `
pub open spec fn dash() -> Seq<char> {
    seq![' ', '-', ' ']
}

/// The segment of an optional name, when it sanitises to something.
pub open spec fn sanitized_opt(raw: Option<&str>) -> Option<Seq<char>> {
    match raw {
        Some(s) => sanitized(s@),
        None => None,
    }
}

/// `2001 - Discovery`, or the bare album when the year is unknown.
pub open spec fn album_dir(year: Option<u32>, album: Seq<char>) -> Seq<char> {
    match year {
        Some(year) => decimal(year as nat) + dash() + album,
        None => album,
    }
}

/// `03 - Digital Love`; the disc number comes first on multi-disc albums only
/// (`2-04 - Ob-La-Di`); the bare title when the track number is unknown.
pub open spec fn file_name(track_no: Option<u32>, disc_no: Option<u32>, title: Seq<char>) -> Seq<char> {
    match track_no {
        Some(track) => match disc_no {
            Some(disc) if disc > 1 => decimal(disc as nat) + seq!['-'] + decimal2(track as nat)
                + dash() + title,
            _ => decimal2(track as nat) + dash() + title,
        },
        None => title,
    }
}

/// The relative filing path, with `/` as separator:
///
/// ```text
/// nominal      →  Daft Punk/2001 - Discovery/03 - Digital Love.mp3
/// no year      →  Daft Punk/Discovery/03 - Digital Love.mp3
/// no album     →  Daft Punk/Singles/Digital Love.mp3
/// no artist    →  _À trier/Digital Love.mp3
/// ```
pub open spec fn relative_path(info: FilingInfo) -> Seq<char> {
    let title = match sanitized(info.title@) {
        Some(t) => t,
        None => untitled(),
    };
    let ext = info.extension@;
    match sanitized_opt(info.filing_artist) {
        None => unsorted_dir() + seq!['/'] + title + seq!['.'] + ext,
        Some(artist) => match sanitized_opt(info.album) {
            None => artist + seq!['/'] + singles_dir() + seq!['/'] + title + seq!['.'] + ext,
            Some(album) => artist + seq!['/'] + album_dir(info.year, album) + seq!['/']
                + file_name(info.track_no, info.disc_no, title) + seq!['.'] + ext,
        },
    }
}

/// The segment of an optional name.
fn sanitize_opt(raw: Option<&str>) -> (r: Option<Vec<char>>)
    ensures
        match r {
            Some(s) => sanitized_opt(raw) == Some(s@),
            None => sanitized_opt(raw) is None,
        },
{
    match raw {
        Some(s) => {
            let v = chars_of(s);
            sanitize_chars(v.as_slice())
        },
        None => None,
    }
}

/// `album_dir`, written.
fn write_album_dir(year: Option<u32>, album: &[char]) -> (r: Vec<char>)
    ensures
        r@ == album_dir(year, album@),
{
    let mut out: Vec<char> = Vec::new();
    match year {
        Some(y) => {
            let d = write_decimal(y as u64);
            push_all(&mut out, d.as_slice());
            out.push(' ');
            out.push('-');
            out.push(' ');
        },
        None => {},
    }
    push_all(&mut out, album);
    assert(out@ =~= album_dir(year, album@));
    out
}

/// `file_name`, written.
fn write_file_name(track_no: Option<u32>, disc_no: Option<u32>, title: &[char]) -> (r: Vec<char>)
    ensures
        r@ == file_name(track_no, disc_no, title@),
{
    let mut out: Vec<char> = Vec::new();
    match track_no {
        Some(track) => {
            match disc_no {
                Some(disc) => {
                    if disc > 1 {
                        let d = write_decimal(disc as u64);
                        push_all(&mut out, d.as_slice());
                        out.push('-');
                    }
                },
                None => {},
            }
            let t = write_decimal2(track as u64);
            push_all(&mut out, t.as_slice());
            out.push(' ');
            out.push('-');
            out.push(' ');
        },
        None => {},
    }
    push_all(&mut out, title);
    assert(out@ =~= file_name(track_no, disc_no, title@));
    out
}

/// Builds the **relative** filing path, with `/` as separator.
pub fn build_relative_path(info: &FilingInfo<'_>) -> (r: String)
    ensures
        r@ == relative_path(*info),
{
    let title_chars = chars_of(info.title);
    let title: Vec<char> = match sanitize_chars(title_chars.as_slice()) {
        Some(t) => t,
        None => {
            let mut t: Vec<char> = Vec::new();
            t.push('S');
            t.push('a');
            t.push('n');
            t.push('s');
            t.push(' ');
            t.push('t');
            t.push('i');
            t.push('t');
            t.push('r');
            t.push('e');
            assert(t@ =~= untitled());
            t
        },
    };
    let ext = chars_of(info.extension);
    let mut out: Vec<char> = Vec::new();
    match sanitize_opt(info.filing_artist) {
        None => {
            out.push('_');
            out.push('À');
            out.push(' ');
            out.push('t');
            out.push('r');
            out.push('i');
            out.push('e');
            out.push('r');
            out.push('/');
            push_all(&mut out, title.as_slice());
            out.push('.');
            push_all(&mut out, ext.as_slice());
            assert(out@ =~= unsorted_dir() + seq!['/'] + title@ + seq!['.'] + ext@);
        },
        Some(artist) => {
            push_all(&mut out, artist.as_slice());
            out.push('/');
            match sanitize_opt(info.album) {
                None => {
                    out.push('S');
                    out.push('i');
                    out.push('n');
                    out.push('g');
                    out.push('l');
                    out.push('e');
                    out.push('s');
                    out.push('/');
                    push_all(&mut out, title.as_slice());
                    out.push('.');
                    push_all(&mut out, ext.as_slice());
                    assert(out@ =~= artist@ + seq!['/'] + singles_dir() + seq!['/'] + title@
                        + seq!['.'] + ext@);
                },
                Some(album) => {
                    let dir = write_album_dir(info.year, album.as_slice());
                    push_all(&mut out, dir.as_slice());
                    out.push('/');
                    let name = write_file_name(info.track_no, info.disc_no, title.as_slice());
                    push_all(&mut out, name.as_slice());
                    out.push('.');
                    push_all(&mut out, ext.as_slice());
                    assert(out@ =~= artist@ + seq!['/'] + album_dir(info.year, album@) + seq!['/']
                        + file_name(info.track_no, info.disc_no, title@) + seq!['.'] + ext@);
                },
            }
        },
    }
    string_from(out.as_slice())
}

/// Where a track without artist or album goes, spelt out: `_À trier/` then
/// the file, or `artist/Singles/` then the file; the file being the sanitised
/// title, `Sans titre` when it sanitises to nothing, a dot and the extension.
pub proof fn lemma_unfiled_track_path(info: FilingInfo)
    ensures
        ({
            let title = match sanitized(info.title@) {
                Some(t) => t,
                None => seq!['S', 'a', 'n', 's', ' ', 't', 'i', 't', 'r', 'e'],
            };
            let tail = seq!['.'] + info.extension@;
            &&& sanitized_opt(info.filing_artist) is None ==> relative_path(info) == seq![
                '_',
                'À',
                ' ',
                't',
                'r',
                'i',
                'e',
                'r',
                '/',
            ] + title + tail
            &&& sanitized_opt(info.filing_artist) is Some && sanitized_opt(info.album) is None
                ==> relative_path(info) == sanitized_opt(info.filing_artist)->0 + seq![
                '/',
                'S',
                'i',
                'n',
                'g',
                'l',
                'e',
                's',
                '/',
            ] + title + tail
        }),
{
    let title = match sanitized(info.title@) {
        Some(t) => t,
        None => seq!['S', 'a', 'n', 's', ' ', 't', 'i', 't', 'r', 'e'],
    };
    let tail = seq!['.'] + info.extension@;
    if sanitized_opt(info.filing_artist) is None {
        assert(unsorted_dir() + seq!['/'] + title + tail =~= seq![
            '_',
            'À',
            ' ',
            't',
            'r',
            'i',
            'e',
            'r',
            '/',
        ] + title + tail);
    } else if sanitized_opt(info.album) is None {
        let artist = sanitized_opt(info.filing_artist)->0;
        assert(artist + seq!['/'] + singles_dir() + seq!['/'] + title + tail =~= artist + seq![
            '/',
            'S',
            'i',
            'n',
            'g',
            'l',
            'e',
            's',
            '/',
        ] + title + tail);
    }
}

/// Where a track filed under an album goes, spelt out: `artist/`, the album
/// folder (`year - album`, or the bare album), `/`, then the file name and its
/// extension. The file name is the sanitised title alone when the track number
/// is unknown — no number and no ` - ` before it; `NN - title` on a single-disc
/// album; `D-NN - title` when the disc number is above one.
pub proof fn lemma_album_track_path(info: FilingInfo, artist: Seq<char>, album: Seq<char>)
    requires
        sanitized_opt(info.filing_artist) == Some(artist),
        sanitized_opt(info.album) == Some(album),
    ensures
        ({
            let title = match sanitized(info.title@) {
                Some(t) => t,
                None => seq!['S', 'a', 'n', 's', ' ', 't', 'i', 't', 'r', 'e'],
            };
            let folder = match info.year {
                Some(y) => decimal(y as nat) + seq![' ', '-', ' '] + album,
                None => album,
            };
            let head = artist + seq!['/'] + folder + seq!['/'];
            let tail = seq!['.'] + info.extension@;
            &&& info.track_no is None ==> relative_path(info) == head + title + tail
            &&& forall|n: u32| #![auto]
                info.track_no == Some(n) && (info.disc_no is None || info.disc_no->0 <= 1)
                    ==> relative_path(info) == head + decimal2(n as nat) + seq![' ', '-', ' ']
                    + title + tail
            &&& forall|n: u32, d: u32| #![auto]
                info.track_no == Some(n) && info.disc_no == Some(d) && d > 1 ==> relative_path(info)
                    == head + decimal(d as nat) + seq!['-'] + decimal2(n as nat) + seq![' ', '-', ' ']
                    + title + tail
        }),
{
    let title = match sanitized(info.title@) {
        Some(t) => t,
        None => seq!['S', 'a', 'n', 's', ' ', 't', 'i', 't', 'r', 'e'],
    };
    let folder = match info.year {
        Some(y) => decimal(y as nat) + seq![' ', '-', ' '] + album,
        None => album,
    };
    let head = artist + seq!['/'] + folder + seq!['/'];
    let tail = seq!['.'] + info.extension@;
    assert(album_dir(info.year, album) == folder);
    let name = file_name(info.track_no, info.disc_no, title);
    assert(relative_path(info) =~= head + name + tail);
    match info.track_no {
        None => {
            assert(name == title);
        },
        Some(n) => {
            match info.disc_no {
                Some(d) => {
                    if d > 1 {
                        assert(head + name + tail =~= head + decimal(d as nat) + seq!['-']
                            + decimal2(n as nat) + seq![' ', '-', ' '] + title + tail);
                    } else {
                        assert(head + name + tail =~= head + decimal2(n as nat) + seq![
                            ' ',
                            '-',
                            ' ',
                        ] + title + tail);
                    }
                },
                None => {
                    assert(head + name + tail =~= head + decimal2(n as nat) + seq![' ', '-', ' ']
                        + title + tail);
                },
            }
        },
    }
}

/// What the key of a name is made of: letters and digits (as the Unicode
/// classes have them), the `and` that stands for `+` and `&`, and spaces.
pub open spec fn key_char(c: char) -> bool {
    alphanumeric(c) || c == ' ' || c == 'a' || c == 'n' || c == 'd'
}

proof fn lemma_key_fold_chars(s: Seq<char>)
    ensures
        forall|i: int| 0 <= i < key_fold(s).0.len() ==> key_char(#[trigger] key_fold(s).0[i]),
    decreases s.len(),
{
    if s.len() > 0 {
        lemma_key_fold_chars(s.drop_last());
        let (key, after_space) = key_fold(s.drop_last());
        let lowered = char_lowercase(s.last())[0];
        let next = key_fold(s).0;
        assert forall|i: int| 0 <= i < next.len() implies key_char(#[trigger] next[i]) by {
            if i < key.len() {
                assert(next[i] == key[i]);
            }
        }
    }
}

/// A deduplication key holds only letters, digits, spaces and the `and` that
/// stands for `+` — no punctuation, no combining accent, none of `$ @ ! & +` —
/// and never ends with white space.
pub proof fn lemma_key_is_plain(raw: Seq<char>)
    ensures
        forall|i: int| 0 <= i < key_of(raw).len() ==> key_char(#[trigger] key_of(raw)[i]),
        key_of(raw).len() > 0 ==> !spec_is_whitespace(key_of(raw).last()),
{
    let k = key_fold(without_marks(nfd(raw.map_values(|c: char| substituted(c))))).0;
    lemma_key_fold_chars(without_marks(nfd(raw.map_values(|c: char| substituted(c)))));
    crate::text::lemma_trim_end_prefix(k);
    assert forall|i: int| 0 <= i < key_of(raw).len() implies key_char(#[trigger] key_of(raw)[i]) by {
        assert(key_of(raw)[i] == k[i]);
    }
}

} // verus!

verus! {

/// `utf8_len` is the length of the UTF-8 encoding that `str::len` counts.
pub proof fn lemma_utf8_len_is_encoding_len(s: Seq<char>)
    ensures
        utf8_len(s) == vstd::utf8::encode_utf8(s).len(),
    decreases s.len(),
{
    if s.len() > 0 {
        lemma_utf8_len_is_encoding_len(s.drop_first());
        let v = s[0] as u32;
        assert(vstd::utf8::encode_scalar(v).len() == utf8_width(s[0])) by {
            assert(vstd::utf8::has_width_1_encoding(v) <==> v < 0x80);
            assert(vstd::utf8::has_width_2_encoding(v) <==> 0x80 <= v < 0x800);
            vstd::utf8::char_is_scalar(s[0]);
        }
    }
}

// ── Laws ───────────────────────────────────────────────────────────────────

/// Characters a segment may hold: single spaces, or characters that are neither
/// white space, nor forbidden, nor control characters.
pub open spec fn segment_chars(t: Seq<char>) -> bool {
    forall|i: int|
        0 <= i < t.len() ==> #[trigger] t[i] == ' ' || (!spec_is_whitespace(t[i]) && !is_forbidden(t[i])
            && !spec_is_control(t[i]))
}

/// Squeezing cleaned characters keeps only segment characters, and never starts
/// with a space.
proof fn lemma_squeeze_chars(s: Seq<char>)
    requires
        forall|i: int| 0 <= i < s.len() ==> !is_forbidden(#[trigger] s[i]) && !spec_is_control(s[i]),
    ensures
        segment_chars(squeeze(s)),
        squeeze(s).len() > 0 ==> squeeze(s)[0] != ' ',
    decreases s.len(),
{
    if s.len() > 0 {
        let p = s.drop_last();
        assert forall|i: int| 0 <= i < p.len() implies !is_forbidden(#[trigger] p[i]) && !spec_is_control(p[i]) by {
            assert(p[i] == s[i]);
        }
        lemma_squeeze_chars(p);
        let out = squeeze(p);
        let q = squeeze(s);
        assert(s.last() == s[s.len() - 1]);
        assert forall|i: int| 0 <= i < q.len() implies #[trigger] q[i] == ' ' || (!spec_is_whitespace(q[i])
            && !is_forbidden(q[i]) && !spec_is_control(q[i])) by {
            if i < out.len() {
                assert(q[i] == out[i]);
            }
        }
        if q.len() > 0 && out.len() > 0 {
            assert(q[0] == out[0]);
        }
    }
}

/// Characters kept in a prefix stay segment characters.
proof fn lemma_prefix_chars(t: Seq<char>, k: int)
    requires
        segment_chars(t),
        0 <= k <= t.len(),
    ensures
        segment_chars(t.take(k)),
        k > 0 ==> t.take(k)[0] == t[0],
{
    assert forall|i: int| 0 <= i < k implies #[trigger] t.take(k)[i] == ' ' || (!spec_is_whitespace(
        t.take(k)[i],
    ) && !is_forbidden(t.take(k)[i]) && !spec_is_control(t.take(k)[i])) by {
        assert(t.take(k)[i] == t[i]);
    }
}

/// Stripping trailing dots and spaces leaves a prefix that ends with neither.
proof fn lemma_strip_dots_spaces(s: Seq<char>)
    ensures
        strip_dots_spaces(s) == s.take(strip_dots_spaces(s).len() as int),
        strip_dots_spaces(s).len() <= s.len(),
        strip_dots_spaces(s).len() > 0 ==> strip_dots_spaces(s).last() != '.' && strip_dots_spaces(
            s,
        ).last() != ' ',
    decreases s.len(),
{
    if s.len() > 0 && (s.last() == '.' || s.last() == ' ') {
        lemma_strip_dots_spaces(s.drop_last());
        assert(s.drop_last().take(strip_dots_spaces(s).len() as int) =~= s.take(
            strip_dots_spaces(s).len() as int,
        ));
    } else {
        assert(s.take(s.len() as int) =~= s);
    }
}

/// Stripping trailing spaces leaves a prefix that does not end with one.
proof fn lemma_strip_spaces(s: Seq<char>)
    ensures
        strip_spaces(s) == s.take(strip_spaces(s).len() as int),
        strip_spaces(s).len() <= s.len(),
        strip_spaces(s).len() > 0 ==> strip_spaces(s).last() != ' ',
    decreases s.len(),
{
    if s.len() > 0 && s.last() == ' ' {
        lemma_strip_spaces(s.drop_last());
        assert(s.drop_last().take(strip_spaces(s).len() as int) =~= s.take(
            strip_spaces(s).len() as int,
        ));
    } else {
        assert(s.take(s.len() as int) =~= s);
    }
}

/// The longest fitting prefix is a prefix, and fits.
proof fn lemma_fit_prefix(s: Seq<char>, budget: nat)
    ensures
        fit_prefix(s, budget) == s.take(fit_prefix(s, budget).len() as int),
        fit_prefix(s, budget).len() <= s.len(),
        utf8_len(fit_prefix(s, budget)) <= budget,
    decreases s.len(),
{
    if !(s.len() == 0 || utf8_width(s[0]) > budget) {
        let rest = fit_prefix(s.drop_first(), (budget - utf8_width(s[0])) as nat);
        lemma_fit_prefix(s.drop_first(), (budget - utf8_width(s[0])) as nat);
        let f = fit_prefix(s, budget);
        assert(f == seq![s[0]] + rest);
        assert(f.drop_first() =~= rest);
        assert(f[0] == s[0]);
        assert(f =~= s.take(f.len() as int)) by {
            assert forall|i: int| 0 <= i < f.len() implies f[i] == s[i] by {
                if i > 0 {
                    assert(f[i] == rest[i - 1]);
                    assert(rest[i - 1] == s.drop_first()[i - 1]);
                }
            }
        }
    } else {
        assert(fit_prefix(s, budget) =~= Seq::<char>::empty());
        assert(s.take(0) =~= Seq::<char>::empty());
    }
}

/// A segment made by `sanitize_segment` can be written on exFAT and Windows:
/// it is not empty, holds no forbidden nor control character, no white space
/// but single spaces, neither starts nor ends with a space, and its encoding
/// fits in `MAX_SEGMENT_BYTES` bytes. (A dot may end it when the cut falls
/// right after one.)
pub proof fn lemma_sanitized_is_safe(raw: Seq<char>)
    ensures
        sanitized(raw) matches Some(t) ==> {
            &&& t.len() > 0
            &&& segment_chars(t)
            &&& t[0] != ' '
            &&& t.last() != ' '
            &&& t.last() != '.'
            &&& utf8_len(t) <= MAX_SEGMENT_BYTES
        },
{
    let cleaned = raw.map_values(|c: char| cleaned_char(c));
    assert forall|i: int| 0 <= i < cleaned.len() implies !is_forbidden(#[trigger] cleaned[i])
        && !spec_is_control(cleaned[i]) by {
        assert(cleaned[i] == cleaned_char(raw[i]));
    }
    lemma_squeeze_chars(cleaned);
    let q = squeeze(cleaned);
    let c = collapse_spaces(cleaned);
    if q.len() > 0 && q.last() == ' ' {
        assert(c =~= q.take(q.len() - 1));
        lemma_prefix_chars(q, q.len() - 1);
    } else {
        assert(c =~= q.take(q.len() as int));
        lemma_prefix_chars(q, q.len() as int);
    }
    let d = strip_dots_spaces(c);
    lemma_strip_dots_spaces(c);
    lemma_prefix_chars(c, d.len() as int);
    let u = truncated(d, MAX_SEGMENT_BYTES as nat);
    if utf8_len(d) <= MAX_SEGMENT_BYTES {
    } else {
        let f = fit_prefix(d, MAX_SEGMENT_BYTES as nat);
        lemma_fit_prefix(d, MAX_SEGMENT_BYTES as nat);
        lemma_prefix_chars(d, f.len() as int);
        let t = strip_spaces(f);
        lemma_strip_spaces(f);
        lemma_prefix_chars(f, t.len() as int);
        lemma_utf8_len_split(f, t.len() as int);
    }
    let t = strip_dots_spaces(u);
    lemma_strip_dots_spaces(u);
    lemma_prefix_chars(u, t.len() as int);
    lemma_utf8_len_split(u, t.len() as int);
}

} // verus!
