//! Corroboration of an acoustic identification.
//!
//! An acoustic fingerprint is a **presumption**, not a proof. The tags the
//! file already carried are another one. When they agree, the identification
//! is written; when they contradict each other, there must be a serious reason
//! to believe the fingerprint rather than the file.
//!
//! **Better to write nothing than to write something false.**
use vstd::prelude::*;

use crate::library::naming::{
    key_of, lemma_utf8_len_push, lemma_utf8_len_split, normalize_key_chars, utf8_len, width_of,
};
use crate::library::metadata::{opt_str, opt_view};
use crate::text::{
    chars_eq, chars_of, contains, contains_seq, decimal, push_str, string_from, write_decimal,
};

verus! {

/// What the file announced before any rewriting.
#[derive(Debug, Clone, Default)]
pub struct FileEvidence {
    pub title: Option<String>,
    pub artist: Option<String>,
    pub duration_ms: i64,
}

/// Decision, always with its reason.
#[derive(Debug, Clone, PartialEq, Eq)]
pub enum Verdict {
    Accept { note: String },
    Reject { note: String },
}

impl Verdict {
    /// Whether the proposal is accepted.
    pub open spec fn is_accepted_spec(&self) -> bool {
        self is Accept
    }

    /// The reason given.
    pub open spec fn note_spec(&self) -> Seq<char> {
        match self {
            Verdict::Accept { note } => note@,
            Verdict::Reject { note } => note@,
        }
    }

    pub fn is_accepted(&self) -> (r: bool)
        ensures
            r == (self is Accept),
    {
        match self {
            Verdict::Accept { .. } => true,
            Verdict::Reject { .. } => false,
        }
    }

    pub fn note(&self) -> (r: &str)
        ensures
            r@ == match self {
                Verdict::Accept { note } => note@,
                Verdict::Reject { note } => note@,
            },
    {
        match self {
            Verdict::Accept { note } => note.as_str(),
            Verdict::Reject { note } => note.as_str(),
        }
    }
}

/// Shortest key that may match by inclusion, in bytes: « carmen » is in
/// « carmen (Clip Officiel) », but « Go » must not match « Django ».
pub const MIN_INCLUSION: usize = 4;

/// Whether two tag values designate the same thing, `None` when the comparison
/// makes no sense for want of a usable value: equal keys, or a key of at least
/// four bytes contained in the other.
pub open spec fn agreement_of(left: Option<Seq<char>>, right: Option<Seq<char>>) -> Option<bool> {
    match (left, right) {
        (Some(l), Some(r)) => {
            let a = key_of(l);
            let b = key_of(r);
            if a.len() == 0 || b.len() == 0 {
                None
            } else {
                Some(
                    a == b || (utf8_len(a) >= MIN_INCLUSION && contains_seq(b, a)) || (utf8_len(b)
                        >= MIN_INCLUSION && contains_seq(a, b)),
                )
            }
        },
        _ => None,
    }
}

/// `agreement_of`, on string slices.
pub open spec fn agreement(left: Option<&str>, right: Option<&str>) -> Option<bool> {
    agreement_of(opt_str(left), opt_str(right))
}

/// Whether the UTF-8 encoding of `s` takes at least `n` bytes.
fn reaches_bytes(s: &[char], n: usize) -> (r: bool)
    ensures
        r == (utf8_len(s@) >= n),
{
    if n == 0 {
        return true;
    }
    let mut total: usize = 0;
    let mut i: usize = 0;
    proof {
        lemma_utf8_len_split(s@, 0);
    }
    while i < s.len()
        invariant
            i <= s@.len(),
            total == utf8_len(s@.take(i as int)),
            total < n,
            utf8_len(s@) == utf8_len(s@.take(i as int)) + utf8_len(s@.skip(i as int)),
        decreases s@.len() - i,
    {
        proof {
            lemma_utf8_len_split(s@, i + 1);
            assert(s@.take(i + 1) =~= s@.take(i as int).push(s@[i as int]));
            lemma_utf8_len_push(s@.take(i as int), s@[i as int]);
        }
        let w = width_of(s[i]);
        if w >= n - total {
            return true;
        }
        total = total + w;
        i = i + 1;
    }
    assert(s@.take(i as int) =~= s@);
    false
}

/// `None` when the comparison makes no sense, for want of a usable value.
pub fn agrees(left: Option<&str>, right: Option<&str>) -> (r: Option<bool>)
    ensures
        r == agreement(left, right),
{
    let (l, r) = match (left, right) {
        (Some(l), Some(r)) => (l, r),
        _ => return None,
    };
    let lc = chars_of(l);
    let rc = chars_of(r);
    let a = normalize_key_chars(lc.as_slice());
    let b = normalize_key_chars(rc.as_slice());
    if a.len() == 0 || b.len() == 0 {
        return None;
    }
    if chars_eq(a.as_slice(), b.as_slice()) {
        return Some(true);
    }
    let a_long = reaches_bytes(a.as_slice(), MIN_INCLUSION);
    let b_long = reaches_bytes(b.as_slice(), MIN_INCLUSION);
    Some((a_long && contains(b.as_slice(), a.as_slice())) || (b_long && contains(
        a.as_slice(),
        b.as_slice(),
    )))
}

/// `Damso — Macarena`, for a readable message.
pub open spec fn label_text(artist: Option<&str>, title: Option<&str>) -> Seq<char> {
    match (artist, title) {
        (Some(a), Some(t)) => a@ + seq![' ', '—', ' '] + t@,
        (Some(a), None) => a@,
        (None, Some(t)) => t@,
        (None, None) => seq!['s', 'a', 'n', 's', ' ', 't', 'a', 'g', 's'],
    }
}

/// `Damso — Macarena`, for a readable message.
pub fn label(artist: Option<&str>, title: Option<&str>) -> (r: String)
    ensures
        r@ == label_text(artist, title),
{
    let mut out: Vec<char> = Vec::new();
    match (artist, title) {
        (Some(a), Some(t)) => {
            push_str(&mut out, a);
            out.push(' ');
            out.push('—');
            out.push(' ');
            push_str(&mut out, t);
        },
        (Some(a), None) => {
            push_str(&mut out, a);
        },
        (None, Some(t)) => {
            push_str(&mut out, t);
        },
        (None, None) => {
            out.push('s');
            out.push('a');
            out.push('n');
            out.push('s');
            out.push(' ');
            out.push('t');
            out.push('a');
            out.push('g');
            out.push('s');
        },
    }
    assert(out@ =~= label_text(artist, title));
    string_from(out.as_slice())
}

/// Integer division rounding towards zero, as Rust's `/` computes it.
pub open spec fn tdiv(a: int, b: int) -> int {
    if a >= 0 {
        a / b
    } else {
        -((-a) / b)
    }
}

/// The remainder that goes with `tdiv`, as Rust's `%` computes it.
pub open spec fn trem(a: int, b: int) -> int {
    a - tdiv(a, b) * b
}

/// A signed integer in decimal, as `{}` formats it.
pub open spec fn signed_decimal(n: int) -> Seq<char> {
    if n < 0 {
        seq!['-'] + decimal((-n) as nat)
    } else {
        decimal(n as nat)
    }
}

/// A signed integer on at least two characters, zeros after the sign, as
/// `{:02}` formats it.
pub open spec fn signed_decimal2(n: int) -> Seq<char> {
    if 0 <= n < 10 {
        seq!['0'] + decimal(n as nat)
    } else {
        signed_decimal(n)
    }
}

/// `m:ss` for a duration in milliseconds (whole seconds, rounded towards zero).
pub open spec fn duration_text(ms: i64) -> Seq<char> {
    let total = tdiv(ms as int, 1000);
    signed_decimal(tdiv(total, 60)) + seq![':'] + signed_decimal2(trem(total, 60))
}

/// A signed integer in decimal.
fn write_signed(n: i64) -> (v: Vec<char>)
    requires
        n > i64::MIN,
    ensures
        v@ == signed_decimal(n as int),
{
    if n < 0 {
        let mut v: Vec<char> = Vec::new();
        v.push('-');
        let d = write_decimal((-n) as u64);
        let mut w = v;
        crate::text::push_all(&mut w, d.as_slice());
        w
    } else {
        write_decimal(n as u64)
    }
}

/// `m:ss` for a duration in milliseconds.
pub fn format_duration(ms: i64) -> (r: String)
    ensures
        r@ == duration_text(ms),
{
    let total = ms / 1000;
    let minutes = total / 60;
    let seconds = total % 60;
    assert(total == tdiv(ms as int, 1000));
    assert(minutes == tdiv(total as int, 60));
    assert(seconds == trem(total as int, 60));
    let mut out = write_signed(minutes);
    out.push(':');
    if 0 <= seconds && seconds < 10 {
        out.push('0');
        let d = write_decimal(seconds as u64);
        crate::text::push_all(&mut out, d.as_slice());
    } else {
        let d = write_signed(seconds);
        crate::text::push_all(&mut out, d.as_slice());
    }
    assert(out@ =~= duration_text(ms));
    string_from(out.as_slice())
}

/// Largest gap between the durations of the file and of the recording: seven
/// seconds cover trailing silences, fades, and the tenths encoders allow
/// themselves. Beyond, they are two versions — a radio edit, a live, another
/// take.
pub const DURATION_TOLERANCE_MS: i64 = 7_000;

/// Order key (as `f64::total_cmp` orders) of the confidence beyond which the
/// fingerprint suffices by itself — **provided nothing contradicts it**: that
/// of 0.9.
pub const STRONG_SCORE_KEY: u64 = 0xBFEC_CCCC_CCCC_CCCD;

/// What AcoustID and MusicBrainz propose.
#[derive(Debug, Clone, Default)]
pub struct CandidateEvidence {
    pub title: String,
    pub artist: Option<String>,
    /// Duration of the recording according to MusicBrainz, when known.
    pub length_ms: Option<i64>,
    /// Number of releases attached. Zero often betrays a record made from a
    /// rip, with no discographic existence.
    pub release_count: usize,
    /// The fingerprint's confidence (0 to 1), as its order key.
    pub score_key: u64,
    /// The confidence as shown: the percentage, rounded to a whole number.
    pub confidence: String,
}

/// What the file's tags say of the proposal.
#[derive(Debug, Clone, Copy, PartialEq, Eq, Structural)]
pub enum Agreement {
    /// Artist and title agree.
    Both,
    /// The artist agrees — the strongest clue.
    Artist,
    /// The title agrees, but not the artist.
    Title,
    /// The file carried nothing usable: it says neither yes nor no.
    Silent,
    /// The file announced something else.
    Contradicts,
}

/// Confronts the file's tags with the proposal.
pub open spec fn agreement_between(file: FileEvidence, candidate: CandidateEvidence) -> Agreement {
    let artist = agreement_of(opt_view(file.artist), opt_view(candidate.artist));
    let title = agreement_of(opt_view(file.title), Some(candidate.title@));
    if artist == Some(true) && title == Some(true) {
        Agreement::Both
    } else if artist == Some(true) {
        Agreement::Artist
    } else if title == Some(true) {
        Agreement::Title
    } else if artist is None && title is None {
        Agreement::Silent
    } else {
        Agreement::Contradicts
    }
}

/// An optional string as an optional string slice.
fn as_deref(value: &Option<String>) -> (r: Option<&str>)
    ensures
        opt_str(r) == opt_view(*value),
{
    match value {
        Some(v) => Some(v.as_str()),
        None => None,
    }
}

/// Confronts the file's tags with the proposal.
pub fn compare(file: &FileEvidence, candidate: &CandidateEvidence) -> (r: Agreement)
    ensures
        r == agreement_between(*file, *candidate),
{
    let artist = agrees(as_deref(&file.artist), as_deref(&candidate.artist));
    let title = agrees(as_deref(&file.title), Some(candidate.title.as_str()));
    match (artist, title) {
        (Some(true), Some(true)) => Agreement::Both,
        (Some(true), _) => Agreement::Artist,
        (_, Some(true)) => Agreement::Title,
        (None, None) => Agreement::Silent,
        _ => Agreement::Contradicts,
    }
}

/// Why an accepted proposal is accepted.
pub open spec fn acceptance_reason(a: Agreement) -> Seq<char> {
    match a {
        Agreement::Both => "artiste et titre confirmés par les tags du fichier"@,
        Agreement::Artist => "artiste confirmé par les tags du fichier"@,
        Agreement::Title => "titre confirmé par les tags du fichier"@,
        Agreement::Silent => "le fichier ne portait pas de tags exploitables"@,
        Agreement::Contradicts => "empreinte assez sûre pour corriger les tags du fichier"@,
    }
}

/// The label of what the file announced.
pub open spec fn file_label(file: FileEvidence) -> Seq<char> {
    label_of(opt_view(file.artist), opt_view(file.title))
}

/// `label_text`, on views.
pub open spec fn label_of(artist: Option<Seq<char>>, title: Option<Seq<char>>) -> Seq<char> {
    match (artist, title) {
        (Some(a), Some(t)) => a + seq![' ', '—', ' '] + t,
        (Some(a), None) => a,
        (None, Some(t)) => t,
        (None, None) => seq!['s', 'a', 'n', 's', ' ', 't', 'a', 'g', 's'],
    }
}

/// The decision on a proposal, always with its reason, on the clues at hand:
/// the durations first — the one objective criterion —; then whether the record
/// is serious (no release *and* contradicting tags: the profile of a record
/// made from a rip); then a frank contradiction, which only a confidence of at
/// least 0.9 overrides; otherwise acceptance.
pub open spec fn judgement(file: FileEvidence, c: CandidateEvidence) -> (bool, Seq<char>) {
    let a = agreement_between(file, c);
    if c.length_ms matches Some(l) && (file.duration_ms - l > DURATION_TOLERANCE_MS || l
        - file.duration_ms > DURATION_TOLERANCE_MS) {
        (
            false,
            "durée incompatible : le fichier dure "@ + duration_text(file.duration_ms)
                + ", l'enregistrement "@ + duration_text(c.length_ms->0),
        )
    } else if c.release_count == 0 && a == Agreement::Contradicts {
        (
            false,
            "fiche sans parution et tags contradictoires : le fichier annonçait « "@ + file_label(file)
                + " », la correspondance propose « "@ + label_of(opt_view(c.artist), Some(c.title@))
                + " »"@,
        )
    } else if a == Agreement::Contradicts && c.score_key < STRONG_SCORE_KEY {
        (
            false,
            "confiance "@ + c.confidence@ + " % insuffisante pour contredire les tags du fichier ("@
                + file_label(file) + ")"@,
        )
    } else {
        (true, "confiance "@ + c.confidence@ + " % — "@ + acceptance_reason(a))
    }
}

/// Decides on a proposal, always with its reason.
pub fn assess(file: &FileEvidence, candidate: &CandidateEvidence) -> (r: Verdict)
    requires
        candidate.length_ms matches Some(l) ==> i64::MIN < file.duration_ms - l <= i64::MAX,
    ensures
        r.is_accepted_spec() == judgement(*file, *candidate).0,
        r.note_spec() == judgement(*file, *candidate).1,
{
    if let Some(length_ms) = candidate.length_ms {
        let gap = file.duration_ms - length_ms;
        let gap = if gap < 0 { -gap } else { gap };
        if gap > DURATION_TOLERANCE_MS {
            let mut out: Vec<char> = Vec::new();
            push_str(&mut out, "durée incompatible : le fichier dure ");
            push_str(&mut out, format_duration(file.duration_ms).as_str());
            push_str(&mut out, ", l'enregistrement ");
            push_str(&mut out, format_duration(length_ms).as_str());
            return Verdict::Reject { note: string_from(out.as_slice()) };
        }
    }
    let agreement = compare(file, candidate);
    if candidate.release_count == 0 && agreement == Agreement::Contradicts {
        let mut out: Vec<char> = Vec::new();
        push_str(&mut out, "fiche sans parution et tags contradictoires : le fichier annonçait « ");
        push_str(&mut out, label(as_deref(&file.artist), as_deref(&file.title)).as_str());
        push_str(&mut out, " », la correspondance propose « ");
        push_str(&mut out, label(as_deref(&candidate.artist), Some(candidate.title.as_str())).as_str());
        push_str(&mut out, " »");
        return Verdict::Reject { note: string_from(out.as_slice()) };
    }
    if agreement == Agreement::Contradicts && candidate.score_key < STRONG_SCORE_KEY {
        let mut out: Vec<char> = Vec::new();
        push_str(&mut out, "confiance ");
        push_str(&mut out, candidate.confidence.as_str());
        push_str(&mut out, " % insuffisante pour contredire les tags du fichier (");
        push_str(&mut out, label(as_deref(&file.artist), as_deref(&file.title)).as_str());
        push_str(&mut out, ")");
        return Verdict::Reject { note: string_from(out.as_slice()) };
    }
    let reason: &str = match agreement {
        Agreement::Both => "artiste et titre confirmés par les tags du fichier",
        Agreement::Artist => "artiste confirmé par les tags du fichier",
        Agreement::Title => "titre confirmé par les tags du fichier",
        Agreement::Silent => "le fichier ne portait pas de tags exploitables",
        Agreement::Contradicts => "empreinte assez sûre pour corriger les tags du fichier",
    };
    let mut out: Vec<char> = Vec::new();
    push_str(&mut out, "confiance ");
    push_str(&mut out, candidate.confidence.as_str());
    push_str(&mut out, " % — ");
    push_str(&mut out, reason);
    Verdict::Accept { note: string_from(out.as_slice()) }
}

/// Whether the judge accepts the proposal (the verdict without its reason).
pub fn accepts(file: &FileEvidence, candidate: &CandidateEvidence) -> (r: bool)
    ensures
        r == judgement(*file, *candidate).0,
{
    if let Some(length_ms) = candidate.length_ms {
        let gap: i128 = file.duration_ms as i128 - length_ms as i128;
        if gap > DURATION_TOLERANCE_MS as i128 || -gap > DURATION_TOLERANCE_MS as i128 {
            return false;
        }
    }
    let agreement = compare(file, candidate);
    if agreement == Agreement::Contradicts {
        candidate.release_count != 0 && candidate.score_key >= STRONG_SCORE_KEY
    } else {
        true
    }
}

/// The first proposal, from `from` on, that the judge accepts. Results found by
/// name come ordered by relevance: going further down would prefer a worse one.
pub fn first_accepted(file: &FileEvidence, candidates: &Vec<CandidateEvidence>, from: usize) -> (r: Option<
    usize,
>)
    ensures
        match r {
            Some(i) => {
                &&& from <= i < candidates.len()
                &&& judgement(*file, candidates@[i as int]).0
                &&& forall|j: int| from <= j < i ==> !judgement(*file, #[trigger] candidates@[j]).0
            },
            None => forall|j: int|
                from <= j < candidates.len() ==> !judgement(*file, #[trigger] candidates@[j]).0,
        },
{
    let mut i = from;
    while i < candidates.len()
        invariant
            from <= i,
            forall|j: int| from <= j < i && j < candidates.len() ==> !judgement(*file, #[trigger] candidates@[j]).0,
        decreases candidates.len() - i,
    {
        if accepts(file, &candidates[i]) {
            return Some(i);
        }
        i = i + 1;
    }
    None
}

/// A recording found by searching MusicBrainz with the file's own tags, the
/// fingerprint being unknown to AcoustID.
#[derive(Debug, Clone)]
pub struct NameHit {
    pub recording_mbid: String,
    pub title: String,
    pub artist: Option<String>,
    pub length_ms: Option<i64>,
    /// The search's relevance (0 to 1), as its order key.
    pub score_key: u64,
    /// The relevance as shown: the percentage, rounded to a whole number.
    pub confidence: String,
}

/// The title a search by name asks for: the file's title, as it stands; none
/// when it is missing or blank — then no search is sent and the track is marked
/// not found.
pub fn search_title(file: &FileEvidence) -> (r: Option<String>)
    ensures
        match file.title {
            Some(t) => if crate::text::trim(t@).len() > 0 {
                r matches Some(s) && s@ == t@
            } else {
                r is None
            },
            None => r is None,
        },
{
    match &file.title {
        Some(t) => if crate::text::trim_chars(chars_of(t.as_str()).as_slice()).len() > 0 {
            Some(t.clone())
        } else {
            None
        },
        None => None,
    }
}

/// The proposal a search hit makes to the **same judge** as a fingerprint
/// match: its own title, artist, length and score, and one release — a record
/// found by its text was indexed, so it exists in the discography.
pub fn hit_candidate(hit: &NameHit) -> (r: CandidateEvidence)
    ensures
        r.title@ == hit.title@,
        opt_view(r.artist) == opt_view(hit.artist),
        r.length_ms == hit.length_ms,
        r.release_count == 1,
        r.score_key == hit.score_key,
        r.confidence@ == hit.confidence@,
{
    CandidateEvidence {
        title: hit.title.clone(),
        artist: hit.artist.clone(),
        length_ms: hit.length_ms,
        release_count: 1,
        score_key: hit.score_key,
        confidence: hit.confidence.clone(),
    }
}

/// **Better to write nothing than to write something false**: a recording of
/// another duration is never accepted; tags that contradict the match are only
/// overridden by a confidence of at least 0.9, and never by a record without
/// any release.
pub proof fn lemma_better_nothing_than_false(file: FileEvidence, c: CandidateEvidence)
    ensures
        (c.length_ms matches Some(l) && (file.duration_ms - l > DURATION_TOLERANCE_MS || l - file.duration_ms
            > DURATION_TOLERANCE_MS)) ==> !judgement(file, c).0,
        (judgement(file, c).0 && agreement_between(file, c) == Agreement::Contradicts) ==> (c.score_key
            >= STRONG_SCORE_KEY && c.release_count > 0),
{
}

/// A match the file's tags do not contradict (they confirm it, or say nothing)
/// is accepted as long as the durations agree, whatever the confidence and even
/// without a release.
pub proof fn lemma_uncontradicted_match_is_accepted(file: FileEvidence, c: CandidateEvidence)
    requires
        agreement_between(file, c) != Agreement::Contradicts,
        c.length_ms matches Some(l) ==> (-DURATION_TOLERANCE_MS <= file.duration_ms - l
            <= DURATION_TOLERANCE_MS),
    ensures
        judgement(file, c).0,
{
}

} // verus!
