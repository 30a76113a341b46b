//! AcoustID: from a fingerprint to the identifier of the recording.
//!
//! The service is free but asks for a key, which the user enters: a key shared
//! by every user would be banned as soon as one of them imported a large
//! library. The library checks the key, writes the request and picks the best
//! usable match of the answer; sending the request and reading its JSON belong
//! to the application.
//!
//! The service scores its matches from 0 to 1. A score reaches the library as
//! its order key: the integer whose order is `f64::total_cmp`'s — the bits with
//! the sign bit flipped for a positive number, all bits flipped for a negative
//! one. The key keeps every comparison the scores take part in.
use vstd::prelude::*;

use crate::identify::fingerprint::Fingerprint;
use crate::text::{chars_of, push_all, push_str, string_from, trim, trim_chars, write_decimal};

verus! {

/// The lookup endpoint.
pub const ENDPOINT: &'static str = "https://api.acoustid.org/v2/lookup";

/// Lowest confidence accepted, as an order key: that of 0.5. Below, a match
/// often comes from a shared excerpt — the same silent intro, the same sample.
/// **Better to write nothing than to write false tags.**
pub const MIN_SCORE_KEY: u64 = 0xBFE0_0000_0000_0000;

/// Why AcoustID cannot be asked, or refused.
#[derive(Debug, Clone, PartialEq, Eq)]
pub enum AcoustIdError {
    /// No key was entered.
    MissingKey,
    /// The service answered with an error, whose message this is.
    Service(String),
}

impl AcoustIdError {
    /// The message shown for the error.
    pub fn message(&self) -> (r: String)
        ensures
            *self == AcoustIdError::MissingKey ==> r@ == "clé AcoustID absente — à renseigner dans les réglages"@,
            self matches AcoustIdError::Service(m) ==> r@ == "AcoustID : "@ + m@,
    {
        match self {
            AcoustIdError::MissingKey => "clé AcoustID absente — à renseigner dans les réglages".to_string(),
            AcoustIdError::Service(m) => {
                let mut out: Vec<char> = Vec::new();
                push_str(&mut out, "AcoustID : ");
                push_str(&mut out, m.as_str());
                string_from(out.as_slice())
            },
        }
    }
}

/// A client of the service: the user's key, trimmed.
pub struct AcoustIdClient {
    api_key: String,
}

impl AcoustIdClient {
    /// The key the client sends.
    pub closed spec fn key(&self) -> Seq<char> {
        self.api_key@
    }

    /// A client for a key; a blank key is refused at once, rather than sending
    /// a request bound to a 401 and spending quota for nothing.
    pub fn new(api_key: String) -> (r: Result<AcoustIdClient, AcoustIdError>)
        ensures
            match r {
                Ok(c) => trim(api_key@).len() > 0 && c.key() == trim(api_key@),
                Err(e) => trim(api_key@).len() == 0 && e == AcoustIdError::MissingKey,
            },
    {
        let key = trim_chars(chars_of(api_key.as_str()).as_slice());
        if key.len() == 0 {
            return Err(AcoustIdError::MissingKey);
        }
        Ok(AcoustIdClient { api_key: string_from(key.as_slice()) })
    }

    /// The request for a fingerprint: only the recording ids are asked for,
    /// the rich metadata come from MusicBrainz.
    pub fn lookup_url(&self, fingerprint: &Fingerprint) -> (r: String)
        ensures
            r@ == ENDPOINT@ + "?client="@ + self.key() + "&format=json&meta=recordingids&duration="@
                + crate::text::decimal(fingerprint.duration_seconds as nat) + "&fingerprint="@
                + fingerprint.encoded@,
    {
        let mut out: Vec<char> = Vec::new();
        push_str(&mut out, ENDPOINT);
        push_str(&mut out, "?client=");
        push_str(&mut out, self.api_key.as_str());
        push_str(&mut out, "&format=json&meta=recordingids&duration=");
        let d = write_decimal(fingerprint.duration_seconds as u64);
        push_all(&mut out, d.as_slice());
        push_str(&mut out, "&fingerprint=");
        push_str(&mut out, fingerprint.encoded.as_str());
        string_from(out.as_slice())
    }
}

/// One match of the answer: its score's order key and the ids of its
/// recordings, when the answer lists them.
#[derive(Debug, Clone)]
pub struct LookupResult {
    pub score_key: u64,
    pub recordings: Option<Vec<String>>,
}

/// The match kept: the MusicBrainz id of the **recording** (not of the work:
/// that is what tells an album version from its radio edit) and its score's
/// order key.
#[derive(Debug, Clone, PartialEq, Eq)]
pub struct Identification {
    pub recording_mbid: String,
    pub score_key: u64,
}

/// The first id that is not empty.
pub open spec fn first_id(ids: Seq<String>) -> Option<Seq<char>>
    decreases ids.len(),
{
    if ids.len() == 0 {
        None
    } else if ids[0]@.len() > 0 {
        Some(ids[0]@)
    } else {
        first_id(ids.drop_first())
    }
}

/// What a match offers: its first non-empty recording id with its score, when
/// it is confident enough and lists one.
pub open spec fn usable(r: LookupResult) -> Option<(Seq<char>, u64)> {
    if r.score_key >= MIN_SCORE_KEY {
        match r.recordings {
            Some(ids) => match first_id(ids@) {
                Some(id) => Some((id, r.score_key)),
                None => None,
            },
            None => None,
        }
    } else {
        None
    }
}

/// The best usable match: the highest score, the last one among equals. The
/// answer is said to come sorted, but nothing binds the service to it, so its
/// order is not trusted.
pub open spec fn best_of(results: Seq<LookupResult>) -> Option<(Seq<char>, u64)>
    decreases results.len(),
{
    if results.len() == 0 {
        None
    } else {
        let before = best_of(results.drop_last());
        match usable(results.last()) {
            None => before,
            Some(c) => match before {
                None => Some(c),
                Some(b) => if c.1 >= b.1 {
                    Some(c)
                } else {
                    Some(b)
                },
            },
        }
    }
}

/// The first non-empty id of a list.
fn first_usable_id(ids: &Vec<String>) -> (r: Option<String>)
    ensures
        match r {
            Some(id) => first_id(ids@) == Some(id@),
            None => first_id(ids@) is None,
        },
{
    let mut i: usize = 0;
    assert(ids@.skip(0) =~= ids@);
    while i < ids.len()
        invariant
            i <= ids@.len(),
            first_id(ids@) == first_id(ids@.skip(i as int)),
        decreases ids@.len() - i,
    {
        assert(ids@.skip(i as int)[0] == ids@[i as int]);
        assert(ids@.skip(i as int).drop_first() =~= ids@.skip(i + 1));
        if chars_of(ids[i].as_str()).len() > 0 {
            return Some(ids[i].clone());
        }
        i = i + 1;
    }
    None
}

/// The best usable match of an answer.
pub fn best_match(results: &[LookupResult]) -> (r: Option<Identification>)
    ensures
        match r {
            Some(m) => best_of(results@) == Some((m.recording_mbid@, m.score_key)),
            None => best_of(results@) is None,
        },
{
    let mut best: Option<Identification> = None;
    let mut i: usize = 0;
    assert(results@.take(0) =~= Seq::<LookupResult>::empty());
    while i < results.len()
        invariant
            i <= results@.len(),
            match best {
                Some(m) => best_of(results@.take(i as int)) == Some((m.recording_mbid@, m.score_key)),
                None => best_of(results@.take(i as int)) is None,
            },
        decreases results@.len() - i,
    {
        assert(results@.take(i + 1).drop_last() =~= results@.take(i as int));
        assert(results@.take(i + 1).last() == results@[i as int]);
        let result = &results[i];
        if result.score_key >= MIN_SCORE_KEY {
            match &result.recordings {
                Some(ids) => {
                    match first_usable_id(ids) {
                        Some(id) => {
                            let better = match &best {
                                Some(b) => result.score_key >= b.score_key,
                                None => true,
                            };
                            if better {
                                best = Some(Identification { recording_mbid: id, score_key: result.score_key });
                            }
                        },
                        None => {},
                    }
                },
                None => {},
            }
        }
        i = i + 1;
    }
    assert(results@.take(i as int) =~= results@);
    best
}

/// What an answer comes to: an error when its status is not `ok` (with the
/// message it carries, empty for want of one); else the best usable match,
/// `None` for a recording the index does not know — frequent, and normal for
/// confidential or very recent productions.
pub fn read_answer(status: &str, error_message: Option<String>, results: &[LookupResult]) -> (r: Result<
    Option<Identification>,
    AcoustIdError,
>)
    ensures
        status@ == "ok"@ ==> match r {
            Ok(Some(m)) => best_of(results@) == Some((m.recording_mbid@, m.score_key)),
            Ok(None) => best_of(results@) is None,
            Err(_) => false,
        },
        status@ != "ok"@ ==> (r matches Err(AcoustIdError::Service(m)) && m@ == (match error_message {
            Some(e) => e@,
            None => Seq::<char>::empty(),
        })),
{
    let ok: &str = "ok";
    if !crate::text::chars_eq(chars_of(status).as_slice(), chars_of(ok).as_slice()) {
        let message = match error_message {
            Some(m) => m,
            None => String::new(),
        };
        return Err(AcoustIdError::Service(message));
    }
    Ok(best_match(results))
}

/// **The order of the answer is not trusted**: the match kept has the highest
/// score of all the usable matches, wherever they stand, and is one of them.
pub proof fn lemma_best_is_highest(results: Seq<LookupResult>)
    ensures
        best_of(results) matches Some(b) ==> (exists|i: int| 0 <= i < results.len() && usable(#[trigger] results[i])
            == Some(b)),
        best_of(results) matches Some(b) ==> (forall|i: int|
            0 <= i < results.len() && #[trigger] usable(results[i]) is Some ==> (usable(results[i])->0).1 <= b.1),
        best_of(results) is None ==> (forall|i: int| 0 <= i < results.len() ==> #[trigger] usable(results[i]) is None),
    decreases results.len(),
{
    if results.len() > 0 {
        let front = results.drop_last();
        lemma_best_is_highest(front);
        assert forall|i: int| 0 <= i < front.len() implies #[trigger] front[i] == results[i] by {}
        let last = results.len() - 1;
        if let Some(b) = best_of(results) {
            if best_of(results) == usable(results[last]) {
                assert(usable(results[last]) == Some(b));
            } else {
                let j = choose|j: int| 0 <= j < front.len() && usable(#[trigger] front[j]) == Some(b);
                assert(usable(results[j]) == Some(b));
            }
            assert forall|i: int| 0 <= i < results.len() && #[trigger] usable(results[i]) is Some implies (usable(
                results[i],
            )->0).1 <= b.1 by {
                if i < last {
                    assert(front[i] == results[i]);
                }
            }
        } else {
            assert forall|i: int| 0 <= i < results.len() implies #[trigger] usable(results[i]) is None by {
                if i < last {
                    assert(front[i] == results[i]);
                }
            }
        }
    }
}

} // verus!
