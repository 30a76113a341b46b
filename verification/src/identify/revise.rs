//! Revision of the albums written by an earlier identification.
//!
//! One MusicBrainz round trip per **album**: all the tracks of an album share
//! the same verdict.
//!
//! ```text
//!   correct release        only compilations        album unknown
//!   → substitute it        → clear the album        → touch nothing
//! ```
use vstd::prelude::*;

use crate::library::naming::{key_of, normalize_key_chars};
use crate::text::{chars_eq, chars_of, string_from};

verus! {

/// Version of the revision rule. Incrementing it replays the pass over the
/// whole library.
pub const VERSION: i64 = 1;

/// What the revision changed.
#[derive(Debug, Default, Clone, Copy, PartialEq, Eq)]
pub struct RevisionReport {
    /// Albums examined with MusicBrainz.
    pub examined: u64,
    /// Compilation albums detached from their tracks.
    pub cleared: u64,
    /// Tracks whose album changed.
    pub tracks_touched: u64,
}

impl RevisionReport {
    pub fn is_empty(&self) -> (r: bool)
        ensures
            r == (self.cleared == 0 && self.tracks_touched == 0),
    {
        self.cleared == 0 && self.tracks_touched == 0
    }
}

/// Verdict on an album.
#[derive(Debug, Clone, PartialEq, Eq)]
pub enum AlbumVerdict {
    /// Nothing to change.
    Keep,
    /// The album comes from a compilation: to clear.
    Clear,
    /// A correct release exists and bears another name.
    Replace { title: String, year: Option<u32> },
}

/// Some title of `titles` has the same deduplication key as `current`.
pub open spec fn any_same_key(titles: Seq<String>, current: Seq<char>) -> bool {
    exists|i: int| 0 <= i < titles.len() && key_of(#[trigger] titles[i]@) == key_of(current)
}

/// Judges an album from what MusicBrainz says of the recording.
///
/// * `current` — the album as recorded;
/// * `best` — the release kept by the rule, `None` when the track is only known
///   through compilations;
/// * `all_titles` — every release attached to the recording.
///
/// A correct release is only substituted when it really differs (case and
/// accents do not count). Without an acceptable release, the album is cleared
/// only if it came from this recording — one of its compilations; an album the
/// user entered and MusicBrainz ignores is kept.
pub fn assess_album(current: &str, best: Option<(&str, Option<u32>)>, all_titles: &[String]) -> (r: AlbumVerdict)
    ensures
        best matches Some((title, year)) ==> if key_of(title@) == key_of(current@) {
            r is Keep
        } else {
            r matches AlbumVerdict::Replace { title: t, year: y } && t@ == title@ && y == year
        },
        best is None ==> if any_same_key(all_titles@, current@) {
            r is Clear
        } else {
            r is Keep
        },
{
    let current_chars = chars_of(current);
    let current_key = normalize_key_chars(current_chars.as_slice());
    match best {
        Some((title, year)) => {
            let title_chars = chars_of(title);
            let title_key = normalize_key_chars(title_chars.as_slice());
            if chars_eq(title_key.as_slice(), current_key.as_slice()) {
                AlbumVerdict::Keep
            } else {
                AlbumVerdict::Replace { title: string_from(title_chars.as_slice()), year }
            }
        },
        None => {
            let mut i: usize = 0;
            while i < all_titles.len()
                invariant
                    i <= all_titles@.len(),
                    current_key@ == key_of(current@),
                    best is None,
                    forall|j: int| 0 <= j < i ==> key_of(#[trigger] all_titles@[j]@) != key_of(current@),
                decreases all_titles@.len() - i,
            {
                let t = chars_of(all_titles[i].as_str());
                let k = normalize_key_chars(t.as_slice());
                if chars_eq(k.as_slice(), current_key.as_slice()) {
                    assert(key_of(all_titles@[i as int]@) == key_of(current@));
                    assert(any_same_key(all_titles@, current@));
                    return AlbumVerdict::Clear;
                }
                i = i + 1;
            }
            AlbumVerdict::Keep
        },
    }
}

} // verus!
