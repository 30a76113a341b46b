//! Reading a `.spotdl` file: one entry per track, read leniently — `spotdl`
//! evolves, and a renamed key must not make the whole file unreadable.
//!
//! The JSON itself is read outside the library; this module turns each entry,
//! given as plain values, into a track.
use vstd::prelude::*;

use crate::text::{chars_of, push_all, string_from, trim, trim_chars};

verus! {

/// Safety net: beyond this, it is no longer a playlist but a catalogue.
pub const MAX_TRACKS: usize = 5_000;

/// A track read in the file.
#[derive(Debug, Clone)]
pub struct PlaylistTrack {
    pub title: String,
    pub artists: Vec<String>,
    pub album: Option<String>,
    pub duration_ms: i64,
    /// Spotify link of the track, when the file carries one.
    pub url: String,
    /// « Artist - Title », a query ready for an external downloader.
    pub query: String,
}

impl PlaylistTrack {
    pub fn main_artist(&self) -> (r: Option<&str>)
        ensures
            self.artists@.len() == 0 ==> r is None,
            self.artists@.len() > 0 ==> (r matches Some(a) && a@ == self.artists@[0]@),
    {
        if self.artists.len() == 0 {
            None
        } else {
            Some(self.artists[0].as_str())
        }
    }
}

/// One entry of the file, as plain values.
#[derive(Debug, Clone)]
pub struct Entry {
    /// `name`, or `title` in some versions.
    pub name: String,
    pub artists: Vec<String>,
    pub artist: Option<String>,
    /// `album_name`, or `album`.
    pub album_name: Option<String>,
    /// The `duration_ms` field, when the file has it.
    pub duration_ms: Option<i64>,
    /// The `duration` field — seconds — already brought to milliseconds.
    pub duration_from_seconds: Option<i64>,
    pub url: Option<String>,
    /// The name of the playlist the entry came from (`song_list.name`).
    pub playlist: Option<String>,
}

/// Trimmed credits, blanks dropped.
pub open spec fn credited(artists: Seq<String>) -> Seq<Seq<char>>
    decreases artists.len(),
{
    if artists.len() == 0 {
        seq![]
    } else {
        let rest = credited(artists.drop_last());
        let t = trim(artists.last()@);
        if t.len() > 0 {
            rest.push(t)
        } else {
            rest
        }
    }
}

/// The credits of an entry: all of `artists`, trimmed and without blanks; for
/// want of any, the single `artist`.
pub open spec fn entry_artists(e: Entry) -> Seq<Seq<char>> {
    let all = credited(e.artists@);
    if all.len() == 0 && (e.artist matches Some(a) && trim(a@).len() > 0) {
        seq![trim(e.artist->0@)]
    } else {
        all
    }
}

/// Strings as character sequences.
pub open spec fn string_views(v: Seq<String>) -> Seq<Seq<char>> {
    v.map_values(|s: String| s@)
}

/// What a track read from an entry holds: the trimmed title; the credits;
/// the duration in milliseconds (`duration_ms` first, then the converted
/// `duration`, else 0); the query « first artist - title »; the album when not
/// blank; the link or nothing.
pub open spec fn describes(t: PlaylistTrack, e: Entry) -> bool {
    &&& t.title@ == trim(e.name@)
    &&& string_views(t.artists@) == entry_artists(e)
    &&& t.duration_ms == match e.duration_ms {
        Some(d) => d,
        None => match e.duration_from_seconds {
            Some(d) => d,
            None => 0,
        },
    }
    &&& t.query@ == if entry_artists(e).len() > 0 {
        entry_artists(e)[0] + seq![' ', '-', ' '] + trim(e.name@)
    } else {
        trim(e.name@)
    }
    &&& (match e.album_name {
        Some(a) => if trim(a@).len() > 0 {
            t.album matches Some(b) && b@ == a@
        } else {
            t.album is None
        },
        None => t.album is None,
    })
    &&& t.url@ == match e.url {
        Some(u) => u@,
        None => Seq::<char>::empty(),
    }
}

impl Entry {
    /// The track an entry describes, `None` for an entry without a title (an
    /// entry `spotdl` could not resolve).
    pub fn into_track(self) -> (r: Option<PlaylistTrack>)
        ensures
            trim(self.name@).len() == 0 ==> r is None,
            trim(self.name@).len() > 0 ==> (r matches Some(t) && describes(t, self)),
    {
        let title = trim_chars(chars_of(self.name.as_str()).as_slice());
        if title.len() == 0 {
            return None;
        }
        let mut artists: Vec<String> = Vec::new();
        let mut i: usize = 0;
        while i < self.artists.len()
            invariant
                i <= self.artists@.len(),
                string_views(artists@) == credited(self.artists@.take(i as int)),
            decreases self.artists@.len() - i,
        {
            assert(self.artists@.take(i + 1).drop_last() =~= self.artists@.take(i as int));
            let t = trim_chars(chars_of(self.artists[i].as_str()).as_slice());
            if t.len() > 0 {
                artists.push(string_from(t.as_slice()));
                assert(string_views(artists@) =~= credited(self.artists@.take(i as int)).push(t@));
            }
            i = i + 1;
        }
        assert(self.artists@.take(i as int) =~= self.artists@);
        if artists.len() == 0 {
            if let Some(single) = &self.artist {
                let t = trim_chars(chars_of(single.as_str()).as_slice());
                if t.len() > 0 {
                    artists.push(string_from(t.as_slice()));
                    assert(string_views(artists@) =~= seq![t@]);
                }
            }
        }
        let duration_ms = match self.duration_ms {
            Some(d) => d,
            None => match self.duration_from_seconds {
                Some(d) => d,
                None => 0,
            },
        };
        let mut query: Vec<char> = Vec::new();
        if artists.len() > 0 {
            push_all(&mut query, chars_of(artists[0].as_str()).as_slice());
            query.push(' ');
            query.push('-');
            query.push(' ');
        }
        push_all(&mut query, title.as_slice());
        proof {
            if artists@.len() > 0 {
                assert(string_views(artists@)[0] == artists@[0]@);
                assert(query@ =~= entry_artists(self)[0] + seq![' ', '-', ' '] + title@);
            } else {
                assert(query@ =~= title@);
            }
        }
        let album = match self.album_name {
            Some(a) => {
                if trim_chars(chars_of(a.as_str()).as_slice()).len() > 0 {
                    Some(a)
                } else {
                    None
                }
            },
            None => None,
        };
        let url = match self.url {
            Some(u) => u,
            None => String::new(),
        };
        Some(PlaylistTrack {
            title: string_from(title.as_slice()),
            artists,
            album,
            duration_ms,
            url,
            query: string_from(query.as_slice()),
        })
    }
}

/// Why a `.spotdl` file gives no track list.
#[derive(Debug, Clone, Copy, PartialEq, Eq, Structural)]
pub enum SpotdlError {
    /// The file holds no track.
    Empty,
}

impl SpotdlError {
    /// The message shown for the error.
    pub fn message(&self) -> (r: &'static str)
        ensures
            r@ == "le fichier ne contient aucun titre"@,
    {
        "le fichier ne contient aucun titre"
    }
}

/// The entries that have a title, in order.
pub open spec fn kept(entries: Seq<Entry>) -> Seq<Entry>
    decreases entries.len(),
{
    if entries.len() == 0 {
        seq![]
    } else if trim(entries.last().name@).len() > 0 {
        kept(entries.drop_last()).push(entries.last())
    } else {
        kept(entries.drop_last())
    }
}

/// The smaller of two counts.
pub open spec fn at_most(n: nat, cap: nat) -> nat {
    if n <= cap {
        n
    } else {
        cap
    }
}

/// The tracks of a `.spotdl` file's entries: an error for a file without
/// entries; the entries without a title skipped; at most `MAX_TRACKS`, the
/// first ones kept.
pub fn tracks(entries: Vec<Entry>) -> (r: Result<Vec<PlaylistTrack>, SpotdlError>)
    ensures
        match r {
            Ok(t) => {
                &&& entries@.len() > 0
                &&& t@.len() == at_most(kept(entries@).len(), MAX_TRACKS as nat)
                &&& forall|k: int| 0 <= k < t@.len() ==> describes(#[trigger] t@[k], kept(entries@)[k])
            },
            Err(e) => entries@.len() == 0 && e == SpotdlError::Empty,
        },
{
    if entries.len() == 0 {
        return Err(SpotdlError::Empty);
    }
    let ghost all = entries@;
    let mut rest = entries;
    let mut out: Vec<PlaylistTrack> = Vec::new();
    let mut i: usize = 0;
    assert(all.skip(0) =~= all);
    assert(all.take(0) =~= Seq::<Entry>::empty());
    while rest.len() > 0
        invariant
            i <= all.len(),
            i + rest@.len() == all.len(),
            all.len() <= usize::MAX,
            rest@ == all.skip(i as int),
            out@.len() == at_most(kept(all.take(i as int)).len(), MAX_TRACKS as nat),
            forall|k: int| 0 <= k < out@.len() ==> describes(#[trigger] out@[k], kept(all.take(i as int))[k]),
        decreases rest@.len(),
    {
        let ghost before = kept(all.take(i as int));
        assert(all.take(i + 1).drop_last() =~= all.take(i as int));
        assert(all.take(i + 1).last() == all[i as int]);
        let entry = rest.remove(0);
        assert(entry == all[i as int]);
        assert(rest@ =~= all.skip(i + 1));
        let ghost e = entry;
        match entry.into_track() {
            Some(track) => {
                assert(kept(all.take(i + 1)) == before.push(e));
                if out.len() < MAX_TRACKS {
                    out.push(track);
                }
            },
            None => {
                assert(kept(all.take(i + 1)) == before);
            },
        }
        i = i + 1;
    }
    assert(all.take(i as int) =~= all);
    Ok(out)
}

/// The name of the playlist the file was saved from: `spotdl` writes it on
/// every entry, the first one that has it is read; a blank name counts as none.
pub open spec fn playlist_of(entries: Seq<Entry>) -> Option<Seq<char>>
    decreases entries.len(),
{
    if entries.len() == 0 {
        None
    } else {
        match entries[0].playlist {
            Some(n) => if trim(n@).len() > 0 {
                Some(n@)
            } else {
                None
            },
            None => playlist_of(entries.drop_first()),
        }
    }
}

/// The name of the playlist the file was saved from.
pub fn playlist_name(entries: &[Entry]) -> (r: Option<String>)
    ensures
        match r {
            Some(n) => playlist_of(entries@) == Some(n@),
            None => playlist_of(entries@) is None,
        },
{
    let mut i: usize = 0;
    assert(entries@.skip(0) =~= entries@);
    while i < entries.len()
        invariant
            i <= entries@.len(),
            playlist_of(entries@) == playlist_of(entries@.skip(i as int)),
        decreases entries@.len() - i,
    {
        assert(entries@.skip(i as int)[0] == entries@[i as int]);
        assert(entries@.skip(i as int).drop_first() =~= entries@.skip(i + 1));
        match &entries[i].playlist {
            Some(n) => {
                if trim_chars(chars_of(n.as_str()).as_slice()).len() > 0 {
                    return Some(n.clone());
                } else {
                    return None;
                }
            },
            None => {},
        }
        i = i + 1;
    }
    None
}

} // verus!
