//! Spotify playlists: the shapes of a playlist and of its tracks, the
//! recognition of a pasted playlist address, the client's credentials and
//! requests, and the reading of the pages of a playlist. Sending the requests
//! belongs to the application.
use vstd::prelude::*;

use crate::text::{
    chars_of, contains_seq, find, occurs_at, slice_chars, starts_with, string_from, trim,
    trim_chars,
};

verus! {

/// A track as Spotify describes it.
#[derive(Debug, Clone)]
pub struct SpotifyTrack {
    pub title: String,
    /// Credited artists, the main one first.
    pub artists: Vec<String>,
    pub album: Option<String>,
    pub duration_ms: i64,
    /// Link of the track, usable as is by an external downloader.
    pub url: String,
}

impl SpotifyTrack {
    pub fn main_artist(&self) -> (r: Option<&str>)
        ensures
            self.artists@.len() == 0 ==> r is None,
            self.artists@.len() > 0 ==> (r matches Some(a) && a@ == self.artists@[0]@),
    {
        if self.artists.len() == 0 {
            None
        } else {
            Some(self.artists[0].as_str())
        }
    }
}

/// A playlist that was read.
#[derive(Debug, Clone)]
pub struct SpotifyPlaylist {
    pub name: String,
    pub tracks: Vec<SpotifyTrack>,
}

/// `spotify:playlist:`
pub open spec fn uri_prefix() -> Seq<char> {
    "spotify:playlist:"@
}

/// `/playlist/`
pub open spec fn path_marker() -> Seq<char> {
    "/playlist/"@
}

/// Position of the first occurrence of `needle` in `hay`.
pub open spec fn first_occurrence(hay: Seq<char>, needle: Seq<char>) -> Option<int> {
    if contains_seq(hay, needle) {
        Some(
            choose|i: int| occurs_at(hay, needle, i) && forall|j: int|
                0 <= j < i ==> !occurs_at(hay, needle, j),
        )
    } else {
        None
    }
}

/// An ASCII letter or digit.
pub open spec fn is_ascii_alnum(c: char) -> bool {
    let v = c as u32;
    (48 <= v && v <= 57) || (65 <= v && v <= 90) || (97 <= v && v <= 122)
}

/// The leading run of ASCII letters and digits.
pub open spec fn alnum_prefix(s: Seq<char>) -> Seq<char>
    decreases s.len(),
{
    if s.len() > 0 && is_ascii_alnum(s[0]) {
        seq![s[0]] + alnum_prefix(s.drop_first())
    } else {
        seq![]
    }
}

/// What follows the playlist marker: after the URI prefix, after the first
/// `/playlist/`, or the whole text.
pub open spec fn id_candidate(t: Seq<char>) -> Seq<char> {
    if occurs_at(t, uri_prefix(), 0) {
        t.skip(uri_prefix().len() as int)
    } else {
        match first_occurrence(t, path_marker()) {
            Some(p) => t.skip(p + path_marker().len()),
            None => t,
        }
    }
}

/// The playlist identifier in what the user pasted: the web address, the
/// `spotify:playlist:` URI, or the bare identifier; the identifier stops at the
/// first character that is not an ASCII letter or digit, and must have at least
/// sixteen of them.
pub open spec fn playlist_id_of(input: Seq<char>) -> Option<Seq<char>> {
    let t = trim(input);
    if t.len() == 0 {
        None
    } else {
        let id = alnum_prefix(id_candidate(t));
        if id.len() >= 16 {
            Some(id)
        } else {
            None
        }
    }
}

/// Whether a character is an ASCII letter or digit.
pub fn ascii_alnum(c: char) -> (r: bool)
    ensures
        r == is_ascii_alnum(c),
{
    let v = c as u32;
    (48 <= v && v <= 57) || (65 <= v && v <= 90) || (97 <= v && v <= 122)
}

/// The leading run of ASCII letters and digits.
fn take_alnum(s: &[char]) -> (r: Vec<char>)
    ensures
        r@ == alnum_prefix(s@),
{
    let mut i: usize = 0;
    while i < s.len() && ascii_alnum(s[i])
        invariant
            i <= s@.len(),
            forall|j: int| 0 <= j < i ==> is_ascii_alnum(#[trigger] s@[j]),
        decreases s@.len() - i,
    {
        i = i + 1;
    }
    proof {
        lemma_alnum_prefix(s@, i as int);
    }
    slice_chars(s, 0, i)
}

/// `alnum_prefix` stops at the first character that is not alphanumeric.
proof fn lemma_alnum_prefix(s: Seq<char>, k: int)
    requires
        0 <= k <= s.len(),
        forall|j: int| 0 <= j < k ==> is_ascii_alnum(#[trigger] s[j]),
        k == s.len() || !is_ascii_alnum(s[k]),
    ensures
        alnum_prefix(s) == s.subrange(0, k),
    decreases k,
{
    if k > 0 {
        assert forall|j: int| 0 <= j < k - 1 implies is_ascii_alnum(#[trigger] s.drop_first()[j]) by {
            assert(s.drop_first()[j] == s[j + 1]);
        }
        if k < s.len() {
            assert(s.drop_first()[k - 1] == s[k]);
        }
        lemma_alnum_prefix(s.drop_first(), k - 1);
        assert(seq![s[0]] + s.drop_first().subrange(0, k - 1) =~= s.subrange(0, k));
    } else {
        assert(s.subrange(0, 0) =~= Seq::<char>::empty());
    }
}

/// Extracts a playlist identifier from what the user pasted. Tracking
/// parameters (`?si=…`) are dropped.
pub fn playlist_id(input: &str) -> (r: Option<String>)
    ensures
        match r {
            Some(id) => playlist_id_of(input@) == Some(id@),
            None => playlist_id_of(input@) is None,
        },
{
    let raw = chars_of(input);
    let t = trim_chars(raw.as_slice());
    if t.len() == 0 {
        return None;
    }
    let prefix = chars_of("spotify:playlist:");
    let marker = chars_of("/playlist/");
    let candidate: Vec<char> = if starts_with(t.as_slice(), prefix.as_slice()) {
        slice_chars(t.as_slice(), prefix.len(), t.len())
    } else {
        match find(t.as_slice(), marker.as_slice()) {
            Some(p) => {
                proof {
                    let q = first_occurrence(t@, path_marker());
                    assert(contains_seq(t@, path_marker()));
                    let c = choose|i: int| occurs_at(t@, path_marker(), i) && forall|j: int|
                        0 <= j < i ==> !occurs_at(t@, path_marker(), j);
                    assert(occurs_at(t@, path_marker(), c) && forall|j: int|
                        0 <= j < c ==> !occurs_at(t@, path_marker(), j));
                    if c < p {
                    } else if p < c {
                    }
                    assert(c == p);
                }
                slice_chars(t.as_slice(), p + marker.len(), t.len())
            },
            None => t.clone(),
        }
    };
    assert(candidate@ =~= id_candidate(t@));
    let id = take_alnum(candidate.as_slice());
    if id.len() >= 16 {
        Some(string_from(id.as_slice()))
    } else {
        None
    }
}

/// Reduces an error body of the Spotify API to its useful sentence.
pub fn summarize(body: &str) -> (r: String)
    ensures
        r@ == crate::identify::http::token_error_summary(body@),
{
    crate::identify::http::summarize_token_error(body)
}

/// A track of a playlist page, as the API describes it, as plain values.
#[derive(Debug, Clone)]
pub struct TrackObject {
    pub name: String,
    pub duration_ms: i64,
    /// The names of the credited artists.
    pub artists: Vec<String>,
    /// The album's name.
    pub album: Option<String>,
    /// The Spotify link (`external_urls.spotify`).
    pub url: Option<String>,
}

/// An item of a playlist page: a track, or nothing (a track removed from the
/// catalogue).
#[derive(Debug, Clone)]
pub struct PlaylistItem {
    pub track: Option<TrackObject>,
}

/// The non-blank names, in order.
pub open spec fn named_artists(names: Seq<String>) -> Seq<Seq<char>>
    decreases names.len(),
{
    if names.len() == 0 {
        seq![]
    } else if trim(names.last()@).len() > 0 {
        named_artists(names.drop_last()).push(names.last()@)
    } else {
        named_artists(names.drop_last())
    }
}

/// Strings as character sequences.
pub open spec fn string_views(v: Seq<String>) -> Seq<Seq<char>> {
    v.map_values(|s: String| s@)
}

/// What a track read from an item holds: the title; the non-blank credited
/// artists; the album; the duration; the link or nothing.
pub open spec fn describes(x: SpotifyTrack, t: TrackObject) -> bool {
    &&& x.title@ == t.name@
    &&& string_views(x.artists@) == named_artists(t.artists@)
    &&& x.album == t.album
    &&& x.duration_ms == t.duration_ms
    &&& x.url@ == match t.url {
        Some(u) => u@,
        None => seq![],
    }
}

/// Whether an item holds a track with a title.
pub open spec fn titled(item: PlaylistItem) -> bool {
    item.track matches Some(t) && trim(t.name@).len() > 0
}

impl PlaylistItem {
    /// The track an item describes: `None` without a track or without a title.
    pub fn into_track(self) -> (r: Option<SpotifyTrack>)
        ensures
            !titled(self) ==> r is None,
            titled(self) ==> (r matches Some(x) && describes(x, self.track->0)),
    {
        let track = match self.track {
            Some(t) => t,
            None => return None,
        };
        if trim_chars(chars_of(track.name.as_str()).as_slice()).len() == 0 {
            return None;
        }
        let mut artists: Vec<String> = Vec::new();
        let mut i: usize = 0;
        assert(string_views(artists@) =~= Seq::<Seq<char>>::empty());
        while i < track.artists.len()
            invariant
                i <= track.artists@.len(),
                string_views(artists@) == named_artists(track.artists@.take(i as int)),
            decreases track.artists@.len() - i,
        {
            assert(track.artists@.take(i + 1).drop_last() =~= track.artists@.take(i as int));
            let name = &track.artists[i];
            if trim_chars(chars_of(name.as_str()).as_slice()).len() > 0 {
                let ghost before = string_views(artists@);
                let copy = name.clone();
                artists.push(copy);
                assert(string_views(artists@) =~= before.push(name@));
            }
            i = i + 1;
        }
        assert(track.artists@.take(i as int) =~= track.artists@);
        let url = match track.url {
            Some(u) => u,
            None => String::new(),
        };
        Some(SpotifyTrack {
            title: track.name,
            artists,
            album: track.album,
            duration_ms: track.duration_ms,
            url,
        })
    }
}

/// The Web API.
pub const API: &'static str = "https://api.spotify.com/v1";

/// Where an access token is asked for.
pub const TOKEN_ENDPOINT: &'static str = "https://accounts.spotify.com/api/token";

/// Least spacing between two calls, in milliseconds.
pub const MIN_INTERVAL: u64 = 200;

/// Tracks asked for per page.
pub const PAGE_SIZE: usize = 50;

/// Safety net: beyond this, it is no longer a playlist.
pub const MAX_TRACKS: usize = 2_000;

/// Why a playlist could not be read.
#[derive(Debug, Clone, PartialEq, Eq)]
pub enum SpotifyError {
    /// No credentials were entered.
    MissingCredentials,
    /// What was pasted is not a playlist address.
    UnknownLink,
    /// The playlist was not found (or is not public).
    NotFound,
    /// The credentials were refused: the HTTP status and the summary of the
    /// answer's body.
    Refused { status: u16, summary: String },
}

impl SpotifyError {
    /// The message shown for the error.
    pub fn message(&self) -> (r: String)
        ensures
            *self == SpotifyError::MissingCredentials ==> r@
                == "identifiants Spotify absents — à renseigner dans les réglages"@,
            *self == SpotifyError::UnknownLink ==> r@
                == "lien de playlist non reconnu — colle l'adresse complète, du genre https://open.spotify.com/playlist/…"@,
            *self == SpotifyError::NotFound ==> r@ == "playlist introuvable — est-elle bien publique ?"@,
            self matches SpotifyError::Refused { status, summary } ==> r@
                == "Spotify a refusé les identifiants ("@ + crate::text::decimal(status as nat) + ") : "@
                + summary@,
    {
        match self {
            SpotifyError::MissingCredentials => "identifiants Spotify absents — à renseigner dans les réglages".to_string(),
            SpotifyError::UnknownLink => "lien de playlist non reconnu — colle l'adresse complète, du genre https://open.spotify.com/playlist/…".to_string(),
            SpotifyError::NotFound => "playlist introuvable — est-elle bien publique ?".to_string(),
            SpotifyError::Refused { status, summary } => {
                let mut out: Vec<char> = Vec::new();
                crate::text::push_str(&mut out, "Spotify a refusé les identifiants (");
                let d = crate::text::write_decimal(*status as u64);
                crate::text::push_all(&mut out, d.as_slice());
                crate::text::push_str(&mut out, ") : ");
                crate::text::push_str(&mut out, summary.as_str());
                string_from(out.as_slice())
            },
        }
    }
}

/// A client of the Web API: the application's credentials, trimmed.
pub struct SpotifyClient {
    client_id: String,
    client_secret: String,
}

impl SpotifyClient {
    /// The client id sent.
    pub closed spec fn id(&self) -> Seq<char> {
        self.client_id@
    }

    /// The client secret sent.
    pub closed spec fn secret(&self) -> Seq<char> {
        self.client_secret@
    }

    /// A client for credentials; blank ones are refused at once.
    pub fn new(client_id: String, client_secret: String) -> (r: Result<SpotifyClient, SpotifyError>)
        ensures
            match r {
                Ok(c) => trim(client_id@).len() > 0 && trim(client_secret@).len() > 0 && c.id() == trim(
                    client_id@,
                ) && c.secret() == trim(client_secret@),
                Err(e) => (trim(client_id@).len() == 0 || trim(client_secret@).len() == 0) && e
                    == SpotifyError::MissingCredentials,
            },
    {
        let id = trim_chars(chars_of(client_id.as_str()).as_slice());
        let secret = trim_chars(chars_of(client_secret.as_str()).as_slice());
        if id.len() == 0 || secret.len() == 0 {
            return Err(SpotifyError::MissingCredentials);
        }
        Ok(SpotifyClient { client_id: string_from(id.as_slice()), client_secret: string_from(secret.as_slice()) })
    }

    /// The client id, for the token request's basic authentication.
    pub fn client_id(&self) -> (r: &str)
        ensures
            r@ == self.id(),
    {
        self.client_id.as_str()
    }

    /// The client secret, for the token request's basic authentication.
    pub fn client_secret(&self) -> (r: &str)
        ensures
            r@ == self.secret(),
    {
        self.client_secret.as_str()
    }
}

/// The id of a pasted playlist address, or the error telling it is not one.
pub fn playlist_id_or_error(input: &str) -> (r: Result<String, SpotifyError>)
    ensures
        match r {
            Ok(id) => playlist_id_of(input@) == Some(id@),
            Err(e) => playlist_id_of(input@) is None && e == SpotifyError::UnknownLink,
        },
{
    match playlist_id(input) {
        Some(id) => Ok(id),
        None => Err(SpotifyError::UnknownLink),
    }
}

/// The request for a playlist's name.
pub fn details_url(id: &str) -> (r: String)
    ensures
        r@ == API@ + "/playlists/"@ + id@ + "?fields=name"@,
{
    let mut out: Vec<char> = Vec::new();
    crate::text::push_str(&mut out, API);
    crate::text::push_str(&mut out, "/playlists/");
    crate::text::push_str(&mut out, id);
    crate::text::push_str(&mut out, "?fields=name");
    string_from(out.as_slice())
}

/// The request for the page of a playlist's tracks starting at `offset`, with
/// only the fields read.
pub fn page_url(id: &str, offset: usize) -> (r: String)
    ensures
        r@ == API@ + "/playlists/"@ + id@ + "/tracks?limit=50&offset="@ + crate::text::decimal(
            offset as nat,
        ) + "&fields=items(track(name,duration_ms,artists(name),album(name),external_urls(spotify)))"@,
{
    let mut out: Vec<char> = Vec::new();
    crate::text::push_str(&mut out, API);
    crate::text::push_str(&mut out, "/playlists/");
    crate::text::push_str(&mut out, id);
    crate::text::push_str(&mut out, "/tracks?limit=50&offset=");
    let d = crate::text::write_decimal(offset as u64);
    crate::text::push_all(&mut out, d.as_slice());
    crate::text::push_str(
        &mut out,
        "&fields=items(track(name,duration_ms,artists(name),album(name),external_urls(spotify)))",
    );
    string_from(out.as_slice())
}

/// The items that hold a titled track, in order.
pub open spec fn titled_items(items: Seq<PlaylistItem>) -> Seq<PlaylistItem>
    decreases items.len(),
{
    if items.len() == 0 {
        seq![]
    } else if titled(items.last()) {
        titled_items(items.drop_last()).push(items.last())
    } else {
        titled_items(items.drop_last())
    }
}

/// Adds a page's tracks to those read so far, and says whether to ask for the
/// next page: a short page is the last one — Spotify has nothing more — and the
/// reading stops once `MAX_TRACKS` are reached.
pub fn add_page(tracks: &mut Vec<SpotifyTrack>, items: Vec<PlaylistItem>) -> (more: bool)
    ensures
        final(tracks)@.len() == old(tracks)@.len() + titled_items(items@).len(),
        forall|k: int| 0 <= k < old(tracks)@.len() ==> final(tracks)@[k] == old(tracks)@[k],
        forall|k: int|
            0 <= k < titled_items(items@).len() ==> describes(
                #[trigger] final(tracks)@[old(tracks)@.len() + k],
                titled_items(items@)[k].track->0,
            ),
        more == (items@.len() >= PAGE_SIZE && final(tracks)@.len() < MAX_TRACKS),
{
    let ghost all = items@;
    let ghost start = tracks@;
    let received = items.len();
    let mut rest = items;
    let mut i: usize = 0;
    assert(all.skip(0) =~= all);
    assert(all.take(0) =~= Seq::<PlaylistItem>::empty());
    while rest.len() > 0
        invariant
            i <= all.len(),
            i + rest@.len() == all.len(),
            all.len() <= usize::MAX,
            rest@ == all.skip(i as int),
            tracks@.len() == start.len() + titled_items(all.take(i as int)).len(),
            forall|k: int| 0 <= k < start.len() ==> tracks@[k] == start[k],
            forall|k: int|
                0 <= k < titled_items(all.take(i as int)).len() ==> describes(
                    #[trigger] tracks@[start.len() + k],
                    titled_items(all.take(i as int))[k].track->0,
                ),
        decreases rest@.len(),
    {
        let ghost before = titled_items(all.take(i as int));
        assert(all.take(i + 1).drop_last() =~= all.take(i as int));
        assert(all.take(i + 1).last() == all[i as int]);
        let item = rest.remove(0);
        assert(item == all[i as int]);
        assert(rest@ =~= all.skip(i + 1));
        let ghost it = item;
        match item.into_track() {
            Some(track) => {
                assert(titled_items(all.take(i + 1)) == before.push(it));
                tracks.push(track);
            },
            None => {
                assert(titled_items(all.take(i + 1)) == before);
            },
        }
        i = i + 1;
    }
    assert(all.take(i as int) =~= all);
    received >= PAGE_SIZE && tracks.len() < MAX_TRACKS
}

} // verus!
